//! The header of a `.sld` file.
use vstd::prelude::*;

use crate::external;
use crate::le;
use crate::policy;
use crate::stream;
use crate::stream::{Piece, ReadEvent};

verus! {

/// Version of the header layout.
pub const HEADER_VERSION: u8 = 1;

/// Argon2id, the one key derivation there is.
pub const KDF_ARGON2ID: u8 = 1;

/// ChaCha20-Poly1305, the one cipher there is.
pub const CIPHER_CHACHA20POLY1305: u8 = 1;

/// Plaintext bytes per chunk, at most.
pub const CHUNK_PLAIN: usize = 262_144;

/// Length of a header.
pub const HEADER_LEN: usize = 39;

/// The first four bytes of every file: `SLD` and a 1.
pub open spec fn magic() -> Seq<u8> {
    seq![0x53u8, 0x4cu8, 0x44u8, 0x01u8]
}

/// The first four bytes of every file.
pub fn magic_bytes() -> (bytes: Vec<u8>)
    ensures
        bytes@ == magic(),
{
    vec![0x53u8, 0x4cu8, 0x44u8, 0x01u8]
}

/// What a header records.
#[derive(Copy, Clone, Debug)]
pub struct FileHeader {
    pub kdf_mem_cost: u32,
    pub kdf_time_cost: u32,
    pub kdf_parallelism: u32,
    pub chunk_plain: u32,
    pub salt: [u8; external::SALT_LEN],
}

/// The contents of a header.
#[verifier::ext_equal]
pub struct HeaderModel {
    pub mem_cost: u32,
    pub time_cost: u32,
    pub parallelism: u32,
    pub chunk_plain: u32,
    pub salt: Seq<u8>,
}

impl View for FileHeader {
    type V = HeaderModel;

    open spec fn view(&self) -> HeaderModel {
        HeaderModel {
            mem_cost: self.kdf_mem_cost,
            time_cost: self.kdf_time_cost,
            parallelism: self.kdf_parallelism,
            chunk_plain: self.chunk_plain,
            salt: self.salt@,
        }
    }
}

impl HeaderModel {
    /// A header that can stand in a file: costs inside the policy, the one chunk size
    /// there is, a salt of the right length.
    pub open spec fn valid(self) -> bool {
        &&& policy::costs_in_policy(self.mem_cost, self.time_cost, self.parallelism)
        &&& self.chunk_plain == CHUNK_PLAIN
        &&& self.salt.len() == external::SALT_LEN
    }

    /// The header without the magic: the part that every chunk authenticates.
    pub open spec fn aad_prefix(self) -> Seq<u8> {
        seq![HEADER_VERSION, KDF_ARGON2ID, CIPHER_CHACHA20POLY1305] + le::le_bytes(
            self.mem_cost as nat,
            4,
        ) + le::le_bytes(self.time_cost as nat, 4) + le::le_bytes(self.parallelism as nat, 4)
            + le::le_bytes(self.chunk_plain as nat, 4) + self.salt
    }

    /// The header as it stands in a file.
    pub open spec fn bytes(self) -> Seq<u8> {
        magic() + self.aad_prefix()
    }

    /// The key of the file, or the words of the derivation's failure.
    pub open spec fn key(self, passphrase: Seq<u8>) -> Result<Seq<u8>, Seq<char>> {
        policy::derived_key(
            passphrase,
            self.salt,
            self.mem_cost,
            self.time_cost,
            self.parallelism,
        )
    }

    /// The header, field by field, as a list of writes.
    pub open spec fn pieces(self) -> Seq<(Seq<char>, Seq<u8>)> {
        seq![
            ("write header magic"@, magic()),
            (
                "write header ids"@,
                seq![HEADER_VERSION, KDF_ARGON2ID, CIPHER_CHACHA20POLY1305],
            ),
            ("write kdf mem cost"@, le::le_bytes(self.mem_cost as nat, 4)),
            ("write kdf time cost"@, le::le_bytes(self.time_cost as nat, 4)),
            ("write kdf parallelism"@, le::le_bytes(self.parallelism as nat, 4)),
            ("write chunk size"@, le::le_bytes(self.chunk_plain as nat, 4)),
            ("write salt"@, self.salt),
        ]
    }
}

impl FileHeader {
    /// The header of a new file, if its costs are acceptable.
    pub fn from_kdf_params(
        kdf_mem_cost: u32,
        kdf_time_cost: u32,
        kdf_parallelism: u32,
        salt: [u8; external::SALT_LEN],
    ) -> (r: Result<Self, String>)
        ensures
            r matches Ok(header) ==> policy::costs_refusal(
                kdf_mem_cost,
                kdf_time_cost,
                kdf_parallelism,
            ) is None && header@ == (HeaderModel {
                mem_cost: kdf_mem_cost,
                time_cost: kdf_time_cost,
                parallelism: kdf_parallelism,
                chunk_plain: CHUNK_PLAIN as u32,
                salt: salt@,
            }) && header@.valid(),
            r matches Err(e) ==> policy::costs_refusal(
                kdf_mem_cost,
                kdf_time_cost,
                kdf_parallelism,
            ) == Some(e@),
    {
        match policy::validate_kdf_params(kdf_mem_cost, kdf_time_cost, kdf_parallelism) {
            Ok(()) => Ok(
                FileHeader {
                    kdf_mem_cost,
                    kdf_time_cost,
                    kdf_parallelism,
                    chunk_plain: CHUNK_PLAIN as u32,
                    salt,
                },
            ),
            Err(e) => Err(e),
        }
    }

    /// The header without the magic: the part that every chunk authenticates.
    pub fn aad_prefix_bytes(&self) -> (bytes: Vec<u8>)
        ensures
            bytes@ == self@.aad_prefix(),
    {
        let mut out: Vec<u8> = Vec::with_capacity(35);
        out.push(HEADER_VERSION);
        out.push(KDF_ARGON2ID);
        out.push(CIPHER_CHACHA20POLY1305);
        out.extend_from_slice(le::u32_to_le(self.kdf_mem_cost).as_slice());
        out.extend_from_slice(le::u32_to_le(self.kdf_time_cost).as_slice());
        out.extend_from_slice(le::u32_to_le(self.kdf_parallelism).as_slice());
        out.extend_from_slice(le::u32_to_le(self.chunk_plain).as_slice());
        out.extend_from_slice(&self.salt);
        assert(out@ =~= self@.aad_prefix());
        out
    }

    /// The header, field by field, as a list of writes.
    pub fn header_pieces(&self) -> (list: Vec<Piece>)
        ensures
            stream::pieces(list@) == self@.pieces(),
    {
        let mut salt: Vec<u8> = Vec::with_capacity(external::SALT_LEN);
        salt.extend_from_slice(&self.salt);
        assert(salt@ =~= self.salt@);
        let ids: Vec<u8> = vec![HEADER_VERSION, KDF_ARGON2ID, CIPHER_CHACHA20POLY1305];
        let mut list: Vec<Piece> = Vec::with_capacity(7);
        list.push(Piece { label: "write header magic", bytes: magic_bytes() });
        list.push(Piece { label: "write header ids", bytes: ids });
        list.push(Piece { label: "write kdf mem cost", bytes: le::u32_to_le(self.kdf_mem_cost) });
        list.push(Piece { label: "write kdf time cost", bytes: le::u32_to_le(self.kdf_time_cost) });
        list.push(
            Piece { label: "write kdf parallelism", bytes: le::u32_to_le(self.kdf_parallelism) },
        );
        list.push(Piece { label: "write chunk size", bytes: le::u32_to_le(self.chunk_plain) });
        list.push(Piece { label: "write salt", bytes: salt });
        assert(stream::pieces(list@) =~= self@.pieces());
        list
    }
}

/// The writes of a header put out exactly the header.
pub proof fn lemma_pieces_join(header: HeaderModel)
    ensures
        stream::joined(header.pieces()) == header.bytes(),
{
    reveal_with_fuel(stream::joined, 8);
    let list = header.pieces();
    assert(list.drop_last().drop_last().drop_last().drop_last().drop_last().drop_last().drop_last()
        =~= seq![]);
    assert(stream::joined(list) =~= header.bytes());
}

/// Writes a header behind what `out` holds.
pub fn write_header(out: &mut Vec<u8>, header: &FileHeader)
    ensures
        final(out)@ == old(out)@ + header@.bytes(),
{
    let list: Vec<Piece> = header.header_pieces();
    stream::append_pieces(out, &list);
    proof {
        lemma_pieces_join(header@);
    }
}

/// The `u32` at an offset of a byte string.
pub open spec fn u32_at(bytes: Seq<u8>, at: int) -> u32 {
    le::le_value(bytes.subrange(at, at + 4)) as u32
}

/// What reading a header off the front of `input` yields: the header, or the words of
/// the first thing that is wrong. `input` may go on behind the header.
pub open spec fn parsed_header(input: Seq<u8>) -> Result<HeaderModel, Seq<char>> {
    if input.len() < 4 {
        Err(stream::cut_short("read header magic"@))
    } else if input.subrange(0, 4) != magic() {
        Err("not an sld file (unsupported format version)"@)
    } else if input.len() < 7 {
        Err(stream::cut_short("read header ids"@))
    } else if input[4] != HEADER_VERSION {
        Err("unsupported sld header version"@)
    } else if input[5] != KDF_ARGON2ID {
        Err("unsupported KDF in sld header"@)
    } else if input[6] != CIPHER_CHACHA20POLY1305 {
        Err("unsupported cipher in sld header"@)
    } else if input.len() < 11 {
        Err(stream::cut_short("read kdf mem cost"@))
    } else if input.len() < 15 {
        Err(stream::cut_short("read kdf time cost"@))
    } else if input.len() < 19 {
        Err(stream::cut_short("read kdf parallelism"@))
    } else if input.len() < 23 {
        Err(stream::cut_short("read chunk size"@))
    } else {
        match policy::costs_refusal(u32_at(input, 7), u32_at(input, 11), u32_at(input, 15)) {
            Some(text) => Err(text + " in sld header"@),
            None => if u32_at(input, 19) != CHUNK_PLAIN {
                Err("unsupported chunk size in sld header"@)
            } else if input.len() < HEADER_LEN {
                Err(stream::cut_short("read salt"@))
            } else {
                Ok(
                    HeaderModel {
                        mem_cost: u32_at(input, 7),
                        time_cost: u32_at(input, 11),
                        parallelism: u32_at(input, 15),
                        chunk_plain: u32_at(input, 19),
                        salt: input.subrange(23, 39),
                    },
                )
            },
        }
    }
}

/// How far the reading of a header has come: the field to read next, and the fields
/// read so far that are still of use.
#[derive(Copy, Clone, Debug, PartialEq, Eq, Structural)]
pub enum HeaderState {
    Magic,
    Ids,
    MemCost,
    TimeCost { mem_cost: u32 },
    Parallelism { mem_cost: u32, time_cost: u32 },
    ChunkSize { mem_cost: u32, time_cost: u32, parallelism: u32 },
    Salt { mem_cost: u32, time_cost: u32, parallelism: u32, chunk_plain: u32 },
}

/// What comes of reading one field of a header.
#[derive(Debug)]
pub enum HeaderStep {
    /// Read the next field.
    More(HeaderState),
    /// The header is complete.
    Done(FileHeader),
    /// There is no header here.
    Failed(String),
}

/// The contents of a `HeaderStep`.
pub enum HeaderStepModel {
    More(HeaderState),
    Done(HeaderModel),
    Failed(Seq<char>),
}

impl View for HeaderStep {
    type V = HeaderStepModel;

    open spec fn view(&self) -> HeaderStepModel {
        match self {
            HeaderStep::More(state) => HeaderStepModel::More(*state),
            HeaderStep::Done(header) => HeaderStepModel::Done(header@),
            HeaderStep::Failed(text) => HeaderStepModel::Failed(text@),
        }
    }
}

impl HeaderState {
    /// Length of the field to read next.
    pub open spec fn width(self) -> nat {
        match self {
            HeaderState::Ids => 3,
            HeaderState::Salt { .. } => external::SALT_LEN as nat,
            _ => 4,
        }
    }

    /// What to call the read of the next field if it fails.
    pub open spec fn label(self) -> Seq<char> {
        match self {
            HeaderState::Magic => "read header magic"@,
            HeaderState::Ids => "read header ids"@,
            HeaderState::MemCost => "read kdf mem cost"@,
            HeaderState::TimeCost { .. } => "read kdf time cost"@,
            HeaderState::Parallelism { .. } => "read kdf parallelism"@,
            HeaderState::ChunkSize { .. } => "read chunk size"@,
            HeaderState::Salt { .. } => "read salt"@,
        }
    }

    /// What comes of the next field once its bytes are there.
    pub open spec fn accept(self, bytes: Seq<u8>) -> HeaderStepModel {
        match self {
            HeaderState::Magic => if bytes != magic() {
                HeaderStepModel::Failed("not an sld file (unsupported format version)"@)
            } else {
                HeaderStepModel::More(HeaderState::Ids)
            },
            HeaderState::Ids => if bytes[0] != HEADER_VERSION {
                HeaderStepModel::Failed("unsupported sld header version"@)
            } else if bytes[1] != KDF_ARGON2ID {
                HeaderStepModel::Failed("unsupported KDF in sld header"@)
            } else if bytes[2] != CIPHER_CHACHA20POLY1305 {
                HeaderStepModel::Failed("unsupported cipher in sld header"@)
            } else {
                HeaderStepModel::More(HeaderState::MemCost)
            },
            HeaderState::MemCost => HeaderStepModel::More(
                HeaderState::TimeCost { mem_cost: le::le_value(bytes) as u32 },
            ),
            HeaderState::TimeCost { mem_cost } => HeaderStepModel::More(
                HeaderState::Parallelism { mem_cost, time_cost: le::le_value(bytes) as u32 },
            ),
            HeaderState::Parallelism { mem_cost, time_cost } => HeaderStepModel::More(
                HeaderState::ChunkSize {
                    mem_cost,
                    time_cost,
                    parallelism: le::le_value(bytes) as u32,
                },
            ),
            HeaderState::ChunkSize { mem_cost, time_cost, parallelism } => match policy::costs_refusal(
                mem_cost,
                time_cost,
                parallelism,
            ) {
                Some(text) => HeaderStepModel::Failed(text + " in sld header"@),
                None => if le::le_value(bytes) as u32 != CHUNK_PLAIN {
                    HeaderStepModel::Failed("unsupported chunk size in sld header"@)
                } else {
                    HeaderStepModel::More(
                        HeaderState::Salt {
                            mem_cost,
                            time_cost,
                            parallelism,
                            chunk_plain: CHUNK_PLAIN as u32,
                        },
                    )
                },
            },
            HeaderState::Salt { mem_cost, time_cost, parallelism, chunk_plain } => HeaderStepModel::Done(
                HeaderModel { mem_cost, time_cost, parallelism, chunk_plain, salt: bytes },
            ),
        }
    }

    /// What comes of the read of the next field, however it went.
    pub open spec fn next(self, event: stream::ReadModel) -> HeaderStepModel {
        match event {
            stream::ReadModel::Bytes(bytes) => self.accept(bytes),
            stream::ReadModel::Ended(cause) => HeaderStepModel::Failed(
                stream::failure(self.label(), cause),
            ),
            stream::ReadModel::Failed(cause) => HeaderStepModel::Failed(
                stream::failure(self.label(), cause),
            ),
        }
    }

    /// Length of the field to read next.
    pub fn wanted(&self) -> (n: usize)
        ensures
            n == self.width(),
    {
        match self {
            HeaderState::Ids => 3,
            HeaderState::Salt { .. } => external::SALT_LEN,
            _ => 4,
        }
    }

    /// What to call the read of the next field if it fails.
    pub fn read_label(&self) -> (label: &'static str)
        ensures
            label@ == self.label(),
    {
        match self {
            HeaderState::Magic => "read header magic",
            HeaderState::Ids => "read header ids",
            HeaderState::MemCost => "read kdf mem cost",
            HeaderState::TimeCost { .. } => "read kdf time cost",
            HeaderState::Parallelism { .. } => "read kdf parallelism",
            HeaderState::ChunkSize { .. } => "read chunk size",
            HeaderState::Salt { .. } => "read salt",
        }
    }

    /// Takes the bytes of the next field.
    fn take_field(self, bytes: &Vec<u8>) -> (step: HeaderStep)
        requires
            bytes@.len() == self.width(),
        ensures
            step@ == self.accept(bytes@),
    {
        proof {
            le::law_le_bytes_of_value(bytes@);
            le::lemma_le_limits();
        }
        match self {
            HeaderState::Magic => {
                if bytes[0] == 0x53 && bytes[1] == 0x4c && bytes[2] == 0x44 && bytes[3] == 0x01 {
                    assert(bytes@ =~= magic());
                    HeaderStep::More(HeaderState::Ids)
                } else {
                    HeaderStep::Failed("not an sld file (unsupported format version)".to_string())
                }
            },
            HeaderState::Ids => {
                if bytes[0] != HEADER_VERSION {
                    HeaderStep::Failed("unsupported sld header version".to_string())
                } else if bytes[1] != KDF_ARGON2ID {
                    HeaderStep::Failed("unsupported KDF in sld header".to_string())
                } else if bytes[2] != CIPHER_CHACHA20POLY1305 {
                    HeaderStep::Failed("unsupported cipher in sld header".to_string())
                } else {
                    HeaderStep::More(HeaderState::MemCost)
                }
            },
            HeaderState::MemCost => {
                let mem_cost: u32 = le::from_le(bytes.as_slice()) as u32;
                HeaderStep::More(HeaderState::TimeCost { mem_cost })
            },
            HeaderState::TimeCost { mem_cost } => {
                let time_cost: u32 = le::from_le(bytes.as_slice()) as u32;
                HeaderStep::More(HeaderState::Parallelism { mem_cost, time_cost })
            },
            HeaderState::Parallelism { mem_cost, time_cost } => {
                let parallelism: u32 = le::from_le(bytes.as_slice()) as u32;
                HeaderStep::More(HeaderState::ChunkSize { mem_cost, time_cost, parallelism })
            },
            HeaderState::ChunkSize { mem_cost, time_cost, parallelism } => {
                let chunk_plain: u32 = le::from_le(bytes.as_slice()) as u32;
                match policy::validate_kdf_params(mem_cost, time_cost, parallelism) {
                    Err(e) => HeaderStep::Failed(e.concat(" in sld header")),
                    Ok(()) => if chunk_plain as usize != CHUNK_PLAIN {
                        HeaderStep::Failed("unsupported chunk size in sld header".to_string())
                    } else {
                        HeaderStep::More(
                            HeaderState::Salt { mem_cost, time_cost, parallelism, chunk_plain },
                        )
                    },
                }
            },
            HeaderState::Salt { mem_cost, time_cost, parallelism, chunk_plain } => {
                HeaderStep::Done(
                    FileHeader {
                        kdf_mem_cost: mem_cost,
                        kdf_time_cost: time_cost,
                        kdf_parallelism: parallelism,
                        chunk_plain,
                        salt: salt_array(bytes),
                    },
                )
            },
        }
    }

    /// Takes the outcome of the read of the next field.
    pub fn feed(self, event: &ReadEvent) -> (step: HeaderStep)
        requires
            event@.fills(self.width()),
        ensures
            step@ == self.next(event@),
    {
        match event {
            ReadEvent::Bytes(bytes) => self.take_field(bytes),
            ReadEvent::Ended(cause) => HeaderStep::Failed(
                stream::failure_text(self.read_label(), cause.as_str()),
            ),
            ReadEvent::Failed(cause) => HeaderStep::Failed(
                stream::failure_text(self.read_label(), cause.as_str()),
            ),
        }
    }
}

/// Sixteen bytes as an array.
fn salt_array(bytes: &Vec<u8>) -> (salt: [u8; external::SALT_LEN])
    requires
        bytes@.len() == external::SALT_LEN,
    ensures
        salt@ == bytes@,
{
    let mut salt: [u8; external::SALT_LEN] = [0u8; external::SALT_LEN];
    let mut i: usize = 0;
    while i < external::SALT_LEN
        invariant
            i <= external::SALT_LEN,
            bytes@.len() == external::SALT_LEN,
            forall|j: int| 0 <= j < i ==> salt@[j] == bytes@[j],
        decreases external::SALT_LEN - i,
    {
        salt[i] = bytes[i];
        i = i + 1;
    }
    assert(salt@ =~= bytes@);
    salt
}

/// Reads the header off the front of `input`.
pub fn read_header(input: &[u8]) -> (r: Result<FileHeader, String>)
    ensures
        r matches Ok(header) ==> parsed_header(input@) == Ok::<HeaderModel, Seq<char>>(header@),
        r matches Err(e) ==> parsed_header(input@) == Err::<HeaderModel, Seq<char>>(e@),
{
    let mut state: HeaderState = HeaderState::Magic;
    let mut at: usize = 0;
    loop
        invariant
            at <= input@.len(),
            reached(state, input@, at as int),
        decreases input@.len() - at,
    {
        let wanted: usize = state.wanted();
        let event: ReadEvent = stream::read_bytes(input, at, wanted);
        let step: HeaderStep = state.feed(&event);
        match step {
            HeaderStep::More(next) => {
                at = at + wanted;
                state = next;
            },
            HeaderStep::Done(header) => {
                return Ok(header);
            },
            HeaderStep::Failed(text) => {
                return Err(text);
            },
        }
    }
}

/// The reading of `input` stands at offset `at` in state `state`: all the fields
/// before are there and acceptable.
spec fn reached(state: HeaderState, input: Seq<u8>, at: int) -> bool {
    &&& at <= input.len()
    &&& at >= 4 ==> input.subrange(0, 4) == magic()
    &&& at >= 7 ==> input[4] == HEADER_VERSION && input[5] == KDF_ARGON2ID && input[6]
        == CIPHER_CHACHA20POLY1305
    &&& match state {
        HeaderState::Magic => at == 0,
        HeaderState::Ids => at == 4,
        HeaderState::MemCost => at == 7,
        HeaderState::TimeCost { mem_cost } => at == 11 && mem_cost == u32_at(input, 7),
        HeaderState::Parallelism { mem_cost, time_cost } => at == 15 && mem_cost == u32_at(input, 7)
            && time_cost == u32_at(input, 11),
        HeaderState::ChunkSize { mem_cost, time_cost, parallelism } => at == 19 && mem_cost
            == u32_at(input, 7) && time_cost == u32_at(input, 11) && parallelism == u32_at(
            input,
            15,
        ),
        HeaderState::Salt { mem_cost, time_cost, parallelism, chunk_plain } => at == 23 && mem_cost
            == u32_at(input, 7) && time_cost == u32_at(input, 11) && parallelism == u32_at(
            input,
            15,
        ) && chunk_plain == u32_at(input, 19) && chunk_plain == CHUNK_PLAIN
            && policy::costs_refusal(mem_cost, time_cost, parallelism) is None,
    }
}

/// What comes of reading a header off the front of `input` one field at a time, from
/// `state` on: each step is fed the read that it asks for.
pub open spec fn stepped_header(state: HeaderState, input: Seq<u8>) -> Result<
    HeaderModel,
    Seq<char>,
>
    decreases input.len(),
{
    match state.next(stream::read_at(input, 0, state.width())) {
        HeaderStepModel::More(next) => stepped_header(next, input.skip(state.width() as int)),
        HeaderStepModel::Done(header) => Ok(header),
        HeaderStepModel::Failed(text) => Err(text),
    }
}

/// Wherever the reading of `input` stands, the steps that are left lead to the same end.
proof fn lemma_steps_left(state: HeaderState, input: Seq<u8>, at: int)
    requires
        0 <= at <= input.len(),
        reached(state, input, at),
    ensures
        stepped_header(state, input.skip(at)) == parsed_header(input),
    decreases input.len() - at,
{
    let rest = input.skip(at);
    let width = state.width() as int;
    if width <= rest.len() {
        assert(rest.subrange(0, width) =~= input.subrange(at, at + width));
        if let HeaderStepModel::More(next) = state.next(stream::read_at(rest, 0, state.width())) {
            assert(rest.skip(width) =~= input.skip(at + width));
            lemma_steps_left(next, input, at + width);
        }
    }
}

/// Reading a header one field at a time comes to the same as reading it off a byte string.
pub proof fn law_header_steps_read_the_header(input: Seq<u8>)
    ensures
        stepped_header(HeaderState::Magic, input) == parsed_header(input),
{
    assert(input.skip(0) =~= input);
    lemma_steps_left(HeaderState::Magic, input, 0);
}

/// A header that can stand in a file takes up 39 bytes, 35 of them authenticated.
pub proof fn law_header_length(header: HeaderModel)
    requires
        header.valid(),
    ensures
        header.bytes().len() == HEADER_LEN,
        header.aad_prefix().len() == HEADER_LEN - 4,
{
    le::lemma_le_len(header.mem_cost as nat, 4);
    le::lemma_le_len(header.time_cost as nat, 4);
    le::lemma_le_len(header.parallelism as nat, 4);
    le::lemma_le_len(header.chunk_plain as nat, 4);
}

/// Where the fields of a header stand in its bytes.
proof fn lemma_fields(header: HeaderModel, rest: Seq<u8>)
    requires
        header.salt.len() == external::SALT_LEN,
    ensures
        ({
            let all = header.bytes() + rest;
            &&& all.len() == HEADER_LEN + rest.len()
            &&& all.subrange(0, 4) == magic()
            &&& all[4] == HEADER_VERSION
            &&& all[5] == KDF_ARGON2ID
            &&& all[6] == CIPHER_CHACHA20POLY1305
            &&& u32_at(all, 7) == header.mem_cost
            &&& u32_at(all, 11) == header.time_cost
            &&& u32_at(all, 15) == header.parallelism
            &&& u32_at(all, 19) == header.chunk_plain
            &&& all.subrange(23, 39) == header.salt
            &&& all.skip(39) == rest
        }),
{
    le::lemma_le_len(header.mem_cost as nat, 4);
    le::lemma_le_len(header.time_cost as nat, 4);
    le::lemma_le_len(header.parallelism as nat, 4);
    le::lemma_le_len(header.chunk_plain as nat, 4);
    le::lemma_le_limits();
    le::law_le_value_of_bytes(header.mem_cost as nat, 4);
    le::law_le_value_of_bytes(header.time_cost as nat, 4);
    le::law_le_value_of_bytes(header.parallelism as nat, 4);
    le::law_le_value_of_bytes(header.chunk_plain as nat, 4);
    let all = header.bytes() + rest;
    assert(all.subrange(0, 4) =~= magic());
    assert(all.subrange(7, 11) =~= le::le_bytes(header.mem_cost as nat, 4));
    assert(all.subrange(11, 15) =~= le::le_bytes(header.time_cost as nat, 4));
    assert(all.subrange(15, 19) =~= le::le_bytes(header.parallelism as nat, 4));
    assert(all.subrange(19, 23) =~= le::le_bytes(header.chunk_plain as nat, 4));
    assert(all.subrange(23, 39) =~= header.salt);
    assert(all.skip(39) =~= rest);
}

/// A header reads back as it was written, whatever follows it.
pub proof fn law_header_reads_back(header: HeaderModel, rest: Seq<u8>)
    requires
        header.valid(),
    ensures
        parsed_header(header.bytes() + rest) == Ok::<HeaderModel, Seq<char>>(header),
        (header.bytes() + rest).skip(HEADER_LEN as int) == rest,
{
    lemma_fields(header, rest);
}

/// A header that is read can stand in a file, and was written in the one way there is to
/// write it.
pub proof fn law_header_is_canonical(input: Seq<u8>)
    requires
        parsed_header(input) is Ok,
    ensures
        parsed_header(input)->Ok_0.valid(),
        input.len() >= HEADER_LEN,
        input.take(HEADER_LEN as int) == parsed_header(input)->Ok_0.bytes(),
{
    le::lemma_le_limits();
    le::law_le_bytes_of_value(input.subrange(7, 11));
    le::law_le_bytes_of_value(input.subrange(11, 15));
    le::law_le_bytes_of_value(input.subrange(15, 19));
    le::law_le_bytes_of_value(input.subrange(19, 23));
    let header = parsed_header(input)->Ok_0;
    assert(input.subrange(7, 11) == le::le_bytes(header.mem_cost as nat, 4));
    assert(input.subrange(0, 4)[0] == input[0]);
    let taken = input.take(HEADER_LEN as int);
    assert(taken =~= input.subrange(0, 4) + input.subrange(4, 7) + input.subrange(7, 11)
        + input.subrange(11, 15) + input.subrange(15, 19) + input.subrange(19, 23)
        + input.subrange(23, 39));
    assert(input.subrange(4, 7) =~= seq![HEADER_VERSION, KDF_ARGON2ID, CIPHER_CHACHA20POLY1305]);
    assert(taken =~= header.bytes());
}

/// The reading of a header depends on its 39 bytes alone.
pub proof fn law_header_ignores_what_follows(input: Seq<u8>, more: Seq<u8>)
    requires
        parsed_header(input) is Ok,
    ensures
        parsed_header(input + more) == parsed_header(input),
{
    law_header_is_canonical(input);
    let header = parsed_header(input)->Ok_0;
    let rest = input.skip(HEADER_LEN as int) + more;
    assert(input + more =~= header.bytes() + rest) by {
        assert(input =~= input.take(HEADER_LEN as int) + input.skip(HEADER_LEN as int));
    }
    law_header_reads_back(header, rest);
}

/// A file that ends before its header does is refused.
pub proof fn law_short_header_is_refused(input: Seq<u8>)
    requires
        input.len() < HEADER_LEN,
    ensures
        parsed_header(input) is Err,
{
}

/// What is authenticated tells headers apart: two headers with the same authenticated
/// bytes agree in every field.
pub proof fn law_aad_binds_the_header(a: HeaderModel, b: HeaderModel)
    requires
        a.salt.len() == external::SALT_LEN,
        b.salt.len() == external::SALT_LEN,
        a.aad_prefix() == b.aad_prefix(),
    ensures
        a == b,
{
    lemma_fields(a, seq![]);
    lemma_fields(b, seq![]);
    assert(a =~= b);
}

/// Where everything stands in a header of 39 bytes: `SLD` and a 1, three ones, the costs and
/// the chunk size as four-byte integers, the salt. All but the first four bytes are
/// authenticated.
pub proof fn law_header_layout(header: HeaderModel)
    requires
        header.salt.len() == 16,
    ensures
        header.bytes().len() == 39,
        header.bytes().take(7) == seq![0x53u8, 0x4cu8, 0x44u8, 1u8, 1u8, 1u8, 1u8],
        header.bytes().subrange(7, 11) == le::le_bytes(header.mem_cost as nat, 4),
        header.bytes().subrange(11, 15) == le::le_bytes(header.time_cost as nat, 4),
        header.bytes().subrange(15, 19) == le::le_bytes(header.parallelism as nat, 4),
        header.bytes().subrange(19, 23) == le::le_bytes(header.chunk_plain as nat, 4),
        header.bytes().subrange(23, 39) == header.salt,
        header.aad_prefix() == header.bytes().subrange(4, 39),
        magic() == seq![0x53u8, 0x4cu8, 0x44u8, 1u8],
{
    le::lemma_le_len(header.mem_cost as nat, 4);
    le::lemma_le_len(header.time_cost as nat, 4);
    le::lemma_le_len(header.parallelism as nat, 4);
    le::lemma_le_len(header.chunk_plain as nat, 4);
    let all = header.bytes();
    assert(all.take(7) =~= seq![0x53u8, 0x4cu8, 0x44u8, 1u8, 1u8, 1u8, 1u8]);
    assert(all.subrange(7, 11) =~= le::le_bytes(header.mem_cost as nat, 4));
    assert(all.subrange(11, 15) =~= le::le_bytes(header.time_cost as nat, 4));
    assert(all.subrange(15, 19) =~= le::le_bytes(header.parallelism as nat, 4));
    assert(all.subrange(19, 23) =~= le::le_bytes(header.chunk_plain as nat, 4));
    assert(all.subrange(23, 39) =~= header.salt);
    assert(header.aad_prefix() =~= all.subrange(4, 39));
}

/// The writes of a header: how many there are, what each is called, and what they put out
/// together.
pub proof fn law_header_writes(header: HeaderModel)
    ensures
        header.pieces().len() == 7,
        header.pieces()[0].0 == "write header magic"@,
        header.pieces()[1].0 == "write header ids"@,
        header.pieces()[2].0 == "write kdf mem cost"@,
        header.pieces()[3].0 == "write kdf time cost"@,
        header.pieces()[4].0 == "write kdf parallelism"@,
        header.pieces()[5].0 == "write chunk size"@,
        header.pieces()[6].0 == "write salt"@,
        header.pieces()[0].1.len() == 4,
        header.pieces()[1].1.len() == 3,
        header.pieces()[2].1.len() == 4,
        header.pieces()[3].1.len() == 4,
        header.pieces()[4].1.len() == 4,
        header.pieces()[5].1.len() == 4,
        stream::joined(header.pieces()) == header.bytes(),
{
    lemma_pieces_join(header);
    le::lemma_le_len(header.mem_cost as nat, 4);
    le::lemma_le_len(header.time_cost as nat, 4);
    le::lemma_le_len(header.parallelism as nat, 4);
    le::lemma_le_len(header.chunk_plain as nat, 4);
}

/// Which headers can stand in a file, and that the fields of a header are its contents.
pub proof fn law_valid_headers(header: FileHeader)
    ensures
        header@.mem_cost == header.kdf_mem_cost,
        header@.time_cost == header.kdf_time_cost,
        header@.parallelism == header.kdf_parallelism,
        header@.chunk_plain == header.chunk_plain,
        header@.salt == header.salt@,
        header@.valid() <==> 8_192 <= header.kdf_mem_cost <= 262_144 && 1 <= header.kdf_time_cost
            <= 10 && 1 <= header.kdf_parallelism <= 8 && header.chunk_plain == 262_144,
{
}

/// The key of a file is Argon2id of the whole passphrase, with the salt and the costs of its
/// header.
pub proof fn law_key_of_a_header(header: HeaderModel, passphrase: Seq<u8>)
    requires
        header.mem_cost >= 8,
        header.mem_cost >= 8 * header.parallelism,
        header.time_cost >= 1,
        1 <= header.parallelism <= 16_777_215,
    ensures
        passphrase.len() <= 0xffff_ffff ==> header.key(passphrase) == Ok::<Seq<u8>, Seq<char>>(
            external::argon2id_key(
                passphrase,
                header.salt,
                header.mem_cost,
                header.time_cost,
                header.parallelism,
            ),
        ),
        passphrase.len() > 0xffff_ffff ==> header.key(passphrase) == Err::<Seq<u8>, Seq<char>>(
            "password is too long"@,
        ),
{
}

/// A header is read if and only if its first seven bytes are the right ones, its costs are
/// within their bounds, its chunk size is 262144, and its 39 bytes are there. What is read
/// are the fields at their places.
pub proof fn law_which_headers_are_read(input: Seq<u8>)
    ensures
        parsed_header(input) is Ok <==> {
            let mem_cost = le::le_value(input.subrange(7, 11));
            let time_cost = le::le_value(input.subrange(11, 15));
            let parallelism = le::le_value(input.subrange(15, 19));
            &&& input.len() >= 39
            &&& input[0] == 0x53 && input[1] == 0x4c && input[2] == 0x44 && input[3] == 1
            &&& input[4] == 1 && input[5] == 1 && input[6] == 1
            &&& 8_192 <= mem_cost <= 262_144
            &&& 1 <= time_cost <= 10
            &&& 1 <= parallelism <= 8
            &&& le::le_value(input.subrange(19, 23)) == 262_144
        },
        parsed_header(input) matches Ok(header) ==> {
            &&& header.mem_cost == le::le_value(input.subrange(7, 11))
            &&& header.time_cost == le::le_value(input.subrange(11, 15))
            &&& header.parallelism == le::le_value(input.subrange(15, 19))
            &&& header.chunk_plain == 262_144
            &&& header.salt == input.subrange(23, 39)
        },
{
    le::lemma_le_limits();
    if input.len() >= 4 {
        let first = input.subrange(0, 4);
        if input[0] == 0x53 && input[1] == 0x4c && input[2] == 0x44 && input[3] == 1 {
            assert(first =~= magic());
        } else {
            assert(first[0] == input[0] && first[1] == input[1] && first[2] == input[2] && first[3]
                == input[3]);
        }
    }
    if input.len() >= 23 {
        le::law_le_bytes_of_value(input.subrange(7, 11));
        le::law_le_bytes_of_value(input.subrange(11, 15));
        le::law_le_bytes_of_value(input.subrange(15, 19));
        le::law_le_bytes_of_value(input.subrange(19, 23));
    }
}

/// What is said of a header that is not read: the first thing that is wrong, field by field.
pub proof fn law_header_faults(input: Seq<u8>)
    ensures
        input.len() < 4
            ==> parsed_header(input) == Err::<HeaderModel, Seq<char>>(
                "read header magic"@ + ": "@ + "failed to fill whole buffer"@,
            ),
        input.len() >= 4 && input.take(4) != seq![0x53u8, 0x4cu8, 0x44u8, 1u8]
            ==> parsed_header(input) == Err::<HeaderModel, Seq<char>>(
                "not an sld file (unsupported format version)"@,
            ),
        input.take(4) == seq![0x53u8, 0x4cu8, 0x44u8, 1u8] ==> {
            &&& 4 <= input.len() < 7
                ==> parsed_header(input) == Err::<HeaderModel, Seq<char>>(
                    "read header ids"@ + ": "@ + "failed to fill whole buffer"@,
                )
            &&& input.len() >= 7 && input[4] != 1
                ==> parsed_header(input) == Err::<HeaderModel, Seq<char>>(
                    "unsupported sld header version"@,
                )
            &&& input.len() >= 7 && input[4] == 1 && input[5] != 1
                ==> parsed_header(input) == Err::<HeaderModel, Seq<char>>(
                    "unsupported KDF in sld header"@,
                )
            &&& input.len() >= 7 && input[4] == 1 && input[5] == 1 && input[6] != 1
                ==> parsed_header(input) == Err::<HeaderModel, Seq<char>>(
                    "unsupported cipher in sld header"@,
                )
        },
        input.take(7) == seq![0x53u8, 0x4cu8, 0x44u8, 1u8, 1u8, 1u8, 1u8] ==> {
            let mem_cost = le::le_value(input.subrange(7, 11));
            let time_cost = le::le_value(input.subrange(11, 15));
            let parallelism = le::le_value(input.subrange(15, 19));
            let within = 8_192 <= mem_cost <= 262_144 && 1 <= time_cost <= 10 && 1 <= parallelism
                <= 8;
            &&& 7 <= input.len() < 11
                ==> parsed_header(input) == Err::<HeaderModel, Seq<char>>(
                    "read kdf mem cost"@ + ": "@ + "failed to fill whole buffer"@,
                )
            &&& 11 <= input.len() < 15
                ==> parsed_header(input) == Err::<HeaderModel, Seq<char>>(
                    "read kdf time cost"@ + ": "@ + "failed to fill whole buffer"@,
                )
            &&& 15 <= input.len() < 19
                ==> parsed_header(input) == Err::<HeaderModel, Seq<char>>(
                    "read kdf parallelism"@ + ": "@ + "failed to fill whole buffer"@,
                )
            &&& 19 <= input.len() < 23
                ==> parsed_header(input) == Err::<HeaderModel, Seq<char>>(
                    "read chunk size"@ + ": "@ + "failed to fill whole buffer"@,
                )
            &&& input.len() >= 23 && !(8_192 <= mem_cost <= 262_144)
                ==> parsed_header(input) == Err::<HeaderModel, Seq<char>>(
                    "invalid Argon2 memory cost: must be between 8192 and 262144 KiB"@ + " in sld header"@,
                )
            &&& input.len() >= 23 && 8_192 <= mem_cost <= 262_144 && !(1 <= time_cost <= 10)
                ==> parsed_header(input) == Err::<HeaderModel, Seq<char>>(
                    "invalid Argon2 time cost: must be between 1 and 10"@ + " in sld header"@,
                )
            &&& input.len() >= 23 && 8_192 <= mem_cost <= 262_144 && 1 <= time_cost <= 10 && !(1
                <= parallelism <= 8)
                    ==> parsed_header(input) == Err::<HeaderModel, Seq<char>>(
                        "invalid Argon2 parallelism: must be between 1 and 8"@ + " in sld header"@,
                    )
            &&& input.len() >= 23 && within && le::le_value(input.subrange(19, 23)) != 262_144
                ==> parsed_header(input) == Err::<HeaderModel, Seq<char>>(
                    "unsupported chunk size in sld header"@,
                )
            &&& 23 <= input.len() < 39 && within && le::le_value(input.subrange(19, 23)) == 262_144
               
                    ==> parsed_header(input) == Err::<HeaderModel, Seq<char>>(
                        "read salt"@ + ": "@ + "failed to fill whole buffer"@,
                    )
        },
{
    le::lemma_le_limits();
    if input.len() >= 4 {
        assert(input.take(4) =~= input.subrange(0, 4));
        assert(magic() =~= seq![0x53u8, 0x4cu8, 0x44u8, 1u8]);
    } else {
        assert(input.len() < 4);
    }
    if input.len() >= 7 && input.take(7) == seq![0x53u8, 0x4cu8, 0x44u8, 1u8, 1u8, 1u8, 1u8] {
        assert(input[4] == input.take(7)[4]);
        assert(input[5] == input.take(7)[5]);
        assert(input[6] == input.take(7)[6]);
        assert(input.take(4) =~= input.take(7).take(4));
        assert(input.take(4) =~= seq![0x53u8, 0x4cu8, 0x44u8, 1u8]);
    }
    if input.len() >= 23 {
        le::law_le_bytes_of_value(input.subrange(7, 11));
        le::law_le_bytes_of_value(input.subrange(11, 15));
        le::law_le_bytes_of_value(input.subrange(15, 19));
        le::law_le_bytes_of_value(input.subrange(19, 23));
    }
}

/// How long each field of a header is, and what is said when its read fails.
pub proof fn law_header_reads(
    mem_cost: u32,
    time_cost: u32,
    parallelism: u32,
    chunk_plain: u32,
    cause: Seq<char>,
)
    ensures
        field_reads(HeaderState::Magic, 4, "read header magic"@, cause),
        field_reads(HeaderState::Ids, 3, "read header ids"@, cause),
        field_reads(HeaderState::MemCost, 4, "read kdf mem cost"@, cause),
        field_reads(HeaderState::TimeCost { mem_cost }, 4, "read kdf time cost"@, cause),
        field_reads(
            HeaderState::Parallelism { mem_cost, time_cost },
            4,
            "read kdf parallelism"@,
            cause,
        ),
        field_reads(
            HeaderState::ChunkSize { mem_cost, time_cost, parallelism },
            4,
            "read chunk size"@,
            cause,
        ),
        field_reads(
            HeaderState::Salt { mem_cost, time_cost, parallelism, chunk_plain },
            16,
            "read salt"@,
            cause,
        ),
{
}

/// The next field has this length, and the failure of its read is reported by this name.
pub open spec fn field_reads(
    state: HeaderState,
    width: nat,
    label: Seq<char>,
    cause: Seq<char>,
) -> bool {
    &&& state.width() == width
    &&& state.label() == label
    &&& state.next(stream::ReadModel::Failed(cause)) == HeaderStepModel::Failed(
        label + ": "@ + cause,
    )
    &&& state.next(stream::ReadModel::Ended(cause)) == HeaderStepModel::Failed(
        label + ": "@ + cause,
    )
}

/// What the contracts call the contents of a step is what it holds.
pub proof fn law_header_steps_are_contents(state: HeaderState, header: FileHeader, text: String)
    ensures
        HeaderStep::More(state)@ == HeaderStepModel::More(state),
        HeaderStep::Done(header)@ == HeaderStepModel::Done(header@),
        HeaderStep::Failed(text)@ == HeaderStepModel::Failed(text@),
{
}

} // verus!
