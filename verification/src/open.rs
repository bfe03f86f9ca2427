//! Opening sealed files.
use vstd::prelude::*;
use vstd::slice::slice_subrange;

use crate::external;
use crate::header;
use crate::header::FileHeader;
use crate::le;
use crate::policy;
use crate::record;
use crate::stream;
use crate::stream::ReadEvent;

verus! {

/// What becomes of a run of records: the plaintext that is put out, and the words of
/// the failure that ends it, if one does.
#[verifier::ext_equal]
pub struct Outcome {
    pub written: Seq<u8>,
    pub failure: Option<Seq<char>>,
}

/// A run that puts out nothing and fails.
pub open spec fn fails(text: Seq<char>) -> Outcome {
    Outcome { written: seq![], failure: Some(text) }
}

/// What is wrong with the bytes behind the final marker; `None` if there are none.
pub open spec fn marker_refusal(rest: Seq<u8>) -> Option<Seq<char>> {
    if rest.len() == 0 {
        None
    } else if rest.len() < 8 {
        Some(stream::cut_short("truncated chunk header"@))
    } else {
        Some("trailing data after final authentication marker"@)
    }
}

/// What opening the records `input` under `key` yields, where the first of them has to
/// bear the index `expected`. The plaintext of a chunk is put out as soon as the chunk
/// is authenticated.
pub open spec fn opened(
    key: Seq<u8>,
    aad_prefix: Seq<u8>,
    expected: nat,
    input: Seq<u8>,
) -> Outcome
    decreases input.len(),
{
    let plain_len: int = le::le_value(input.subrange(20, 24)) as int;
    if input.len() == 0 {
        fails("missing final authentication marker"@)
    } else if input.len() < 8 {
        fails(stream::cut_short("truncated chunk header"@))
    } else if le::le_value(input.subrange(0, 8)) != expected {
        fails("chunk out of order or corrupt header"@)
    } else if input.len() < 20 {
        fails(stream::cut_short("read nonce"@))
    } else if input.len() < 24 {
        fails(stream::cut_short("read plaintext length"@))
    } else if plain_len > header::CHUNK_PLAIN {
        fails("invalid chunk plaintext length (corrupt or tampered file)"@)
    } else if input.len() < 40 + plain_len {
        fails(stream::cut_short("read ciphertext"@))
    } else {
        match external::aead_open(
            key,
            input.subrange(8, 20),
            record::chunk_aad(aad_prefix, expected),
            input.subrange(24, 40 + plain_len),
        ) {
            None => fails("decrypt failed (wrong passphrase or corrupt data)"@),
            Some(plain) => if plain_len == 0 {
                Outcome {
                    written: seq![],
                    failure: marker_refusal(input.skip(40 + plain_len)),
                }
            } else if expected >= u64::MAX {
                Outcome { written: plain, failure: Some("too many chunks"@) }
            } else {
                let later = opened(key, aad_prefix, expected + 1, input.skip(40 + plain_len));
                Outcome { written: plain + later.written, failure: later.failure }
            },
        }
    }
}

/// What the next read of a run of records is for.
#[derive(Copy, Clone, Debug)]
pub enum OpenPhase {
    /// The first byte of a record, or the end of the input.
    IndexStart,
    /// The other bytes of the record's index.
    IndexRest { first: u8 },
    Nonce,
    Length { nonce: [u8; external::NONCE_LEN] },
    Ciphertext { nonce: [u8; external::NONCE_LEN], plain_len: u32 },
    /// No read: the plaintext of a chunk is being put out.
    Written,
    /// Behind the final marker: the end of the input, or a byte too many.
    EndStart,
    /// More of what stands behind the final marker.
    EndRest,
    /// No read: the run is over.
    Closed,
}

/// The contents of an `OpenPhase`.
#[verifier::ext_equal]
pub enum PhaseModel {
    IndexStart,
    IndexRest { first: u8 },
    Nonce,
    Length { nonce: Seq<u8> },
    Ciphertext { nonce: Seq<u8>, plain_len: u32 },
    Written,
    EndStart,
    EndRest,
    Closed,
}

impl View for OpenPhase {
    type V = PhaseModel;

    open spec fn view(&self) -> PhaseModel {
        match *self {
            OpenPhase::IndexStart => PhaseModel::IndexStart,
            OpenPhase::IndexRest { first } => PhaseModel::IndexRest { first },
            OpenPhase::Nonce => PhaseModel::Nonce,
            OpenPhase::Length { nonce } => PhaseModel::Length { nonce: nonce@ },
            OpenPhase::Ciphertext { nonce, plain_len } => PhaseModel::Ciphertext {
                nonce: nonce@,
                plain_len,
            },
            OpenPhase::Written => PhaseModel::Written,
            OpenPhase::EndStart => PhaseModel::EndStart,
            OpenPhase::EndRest => PhaseModel::EndRest,
            OpenPhase::Closed => PhaseModel::Closed,
        }
    }
}

impl PhaseModel {
    /// Length of the next read; 0 where none is due.
    pub open spec fn width(self) -> nat {
        match self {
            PhaseModel::IndexStart => 1,
            PhaseModel::IndexRest { .. } => 7,
            PhaseModel::Nonce => external::NONCE_LEN as nat,
            PhaseModel::Length { .. } => 4,
            PhaseModel::Ciphertext { plain_len, .. } => (plain_len + external::TAG_LEN) as nat,
            PhaseModel::Written => 0,
            PhaseModel::EndStart => 1,
            PhaseModel::EndRest => 7,
            PhaseModel::Closed => 0,
        }
    }

    /// What to call the next read if it fails.
    pub open spec fn label(self) -> Seq<char> {
        match self {
            PhaseModel::IndexStart => "read chunk index"@,
            PhaseModel::IndexRest { .. } => "truncated chunk header"@,
            PhaseModel::Nonce => "read nonce"@,
            PhaseModel::Length { .. } => "read plaintext length"@,
            PhaseModel::Ciphertext { .. } => "read ciphertext"@,
            PhaseModel::EndStart => "read chunk index"@,
            _ => "truncated chunk header"@,
        }
    }

    /// What the end of the input means for the next read, given the words that the
    /// input has for it; `None` if that all is well.
    pub open spec fn ended(self, cause: Seq<char>) -> Option<Seq<char>> {
        match self {
            PhaseModel::IndexStart => Some("missing final authentication marker"@),
            PhaseModel::EndStart => None,
            _ => Some(stream::failure(self.label(), cause)),
        }
    }
}

/// What the reader of the records has to do next.
#[derive(Debug)]
pub enum OpenStep {
    /// Read on.
    More,
    /// Put out this plaintext, then `advance`.
    Plain(Vec<u8>),
    /// All the records are there and authentic.
    Finished,
    /// Stop.
    Failed(String),
}

/// The contents of an `OpenStep`.
#[verifier::ext_equal]
pub enum OpenStepModel {
    More,
    Plain(Seq<u8>),
    Finished,
    Failed(Seq<char>),
}

impl View for OpenStep {
    type V = OpenStepModel;

    open spec fn view(&self) -> OpenStepModel {
        match self {
            OpenStep::More => OpenStepModel::More,
            OpenStep::Plain(plain) => OpenStepModel::Plain(plain@),
            OpenStep::Finished => OpenStepModel::Finished,
            OpenStep::Failed(text) => OpenStepModel::Failed(text@),
        }
    }
}

/// The opening of a run of records, one read at a time.
pub struct Opener {
    key: [u8; external::KEY_LEN],
    aad_prefix: Vec<u8>,
    expected: u64,
    phase: OpenPhase,
}

/// The contents of an `Opener`.
#[verifier::ext_equal]
pub struct OpenerModel {
    pub key: Seq<u8>,
    pub aad_prefix: Seq<u8>,
    pub expected: u64,
    pub phase: PhaseModel,
}

impl View for Opener {
    type V = OpenerModel;

    closed spec fn view(&self) -> OpenerModel {
        OpenerModel {
            key: self.key@,
            aad_prefix: self.aad_prefix@,
            expected: self.expected,
            phase: self.phase@,
        }
    }
}

impl OpenerModel {
    /// A chunk whose ciphertext is about to be read is no longer than chunks may be.
    pub open spec fn valid(self) -> bool {
        self.phase matches PhaseModel::Ciphertext { plain_len, .. } ==> plain_len
            <= header::CHUNK_PLAIN
    }

    /// The same run in another phase.
    pub open spec fn at(self, phase: PhaseModel) -> OpenerModel {
        OpenerModel { phase, ..self }
    }

    /// What comes of the cipher's answer to a record with `plain_len` bytes of plaintext.
    pub open spec fn answered(self, plain_len: u32, answer: Option<Seq<u8>>) -> (
        OpenerModel,
        OpenStepModel,
    ) {
        match answer {
            None => (
                self.at(PhaseModel::Closed),
                OpenStepModel::Failed("decrypt failed (wrong passphrase or corrupt data)"@),
            ),
            Some(plain) => if plain_len == 0 {
                (self.at(PhaseModel::EndStart), OpenStepModel::More)
            } else {
                (self.at(PhaseModel::Written), OpenStepModel::Plain(plain))
            },
        }
    }

    /// What comes of the next read once its bytes are there.
    pub open spec fn accept(self, bytes: Seq<u8>) -> (OpenerModel, OpenStepModel) {
        match self.phase {
            PhaseModel::IndexStart => (
                self.at(PhaseModel::IndexRest { first: bytes[0] }),
                OpenStepModel::More,
            ),
            PhaseModel::IndexRest { first } => if le::le_value(seq![first] + bytes)
                != self.expected {
                (self.at(PhaseModel::Closed), OpenStepModel::Failed("chunk out of order or corrupt header"@))
            } else {
                (self.at(PhaseModel::Nonce), OpenStepModel::More)
            },
            PhaseModel::Nonce => (
                self.at(PhaseModel::Length { nonce: bytes }),
                OpenStepModel::More,
            ),
            PhaseModel::Length { nonce } => if le::le_value(bytes) > header::CHUNK_PLAIN {
                (
                    self.at(PhaseModel::Closed),
                    OpenStepModel::Failed(
                        "invalid chunk plaintext length (corrupt or tampered file)"@,
                    ),
                )
            } else {
                (
                    self.at(
                        PhaseModel::Ciphertext { nonce, plain_len: le::le_value(bytes) as u32 },
                    ),
                    OpenStepModel::More,
                )
            },
            PhaseModel::Ciphertext { nonce, plain_len } => self.answered(
                plain_len,
                external::aead_open(
                    self.key,
                    nonce,
                    record::chunk_aad(self.aad_prefix, self.expected as nat),
                    bytes,
                ),
            ),
            PhaseModel::EndStart => (self.at(PhaseModel::EndRest), OpenStepModel::More),
            _ => (
                self.at(PhaseModel::Closed),
                OpenStepModel::Failed("trailing data after final authentication marker"@),
            ),
        }
    }

    /// What comes of the next read, however it went.
    pub open spec fn next(self, event: stream::ReadModel) -> (OpenerModel, OpenStepModel) {
        match event {
            stream::ReadModel::Bytes(bytes) => self.accept(bytes),
            stream::ReadModel::Ended(cause) => match self.phase.ended(cause) {
                Some(text) => (self.at(PhaseModel::Closed), OpenStepModel::Failed(text)),
                None => (self.at(PhaseModel::Closed), OpenStepModel::Finished),
            },
            stream::ReadModel::Failed(cause) => (
                self.at(PhaseModel::Closed),
                OpenStepModel::Failed(stream::failure(self.phase.label(), cause)),
            ),
        }
    }
}

impl Opener {
    /// Starts on the records behind `header`, with the key of the file at hand.
    pub fn new(key: [u8; external::KEY_LEN], header: &FileHeader) -> (opener: Self)
        ensures
            opener@ == (OpenerModel {
                key: key@,
                aad_prefix: header@.aad_prefix(),
                expected: 0,
                phase: PhaseModel::IndexStart,
            }),
    {
        Opener { key, aad_prefix: header.aad_prefix_bytes(), expected: 0, phase: OpenPhase::IndexStart }
    }

    /// Starts on the records behind `header`, deriving the key from the passphrase.
    pub fn begin(passphrase: &[u8], header: &FileHeader) -> (r: Result<Self, String>)
        requires
            external::argon2_can_run(header@.mem_cost, header@.parallelism),
        ensures
            r is Ok <==> external::argon2_refusal(
                header@.mem_cost,
                header@.time_cost,
                header@.parallelism,
            ) is None && passphrase@.len() <= 0xffff_ffff,
            r matches Ok(opener) ==> opener@.key == external::argon2id_key(
                passphrase@,
                header@.salt,
                header@.mem_cost,
                header@.time_cost,
                header@.parallelism,
            ),
            r matches Ok(opener) ==> header@.key(passphrase@) == Ok::<Seq<u8>, Seq<char>>(
                opener@.key,
            ) && opener@ == (OpenerModel {
                key: opener@.key,
                aad_prefix: header@.aad_prefix(),
                expected: 0,
                phase: PhaseModel::IndexStart,
            }),
            r matches Err(e) ==> header@.key(passphrase@) == Err::<Seq<u8>, Seq<char>>(e@),
    {
        match policy::derive_key(
            passphrase,
            &header.salt,
            header.kdf_mem_cost,
            header.kdf_time_cost,
            header.kdf_parallelism,
        ) {
            Ok(mut key) => {
                let opener: Opener = Opener::new(key, header);
                external::wipe_array(&mut key);
                Ok(opener)
            },
            Err(e) => Err(e),
        }
    }

    /// Length of the next read; 0 where none is due.
    pub fn wanted(&self) -> (n: usize)
        requires
            self@.valid(),
        ensures
            n == self@.phase.width(),
    {
        match self.phase {
            OpenPhase::IndexStart => 1,
            OpenPhase::IndexRest { .. } => 7,
            OpenPhase::Nonce => external::NONCE_LEN,
            OpenPhase::Length { .. } => 4,
            OpenPhase::Ciphertext { plain_len, .. } => plain_len as usize + external::TAG_LEN,
            OpenPhase::Written => 0,
            OpenPhase::EndStart => 1,
            OpenPhase::EndRest => 7,
            OpenPhase::Closed => 0,
        }
    }

    /// What to call the next read if it fails.
    fn read_label(&self) -> (label: &'static str)
        ensures
            label@ == self@.phase.label(),
    {
        match self.phase {
            OpenPhase::IndexStart => "read chunk index",
            OpenPhase::Nonce => "read nonce",
            OpenPhase::Length { .. } => "read plaintext length",
            OpenPhase::Ciphertext { .. } => "read ciphertext",
            OpenPhase::EndStart => "read chunk index",
            _ => "truncated chunk header",
        }
    }

    /// Ends the run with a failure.
    fn stop(&mut self, text: String) -> (step: OpenStep)
        ensures
            final(self)@ == old(self)@.at(PhaseModel::Closed),
            step@ == OpenStepModel::Failed(text@),
    {
        self.phase = OpenPhase::Closed;
        OpenStep::Failed(text)
    }

    /// Takes the cipher's answer to a record with `plain_len` bytes of plaintext.
    pub fn answer(&mut self, plain_len: u32, answer: Option<Vec<u8>>) -> (step: OpenStep)
        requires
            old(self)@.phase matches PhaseModel::Ciphertext { plain_len: due, .. } && due
                == plain_len,
        ensures
            (final(self)@, step@) == old(self)@.answered(
                plain_len,
                match answer {
                    Some(plain) => Some(plain@),
                    None => None,
                },
            ),
    {
        match answer {
            None => self.stop("decrypt failed (wrong passphrase or corrupt data)".to_string()),
            Some(plain) => {
                if plain_len == 0 {
                    let mut empty: Vec<u8> = plain;
                    external::wipe_vec(&mut empty);
                    self.phase = OpenPhase::EndStart;
                    OpenStep::More
                } else {
                    self.phase = OpenPhase::Written;
                    OpenStep::Plain(plain)
                }
            },
        }
    }

    /// Takes the bytes of the next read.
    fn take_bytes(&mut self, bytes: Vec<u8>) -> (step: OpenStep)
        requires
            old(self)@.valid(),
            old(self)@.phase.width() > 0,
            bytes@.len() == old(self)@.phase.width(),
        ensures
            (final(self)@, step@) == old(self)@.accept(bytes@),
    {
        match self.phase {
            OpenPhase::IndexStart => {
                self.phase = OpenPhase::IndexRest { first: bytes[0] };
                OpenStep::More
            },
            OpenPhase::IndexRest { first } => {
                let mut index: Vec<u8> = Vec::with_capacity(8);
                index.push(first);
                index.extend_from_slice(bytes.as_slice());
                assert(index@ =~= seq![first] + bytes@);
                if le::from_le(index.as_slice()) != self.expected {
                    self.stop("chunk out of order or corrupt header".to_string())
                } else {
                    self.phase = OpenPhase::Nonce;
                    OpenStep::More
                }
            },
            OpenPhase::Nonce => {
                self.phase = OpenPhase::Length { nonce: record::nonce_array(&bytes) };
                OpenStep::More
            },
            OpenPhase::Length { nonce } => {
                proof {
                    le::law_le_bytes_of_value(bytes@);
                    le::lemma_le_limits();
                }
                let plain_len: u32 = le::from_le(bytes.as_slice()) as u32;
                if plain_len as usize > header::CHUNK_PLAIN {
                    self.stop(
                        "invalid chunk plaintext length (corrupt or tampered file)".to_string(),
                    )
                } else {
                    self.phase = OpenPhase::Ciphertext { nonce, plain_len };
                    OpenStep::More
                }
            },
            OpenPhase::Ciphertext { nonce, plain_len } => {
                let aad: Vec<u8> = record::chunk_aad_bytes(&self.aad_prefix, self.expected);
                let mut sealed: Vec<u8> = bytes;
                let answer: Option<Vec<u8>> = external::chacha_open(
                    &self.key,
                    &nonce,
                    aad.as_slice(),
                    sealed.as_slice(),
                );
                external::wipe_vec(&mut sealed);
                self.answer(plain_len, answer)
            },
            OpenPhase::EndStart => {
                self.phase = OpenPhase::EndRest;
                OpenStep::More
            },
            _ => self.stop("trailing data after final authentication marker".to_string()),
        }
    }

    /// Takes the outcome of the next read.
    pub fn feed(&mut self, event: ReadEvent) -> (step: OpenStep)
        requires
            old(self)@.valid(),
            old(self)@.phase.width() > 0,
            event@.fills(old(self)@.phase.width()),
        ensures
            (final(self)@, step@) == old(self)@.next(event@),
            final(self)@.valid(),
    {
        match event {
            ReadEvent::Bytes(bytes) => self.take_bytes(bytes),
            ReadEvent::Ended(cause) => match self.phase {
                OpenPhase::IndexStart => self.stop(
                    "missing final authentication marker".to_string(),
                ),
                OpenPhase::EndStart => {
                    self.phase = OpenPhase::Closed;
                    OpenStep::Finished
                },
                _ => {
                    let text: String = stream::failure_text(self.read_label(), cause.as_str());
                    self.stop(text)
                },
            },
            ReadEvent::Failed(cause) => {
                let text: String = stream::failure_text(self.read_label(), cause.as_str());
                self.stop(text)
            },
        }
    }

    /// Goes on to the next record once the plaintext of a chunk has been put out.
    pub fn advance(&mut self) -> (r: Result<(), String>)
        requires
            old(self)@.phase == PhaseModel::Written,
        ensures
            old(self)@.expected < u64::MAX ==> r is Ok && final(self)@ == (OpenerModel {
                expected: (old(self)@.expected + 1) as u64,
                phase: PhaseModel::IndexStart,
                ..old(self)@
            }),
            old(self)@.expected == u64::MAX ==> (r matches Err(e) && e@ == "too many chunks"@)
                && final(self)@ == old(self)@.at(PhaseModel::Closed),
    {
        match self.expected.checked_add(1) {
            Some(next) => {
                self.expected = next;
                self.phase = OpenPhase::IndexStart;
                Ok(())
            },
            None => {
                self.phase = OpenPhase::Closed;
                Err("too many chunks".to_string())
            },
        }
    }

    /// Ends the run and wipes the key.
    pub fn close(&mut self)
        ensures
            final(self)@ == (OpenerModel {
                key: Seq::new(external::KEY_LEN as nat, |i: int| 0u8),
                phase: PhaseModel::Closed,
                ..old(self)@
            }),
    {
        external::wipe_array(&mut self.key);
        self.phase = OpenPhase::Closed;
    }
}

/// Within a record that begins where `input` begins, the reading stands `offset` bytes
/// in, and everything before is there and acceptable.
spec fn reached(opener: OpenerModel, input: Seq<u8>, offset: int) -> bool {
    &&& 0 <= offset <= input.len()
    &&& offset >= 8 ==> le::le_value(input.subrange(0, 8)) == opener.expected
    &&& match opener.phase {
        PhaseModel::IndexStart => offset == 0,
        PhaseModel::IndexRest { first } => offset == 1 && first == input[0],
        PhaseModel::Nonce => offset == 8,
        PhaseModel::Length { nonce } => offset == 20 && nonce == input.subrange(8, 20),
        PhaseModel::Ciphertext { nonce, plain_len } => offset == 24 && nonce == input.subrange(8, 20)
            && plain_len == le::le_value(input.subrange(20, 24)) && plain_len
            <= header::CHUNK_PLAIN,
        PhaseModel::EndStart => offset == 40 && marker_stands(opener, input),
        PhaseModel::EndRest => offset == 41 && marker_stands(opener, input),
        _ => false,
    }
}

/// `input` begins with an authentic final marker.
spec fn marker_stands(opener: OpenerModel, input: Seq<u8>) -> bool {
    &&& le::le_value(input.subrange(20, 24)) == 0
    &&& external::aead_open(
        opener.key,
        input.subrange(8, 20),
        record::chunk_aad(opener.aad_prefix, opener.expected as nat),
        input.subrange(24, 40),
    ) is Some
}

/// What comes of opening the records `input` one read at a time, from the state of `opener`
/// on: each step is fed the read that it asks for, and the plaintext of a chunk is put out
/// before the next record.
pub open spec fn stepped(opener: OpenerModel, input: Seq<u8>) -> Outcome
    decreases input.len(),
{
    let wanted = opener.phase.width();
    let (next, step) = opener.next(stream::read_at(input, 0, wanted));
    match step {
        OpenStepModel::More => stepped(next, input.skip(wanted as int)),
        OpenStepModel::Plain(plain) => if next.expected == u64::MAX {
            Outcome { written: plain, failure: Some("too many chunks"@) }
        } else {
            let later = stepped(
                OpenerModel {
                    expected: (next.expected + 1) as u64,
                    phase: PhaseModel::IndexStart,
                    ..next
                },
                input.skip(wanted as int),
            );
            Outcome { written: plain + later.written, failure: later.failure }
        },
        OpenStepModel::Finished => Outcome { written: seq![], failure: None },
        OpenStepModel::Failed(text) => fails(text),
    }
}

/// Wherever the reading of a record stands, the steps that are left lead to the same end.
proof fn lemma_steps_left(opener: OpenerModel, input: Seq<u8>, offset: int)
    requires
        reached(opener, input, offset),
    ensures
        stepped(opener, input.skip(offset)) == opened(
            opener.key,
            opener.aad_prefix,
            opener.expected as nat,
            input,
        ),
    decreases input.len() - offset,
{
    let rest = input.skip(offset);
    let wanted = opener.phase.width() as int;
    if wanted <= rest.len() {
        assert(rest.subrange(0, wanted) =~= input.subrange(offset, offset + wanted));
        assert(rest.skip(wanted) =~= input.skip(offset + wanted));
        if let PhaseModel::IndexRest { first } = opener.phase {
            assert(seq![first] + input.subrange(1, 8) =~= input.subrange(0, 8));
        }
        let (next, step) = opener.next(stream::read_at(rest, 0, opener.phase.width()));
        match step {
            OpenStepModel::More => {
                lemma_steps_left(next, input, offset + wanted);
            },
            OpenStepModel::Plain(_) => {
                if next.expected < u64::MAX {
                    let later = input.skip(offset + wanted);
                    assert(later.skip(0) =~= later);
                    lemma_steps_left(
                        OpenerModel {
                            expected: (next.expected + 1) as u64,
                            phase: PhaseModel::IndexStart,
                            ..next
                        },
                        later,
                        0,
                    );
                }
            },
            _ => {},
        }
    }
}

/// Opening records one read at a time comes to the same as opening them off a byte string:
/// the same plaintext is put out, and the same failure ends it.
pub proof fn law_steps_open_the_records(opener: OpenerModel, input: Seq<u8>)
    requires
        opener.phase == PhaseModel::IndexStart,
    ensures
        stepped(opener, input) == opened(
            opener.key,
            opener.aad_prefix,
            opener.expected as nat,
            input,
        ),
{
    assert(input.skip(0) =~= input);
    lemma_steps_left(opener, input, 0);
}

/// Opens the records `input`, the first of which has to bear the index that `opener`
/// expects, and writes their plaintext behind what `writer` holds.
fn run_records(opener: &mut Opener, input: &[u8], writer: &mut Vec<u8>) -> (r: Result<(), String>)
    requires
        old(opener)@.phase == PhaseModel::IndexStart,
    ensures
        final(writer)@ == old(writer)@ + opened(
            old(opener)@.key,
            old(opener)@.aad_prefix,
            old(opener)@.expected as nat,
            input@,
        ).written,
        r is Ok <==> opened(
            old(opener)@.key,
            old(opener)@.aad_prefix,
            old(opener)@.expected as nat,
            input@,
        ).failure is None,
        r matches Err(e) ==> opened(
            old(opener)@.key,
            old(opener)@.aad_prefix,
            old(opener)@.expected as nat,
            input@,
        ).failure == Some(e@),
        final(opener)@.key == old(opener)@.key,
        final(opener)@.aad_prefix == old(opener)@.aad_prefix,
        r is Ok ==> final(opener)@.phase == PhaseModel::Closed,
{
    let ghost key = opener@.key;
    let ghost prefix = opener@.aad_prefix;
    let ghost whole = opened(key, prefix, opener@.expected as nat, input@);
    let ghost mut base: int = 0;
    let total: usize = input.len();
    let mut at: usize = 0;
    assert(input@.skip(0) =~= input@);
    loop
        invariant
            0 <= base <= at <= total,
            total == input@.len(),
            key == old(opener)@.key,
            prefix == old(opener)@.aad_prefix,
            whole == opened(
                old(opener)@.key,
                old(opener)@.aad_prefix,
                old(opener)@.expected as nat,
                input@,
            ),
            opener@.valid(),
            opener@.key == key,
            opener@.aad_prefix == prefix,
            reached(opener@, input@.skip(base), at - base),
            whole.written == writer@.skip(old(writer)@.len() as int) + opened(
                key,
                prefix,
                opener@.expected as nat,
                input@.skip(base),
            ).written,
            whole.failure == opened(
                key,
                prefix,
                opener@.expected as nat,
                input@.skip(base),
            ).failure,
            old(writer)@.len() <= writer@.len(),
            writer@.take(old(writer)@.len() as int) == old(writer)@,
        decreases total - at,
    {
        let ghost rest = input@.skip(base);
        let wanted: usize = opener.wanted();
        let event: ReadEvent = stream::read_bytes(input, at, wanted);
        proof {
            if at + wanted <= input@.len() {
                assert(input@.subrange(at as int, at + wanted) =~= rest.subrange(
                    at - base,
                    at - base + wanted,
                ));
                if let PhaseModel::IndexRest { first } = opener@.phase {
                    assert(seq![first] + rest.subrange(1, 8) =~= rest.subrange(0, 8));
                }
            }
        }
        match opener.feed(event) {
            OpenStep::More => {
                at = at + wanted;
            },
            OpenStep::Plain(plain) => {
                let mut plain: Vec<u8> = plain;
                let ghost written = writer@;
                let ghost shown = plain@;
                writer.extend_from_slice(plain.as_slice());
                external::wipe_vec(&mut plain);
                at = at + wanted;
                proof {
                    assert(writer@ =~= written + shown);
                    assert(writer@.skip(old(writer)@.len() as int) =~= written.skip(
                        old(writer)@.len() as int,
                    ) + shown);
                    assert(writer@.take(old(writer)@.len() as int) =~= written.take(
                        old(writer)@.len() as int,
                    ));
                    assert(writer@ =~= old(writer)@ + writer@.skip(old(writer)@.len() as int));
                }
                match opener.advance() {
                    Ok(()) => {
                        proof {
                            assert(rest.skip(at - base) =~= input@.skip(at as int));
                            base = at as int;
                        }
                    },
                    Err(e) => {
                        return Err(e);
                    },
                }
            },
            OpenStep::Finished => {
                assert(writer@ =~= old(writer)@ + writer@.skip(old(writer)@.len() as int));
                return Ok(());
            },
            OpenStep::Failed(text) => {
                assert(writer@ =~= old(writer)@ + writer@.skip(old(writer)@.len() as int));
                return Err(text);
            },
        }
    }
}

/// Opens the records `input`, the first of which has to bear the index that `opener`
/// expects, and writes their plaintext behind what `writer` holds. The key is wiped
/// afterwards.
pub fn open_records(opener: Opener, input: &[u8], writer: &mut Vec<u8>) -> (r: Result<(), String>)
    requires
        opener@.phase == PhaseModel::IndexStart,
    ensures
        final(writer)@ == old(writer)@ + opened(
            opener@.key,
            opener@.aad_prefix,
            opener@.expected as nat,
            input@,
        ).written,
        r is Ok <==> opened(
            opener@.key,
            opener@.aad_prefix,
            opener@.expected as nat,
            input@,
        ).failure is None,
        r matches Err(e) ==> opened(
            opener@.key,
            opener@.aad_prefix,
            opener@.expected as nat,
            input@,
        ).failure == Some(e@),
{
    let mut opener: Opener = opener;
    let result: Result<(), String> = run_records(&mut opener, input, writer);
    opener.close();
    result
}

/// What opening the records behind a header with a passphrase yields.
pub open spec fn opened_stream(
    passphrase: Seq<u8>,
    header: header::HeaderModel,
    input: Seq<u8>,
) -> Outcome {
    match header.key(passphrase) {
        Ok(key) => opened(key, header.aad_prefix(), 0, input),
        Err(text) => fails(text),
    }
}

/// Opens the records `reader` that stand behind `header`, and writes their plaintext
/// behind what `writer` holds. What has been written when a later record fails stays.
pub fn decrypt_stream(
    reader: &[u8],
    writer: &mut Vec<u8>,
    passphrase: &[u8],
    header: &FileHeader,
) -> (r: Result<(), String>)
    requires
        external::argon2_can_run(header@.mem_cost, header@.parallelism),
    ensures
        final(writer)@ == old(writer)@ + opened_stream(passphrase@, header@, reader@).written,
        r is Ok <==> opened_stream(passphrase@, header@, reader@).failure is None,
        r matches Err(e) ==> opened_stream(passphrase@, header@, reader@).failure == Some(e@),
{
    match Opener::begin(passphrase, header) {
        Ok(opener) => open_records(opener, reader, writer),
        Err(e) => {
            assert(writer@ =~= old(writer)@ + seq![]);
            Err(e)
        },
    }
}

/// What opening a whole file yields: its plaintext, or the words of the first thing that
/// is wrong, looking at the passphrase, the header and the records in this order.
pub open spec fn opened_file(passphrase: Seq<u8>, allow_weak: bool, input: Seq<u8>) -> Result<
    Seq<u8>,
    Seq<char>,
> {
    match policy::passphrase_refusal(passphrase, allow_weak) {
        Some(text) => Err(text),
        None => match header::parsed_header(input) {
            Err(text) => Err(text),
            Ok(header) => {
                let outcome = opened_stream(
                    passphrase,
                    header,
                    input.skip(header::HEADER_LEN as int),
                );
                match outcome.failure {
                    Some(text) => Err(text),
                    None => Ok(outcome.written),
                }
            },
        },
    }
}

/// Opens a sealed file under the default passphrase policy.
pub fn decrypt_file(input: &[u8], passphrase: &[u8]) -> (r: Result<Vec<u8>, String>)
    ensures
        passphrase@.len() < 12 ==> r is Err,
        r matches Ok(plain) ==> opened_file(passphrase@, false, input@) == Ok::<
            Seq<u8>,
            Seq<char>,
        >(plain@),
        r matches Err(e) ==> opened_file(passphrase@, false, input@) == Err::<Seq<u8>, Seq<char>>(
            e@,
        ),
{
    decrypt_file_with_policy(input, passphrase, false)
}

/// Opens a sealed file. Nothing of its plaintext comes back unless all of it does.
pub fn decrypt_file_with_policy(
    input: &[u8],
    passphrase: &[u8],
    allow_weak_passphrase: bool,
) -> (r: Result<Vec<u8>, String>)
    ensures
        passphrase@.len() == 0 ==> r is Err,
        passphrase@.len() < 12 && !allow_weak_passphrase ==> r is Err,
        r matches Ok(plain) ==> opened_file(passphrase@, allow_weak_passphrase, input@) == Ok::<
            Seq<u8>,
            Seq<char>,
        >(plain@),
        r matches Err(e) ==> opened_file(passphrase@, allow_weak_passphrase, input@) == Err::<
            Seq<u8>,
            Seq<char>,
        >(e@),
{
    match policy::validate_passphrase(passphrase, allow_weak_passphrase) {
        Ok(()) => {},
        Err(e) => {
            return Err(e);
        },
    }
    let header: FileHeader = match header::read_header(input) {
        Ok(header) => header,
        Err(e) => {
            return Err(e);
        },
    };
    proof {
        header::law_header_is_canonical(input@);
    }
    let records: &[u8] = slice_subrange(input, header::HEADER_LEN, input.len());
    assert(records@ =~= input@.skip(header::HEADER_LEN as int));
    let mut plain: Vec<u8> = Vec::new();
    match decrypt_stream(records, &mut plain, passphrase, &header) {
        Ok(()) => {
            assert(plain@ =~= opened_stream(passphrase@, header@, records@).written);
            Ok(plain)
        },
        Err(e) => {
            external::wipe_vec(&mut plain);
            Err(e)
        },
    }
}

/// What is said of records whose first one is not opened: the first thing that is wrong with
/// it. Nothing is put out.
pub proof fn law_record_faults(
    key: Seq<u8>,
    aad_prefix: Seq<u8>,
    expected: u64,
    input: Seq<u8>,
)
    ensures
        input.len() == 0 ==> opened(key, aad_prefix, expected as nat, input) == (Outcome {
            written: Seq::empty(),
            failure: Some("missing final authentication marker"@),
        }),
        1 <= input.len() < 8 ==> opened(key, aad_prefix, expected as nat, input) == (Outcome {
            written: Seq::empty(),
            failure: Some("truncated chunk header"@ + ": "@ + "failed to fill whole buffer"@),
        }),
        input.len() >= 8 && le::le_value(input.take(8)) != expected
            ==> opened(key, aad_prefix, expected as nat, input) == (Outcome {
            written: Seq::empty(),
            failure: Some("chunk out of order or corrupt header"@),
        }),
        8 <= input.len() < 20 && le::le_value(input.take(8)) == expected
            ==> opened(key, aad_prefix, expected as nat, input) == (Outcome {
            written: Seq::empty(),
            failure: Some("read nonce"@ + ": "@ + "failed to fill whole buffer"@),
        }),
        20 <= input.len() < 24 && le::le_value(input.take(8)) == expected
            ==> opened(key, aad_prefix, expected as nat, input) == (Outcome {
            written: Seq::empty(),
            failure: Some("read plaintext length"@ + ": "@ + "failed to fill whole buffer"@),
        }),
        input.len() >= 24 && le::le_value(input.take(8)) == expected && le::le_value(
            input.subrange(20, 24),
        ) > 262_144 ==> opened(key, aad_prefix, expected as nat, input) == (Outcome {
            written: Seq::empty(),
            failure: Some("invalid chunk plaintext length (corrupt or tampered file)"@),
        }),
        24 <= input.len() < 40 + le::le_value(input.subrange(20, 24)) && le::le_value(input.take(8))
            == expected && le::le_value(input.subrange(20, 24)) <= 262_144
                ==> opened(key, aad_prefix, expected as nat, input) == (Outcome {
            written: Seq::empty(),
            failure: Some("read ciphertext"@ + ": "@ + "failed to fill whole buffer"@),
        }),
        input.len() >= 40 + le::le_value(input.subrange(20, 24)) && le::le_value(input.take(8))
            == expected && le::le_value(input.subrange(20, 24)) <= 262_144 && external::aead_open(
            key,
            input.subrange(8, 20),
            aad_prefix + le::le_bytes(expected as nat, 8),
            input.subrange(24, 40 + le::le_value(input.subrange(20, 24)) as int),
        ) is None ==> opened(key, aad_prefix, expected as nat, input) == (Outcome {
            written: Seq::empty(),
            failure: Some("decrypt failed (wrong passphrase or corrupt data)"@),
        }),
{
    if input.len() >= 8 {
        assert(input.take(8) =~= input.subrange(0, 8));
    }
}

/// What becomes of a record that the cipher opens under its nonce, with the header and the
/// expected index as associated data: its plaintext is put out and the next index is due, or,
/// if it has none, it is the final marker and nothing may follow.
pub proof fn law_record_opens(
    key: Seq<u8>,
    aad_prefix: Seq<u8>,
    expected: u64,
    nonce: Seq<u8>,
    plain_len: nat,
    sealed: Seq<u8>,
    rest: Seq<u8>,
)
    requires
        nonce.len() == 12,
        plain_len <= 262_144,
        sealed.len() == plain_len + 16,
        external::aead_open(key, nonce, aad_prefix + le::le_bytes(expected as nat, 8), sealed) is Some,
    ensures
        ({
            let input = le::le_bytes(expected as nat, 8) + nonce + le::le_bytes(plain_len, 4) + sealed
                + rest;
            let plain = external::aead_open(
                key,
                nonce,
                aad_prefix + le::le_bytes(expected as nat, 8),
                sealed,
            )->Some_0;
            let outcome = opened(key, aad_prefix, expected as nat, input);
            &&& plain_len == 0 ==> outcome.written == Seq::<u8>::empty() && (outcome.failure is None
                <==> rest.len() == 0)
            &&& plain_len == 0 && 1 <= rest.len() < 8 ==> outcome.failure == Some("truncated chunk header"@ + ": "@ + "failed to fill whole buffer"@)
            &&& plain_len == 0 && rest.len() >= 8 ==> outcome.failure == Some(
                "trailing data after final authentication marker"@,
            )
            &&& plain_len > 0 && expected < u64::MAX ==> {
                let later = opened(key, aad_prefix, (expected + 1) as nat, rest);
                outcome.written == plain + later.written && outcome.failure == later.failure
            }
            &&& plain_len > 0 && expected == u64::MAX ==> outcome.written == plain
                && outcome.failure == Some("too many chunks"@)
        }),
{
    le::lemma_le_limits();
    le::lemma_le_len(expected as nat, 8);
    le::lemma_le_len(plain_len, 4);
    le::law_le_value_of_bytes(expected as nat, 8);
    le::law_le_value_of_bytes(plain_len, 4);
    let input = le::le_bytes(expected as nat, 8) + nonce + le::le_bytes(plain_len, 4) + sealed
        + rest;
    assert(input.subrange(0, 8) =~= le::le_bytes(expected as nat, 8));
    assert(input.subrange(8, 20) =~= nonce);
    assert(input.subrange(20, 24) =~= le::le_bytes(plain_len, 4));
    assert(input.subrange(24, 40 + plain_len as int) =~= sealed);
    assert(input.skip(40 + plain_len as int) =~= rest);
}

/// A passphrase that the policy refuses opens nothing, whatever the file is.
pub proof fn law_refused_passphrases_open_nothing(
    passphrase: Seq<u8>,
    allow_weak: bool,
    file: Seq<u8>,
)
    ensures
        passphrase.len() == 0 ==> opened_file(passphrase, allow_weak, file) == Err::<
            Seq<u8>,
            Seq<char>,
        >("passphrase cannot be empty"@),
        1 <= passphrase.len() < 12 ==> opened_file(passphrase, false, file) == Err::<
            Seq<u8>,
            Seq<char>,
        >("passphrase too weak: need at least 12 bytes"@),
        policy::passphrase_refusal(passphrase, allow_weak) matches Some(text) ==> opened_file(
            passphrase,
            allow_weak,
            file,
        ) == Err::<Seq<u8>, Seq<char>>(text),
{
}

/// With a passphrase that the policy takes, the header decides first and then the records: they
/// are opened under Argon2id of the whole passphrase, with the salt and the costs at their
/// places in the file, and bytes 4 to 38 of the file are what every record authenticates. All
/// of their plaintext comes back, or the words of their failure.
pub proof fn law_file_is_opened_by_its_parts(passphrase: Seq<u8>, allow_weak: bool, file: Seq<u8>)
    requires
        1 <= passphrase.len() <= 0xffff_ffff,
        allow_weak || passphrase.len() >= 12,
    ensures
        header::parsed_header(file) matches Err(text) ==> opened_file(passphrase, allow_weak, file)
            == Err::<Seq<u8>, Seq<char>>(text),
        header::parsed_header(file) is Ok ==> {
            let key = external::argon2id_key(
                passphrase,
                file.subrange(23, 39),
                le::le_value(file.subrange(7, 11)) as u32,
                le::le_value(file.subrange(11, 15)) as u32,
                le::le_value(file.subrange(15, 19)) as u32,
            );
            let outcome = opened(key, file.subrange(4, 39), 0, file.skip(39));
            &&& outcome.failure is None ==> opened_file(passphrase, allow_weak, file) == Ok::<
                Seq<u8>,
                Seq<char>,
            >(outcome.written)
            &&& outcome.failure matches Some(text) ==> opened_file(passphrase, allow_weak, file)
                == Err::<Seq<u8>, Seq<char>>(text)
        },
{
    if header::parsed_header(file) is Ok {
        let header = header::parsed_header(file)->Ok_0;
        header::law_header_is_canonical(file);
        header::law_which_headers_are_read(file);
        header::law_header_layout(header);
        assert(file.subrange(4, 39) =~= header.bytes().subrange(4, 39)) by {
            assert(file.take(39) == header.bytes());
            assert(file.take(39).subrange(4, 39) =~= file.subrange(4, 39));
        }
    }
}

/// The records behind a header are opened under Argon2id of the whole passphrase, with the salt
/// and the costs of the header.
pub proof fn law_stream_is_opened_under_its_key(
    passphrase: Seq<u8>,
    header: header::HeaderModel,
    input: Seq<u8>,
)
    requires
        external::argon2_refusal(header.mem_cost, header.time_cost, header.parallelism) is None,
    ensures
        passphrase.len() <= 0xffff_ffff ==> opened_stream(passphrase, header, input) == opened(
            external::argon2id_key(
                passphrase,
                header.salt,
                header.mem_cost,
                header.time_cost,
                header.parallelism,
            ),
            header.aad_prefix(),
            0,
            input,
        ),
        passphrase.len() > 0xffff_ffff ==> opened_stream(passphrase, header, input) == (Outcome {
            written: Seq::empty(),
            failure: Some("password is too long"@),
        }),
{
}

/// In this phase a read of this length is due, and its failure is reported by this name.
pub open spec fn phase_reads(
    opener: OpenerModel,
    phase: PhaseModel,
    width: nat,
    label: Seq<char>,
    cause: Seq<char>,
) -> bool {
    let (next, step) = opener.at(phase).next(stream::ReadModel::Failed(cause));
    &&& phase.width() == width
    &&& step == OpenStepModel::Failed(label + ": "@ + cause)
    &&& next == OpenerModel {
        key: opener.key,
        aad_prefix: opener.aad_prefix,
        expected: opener.expected,
        phase: PhaseModel::Closed,
    }
}

/// How long each read of a record is, and what is said when it fails or ends.
pub proof fn law_record_reads(
    opener: OpenerModel,
    first: u8,
    nonce: Seq<u8>,
    plain_len: u32,
    cause: Seq<char>,
)
    ensures
        phase_reads(opener, PhaseModel::IndexStart, 1, "read chunk index"@, cause),
        phase_reads(opener, PhaseModel::IndexRest { first }, 7, "truncated chunk header"@, cause),
        phase_reads(opener, PhaseModel::Nonce, 12, "read nonce"@, cause),
        phase_reads(opener, PhaseModel::Length { nonce }, 4, "read plaintext length"@, cause),
        phase_reads(
            opener,
            PhaseModel::Ciphertext { nonce, plain_len },
            plain_len as nat + 16,
            "read ciphertext"@,
            cause,
        ),
        phase_reads(opener, PhaseModel::EndStart, 1, "read chunk index"@, cause),
        phase_reads(opener, PhaseModel::EndRest, 7, "truncated chunk header"@, cause),
        PhaseModel::Written.width() == 0,
        PhaseModel::Closed.width() == 0,
        opener.at(PhaseModel::IndexStart).next(stream::ReadModel::Ended(cause)).1
            == OpenStepModel::Failed("missing final authentication marker"@),
        opener.at(PhaseModel::EndStart).next(stream::ReadModel::Ended(cause)).1
            == OpenStepModel::Finished,
        opener.at(PhaseModel::IndexRest { first }).next(stream::ReadModel::Ended(cause)).1
            == OpenStepModel::Failed("truncated chunk header"@ + ": "@ + cause),
        opener.at(PhaseModel::Nonce).next(stream::ReadModel::Ended(cause)).1
            == OpenStepModel::Failed("read nonce"@ + ": "@ + cause),
        opener.at(PhaseModel::Length { nonce }).next(stream::ReadModel::Ended(cause)).1
            == OpenStepModel::Failed("read plaintext length"@ + ": "@ + cause),
        opener.at(PhaseModel::Ciphertext { nonce, plain_len }).next(
            stream::ReadModel::Ended(cause),
        ).1 == OpenStepModel::Failed("read ciphertext"@ + ": "@ + cause),
        opener.at(PhaseModel::EndRest).next(stream::ReadModel::Ended(cause)).1
            == OpenStepModel::Failed("truncated chunk header"@ + ": "@ + cause),
{
}

/// What the cipher's answer leads to, whatever it is: nothing of a record that it refuses is
/// put out, all of the plaintext of a chunk is, and behind the marker the end is due.
pub proof fn law_answers_decide(opener: OpenerModel, plain_len: u32, plain: Seq<u8>)
    ensures
        opener.answered(plain_len, None).1 == OpenStepModel::Failed(
            "decrypt failed (wrong passphrase or corrupt data)"@,
        ),
        opener.answered(plain_len, None).0.phase == PhaseModel::Closed,
        plain_len > 0 ==> opener.answered(plain_len, Some(plain)).1 == OpenStepModel::Plain(plain)
            && opener.answered(plain_len, Some(plain)).0.phase == PhaseModel::Written,
        opener.answered(0, Some(plain)).1 == OpenStepModel::More,
        opener.answered(0, Some(plain)).0.phase == PhaseModel::EndStart,
        opener.answered(plain_len, Some(plain)).0.key == opener.key,
        opener.answered(plain_len, Some(plain)).0.aad_prefix == opener.aad_prefix,
        opener.answered(plain_len, Some(plain)).0.expected == opener.expected,
{
}

/// What the contracts call the contents of steps and phases is what they hold, and which states
/// of a run are possible.
pub proof fn law_open_steps_are_contents(
    plain: Vec<u8>,
    text: String,
    nonce: [u8; external::NONCE_LEN],
    plain_len: u32,
    opener: OpenerModel,
)
    ensures
        OpenStep::More@ == OpenStepModel::More,
        OpenStep::Plain(plain)@ == OpenStepModel::Plain(plain@),
        OpenStep::Finished@ == OpenStepModel::Finished,
        OpenStep::Failed(text)@ == OpenStepModel::Failed(text@),
        (OpenPhase::Length { nonce })@ == (PhaseModel::Length { nonce: nonce@ }),
        (OpenPhase::Ciphertext { nonce, plain_len })@ == (PhaseModel::Ciphertext {
            nonce: nonce@,
            plain_len,
        }),
        opener.valid() <==> (opener.phase matches PhaseModel::Ciphertext { plain_len: due, .. } ==> due
            <= 262_144),
{
}

} // verus!
