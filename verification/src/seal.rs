//! Sealing files.
use vstd::prelude::*;
use vstd::slice::slice_subrange;

use crate::external;
use crate::header;
use crate::header::FileHeader;
use crate::laws;
use crate::le;
use crate::open;
use crate::policy;
use crate::policy::Argon2Level;
use crate::record;
use crate::stream;
use crate::stream::Piece;

verus! {

/// What follows once the record of a chunk has been put out.
#[derive(Debug)]
pub enum SealStep {
    /// Seal the next chunk.
    More,
    /// The final marker was the last record.
    Finished,
    /// Stop.
    Failed(String),
}

/// The contents of a `SealStep`.
#[verifier::ext_equal]
pub enum SealStepModel {
    More,
    Finished,
    Failed(Seq<char>),
}

impl View for SealStep {
    type V = SealStepModel;

    open spec fn view(&self) -> SealStepModel {
        match self {
            SealStep::More => SealStepModel::More,
            SealStep::Finished => SealStepModel::Finished,
            SealStep::Failed(text) => SealStepModel::Failed(text@),
        }
    }
}

/// The sealing of a file, one chunk at a time.
pub struct Sealer {
    key: [u8; external::KEY_LEN],
    aad_prefix: Vec<u8>,
    index: u64,
    finished: bool,
}

/// The contents of a `Sealer`.
#[verifier::ext_equal]
pub struct SealerModel {
    pub key: Seq<u8>,
    pub aad_prefix: Seq<u8>,
    /// The index of the next record.
    pub index: u64,
    /// The run is over: no record follows.
    pub finished: bool,
}

impl View for Sealer {
    type V = SealerModel;

    closed spec fn view(&self) -> SealerModel {
        SealerModel {
            key: self.key@,
            aad_prefix: self.aad_prefix@,
            index: self.index,
            finished: self.finished,
        }
    }
}

impl SealerModel {
    /// The record of the next chunk as a list of writes.
    pub open spec fn record(self, nonce: Seq<u8>, chunk: Seq<u8>) -> Seq<(Seq<char>, Seq<u8>)> {
        record::record_pieces(
            self.index as nat,
            nonce,
            chunk.len(),
            external::aead_seal(
                self.key,
                nonce,
                record::chunk_aad(self.aad_prefix, self.index as nat),
                chunk,
            ),
        )
    }

    /// What follows the record of the next chunk, and the state in which it does. The empty
    /// chunk makes the final marker and ends the run; any other uses up an index.
    pub open spec fn next(self, chunk: Seq<u8>) -> (SealerModel, SealStepModel) {
        if chunk.len() == 0 {
            (SealerModel { finished: true, ..self }, SealStepModel::Finished)
        } else if self.index == u64::MAX {
            (SealerModel { finished: true, ..self }, SealStepModel::Failed("too many chunks"@))
        } else {
            (SealerModel { index: (self.index + 1) as u64, ..self }, SealStepModel::More)
        }
    }
}

impl Sealer {
    /// Starts on the records behind `header`, with the key of the file at hand.
    pub fn new(key: [u8; external::KEY_LEN], header: &FileHeader) -> (sealer: Self)
        ensures
            sealer@ == (SealerModel {
                key: key@,
                aad_prefix: header@.aad_prefix(),
                index: 0,
                finished: false,
            }),
    {
        Sealer { key, aad_prefix: header.aad_prefix_bytes(), index: 0, finished: false }
    }

    /// Starts on the records behind `header`, deriving the key from the passphrase.
    pub fn begin(passphrase: &[u8], header: &FileHeader) -> (r: Result<Self, String>)
        requires
            external::argon2_can_run(header@.mem_cost, header@.parallelism),
        ensures
            r is Ok <==> external::argon2_refusal(
                header@.mem_cost,
                header@.time_cost,
                header@.parallelism,
            ) is None && passphrase@.len() <= 0xffff_ffff,
            r matches Ok(sealer) ==> sealer@.key == external::argon2id_key(
                passphrase@,
                header@.salt,
                header@.mem_cost,
                header@.time_cost,
                header@.parallelism,
            ),
            r matches Ok(sealer) ==> header@.key(passphrase@) == Ok::<Seq<u8>, Seq<char>>(
                sealer@.key,
            ) && sealer@ == (SealerModel {
                key: sealer@.key,
                aad_prefix: header@.aad_prefix(),
                index: 0,
                finished: false,
            }),
            r matches Err(e) ==> header@.key(passphrase@) == Err::<Seq<u8>, Seq<char>>(e@),
    {
        match policy::derive_key(
            passphrase,
            &header.salt,
            header.kdf_mem_cost,
            header.kdf_time_cost,
            header.kdf_parallelism,
        ) {
            Ok(mut key) => {
                let sealer: Sealer = Sealer::new(key, header);
                external::wipe_array(&mut key);
                Ok(sealer)
            },
            Err(e) => Err(e),
        }
    }

    /// Takes the next chunk: the writes of its record, and what follows once they are put
    /// out. The empty chunk makes the final marker and ends the run.
    pub fn feed(&mut self, nonce: &[u8; external::NONCE_LEN], chunk: &[u8]) -> (r: Result<
        (Vec<Piece>, SealStep),
        String,
    >)
        requires
            chunk@.len() <= header::CHUNK_PLAIN,
            !old(self)@.finished,
        ensures
            r matches Ok(fed) && stream::pieces(fed.0@) == old(self)@.record(nonce@, chunk@) && (
                final(self)@,
                fed.1@,
            ) == old(self)@.next(chunk@) && (fed.1 is Finished <==> chunk@.len() == 0),
            record::opens_again(
                old(self)@.key,
                old(self)@.aad_prefix,
                old(self)@.index as nat,
                nonce@,
                chunk@,
            ),
    {
        let aad: Vec<u8> = record::chunk_aad_bytes(&self.aad_prefix, self.index);
        let sealed: Vec<u8> = match external::chacha_seal(&self.key, nonce, aad.as_slice(), chunk) {
            Some(sealed) => sealed,
            None => {
                return if chunk.len() == 0 {
                    Err("encrypt final marker failed".to_string())
                } else {
                    Err("encrypt failed".to_string())
                };
            },
        };
        let list: Vec<Piece> = record::list_record(self.index, nonce, chunk.len() as u32, sealed);
        if chunk.len() == 0 {
            self.finished = true;
            return Ok((list, SealStep::Finished));
        }
        match self.index.checked_add(1) {
            Some(next) => {
                self.index = next;
                Ok((list, SealStep::More))
            },
            None => {
                self.finished = true;
                Ok((list, SealStep::Failed("too many chunks".to_string())))
            },
        }
    }

    /// Takes the next chunk under a nonce from the system's random source.
    pub fn feed_with_random_nonce(&mut self, chunk: &[u8]) -> (r: Result<
        (Vec<Piece>, SealStep),
        String,
    >)
        requires
            chunk@.len() <= header::CHUNK_PLAIN,
            !old(self)@.finished,
        ensures
            r matches Ok(fed) && (final(self)@, fed.1@) == old(self)@.next(chunk@) && (
            fed.1 is Finished <==> chunk@.len() == 0) && exists|nonce: Seq<u8>|
                {
                    &&& nonce.len() == external::NONCE_LEN
                    &&& stream::pieces(fed.0@) == #[trigger] old(self)@.record(nonce, chunk@)
                    &&& record::opens_again(
                        old(self)@.key,
                        old(self)@.aad_prefix,
                        old(self)@.index as nat,
                        nonce,
                        chunk@,
                    )
                },
    {
        let nonce: [u8; external::NONCE_LEN] = external::random_bytes();
        self.feed(&nonce, chunk)
    }

    /// Whether the run is over.
    pub fn is_finished(&self) -> (finished: bool)
        ensures
            finished == self@.finished,
    {
        self.finished
    }

    /// Ends the run and wipes the key.
    pub fn close(&mut self)
        ensures
            final(self)@ == (SealerModel {
                key: Seq::new(external::KEY_LEN as nat, |i: int| 0u8),
                finished: true,
                ..old(self)@
            }),
    {
        external::wipe_array(&mut self.key);
        self.finished = true;
    }
}

/// What comes of feeding a sealer one chunk after the other: the bytes that its writes put
/// out, and how the run stands afterwards.
#[verifier::ext_equal]
pub struct SealOutcome {
    pub written: Seq<u8>,
    pub end: SealStepModel,
}

/// What comes of sealing `reads` one at a time, from the state of `sealer` on: each read is
/// a chunk, sealed under the nonce in its place, until the run is over. What is read after
/// that is not sealed.
pub open spec fn stepped(
    sealer: SealerModel,
    reads: Seq<Seq<u8>>,
    nonces: Seq<Seq<u8>>,
) -> SealOutcome
    decreases reads.len(),
{
    if reads.len() == 0 {
        SealOutcome { written: seq![], end: SealStepModel::More }
    } else {
        let written = stream::joined(sealer.record(nonces[0], reads[0]));
        let (next, step) = sealer.next(reads[0]);
        match step {
            SealStepModel::More => {
                let later = stepped(next, reads.drop_first(), nonces.drop_first());
                SealOutcome { written: written + later.written, end: later.end }
            },
            _ => SealOutcome { written, end: step },
        }
    }
}

/// Sealing chunks one read at a time, and then the read that brings nothing, puts out the
/// records of these chunks and the final marker, and ends the run, whatever could be read
/// afterwards.
pub proof fn law_steps_seal_the_records(
    sealer: SealerModel,
    chunks: Seq<Seq<u8>>,
    more: Seq<Seq<u8>>,
    nonces: Seq<Seq<u8>>,
)
    requires
        record::proper_chunks(chunks),
        nonces.len() > chunks.len(),
        sealer.index + chunks.len() <= u64::MAX,
    ensures
        stepped(sealer, chunks.push(seq![]) + more, nonces) == (SealOutcome {
            written: record::sealed_records(
                sealer.key,
                sealer.aad_prefix,
                sealer.index as nat,
                chunks,
                nonces,
            ),
            end: SealStepModel::Finished,
        }),
    decreases chunks.len(),
{
    let reads = chunks.push(seq![]) + more;
    let chunk = reads[0];
    record::lemma_pieces_join(
        sealer.index as nat,
        nonces[0],
        chunk.len(),
        external::aead_seal(
            sealer.key,
            nonces[0],
            record::chunk_aad(sealer.aad_prefix, sealer.index as nat),
            chunk,
        ),
    );
    if chunks.len() > 0 {
        let next = sealer.next(chunk).0;
        assert(chunk == chunks[0]);
        assert(reads.drop_first() =~= chunks.drop_first().push(seq![]) + more);
        law_steps_seal_the_records(next, chunks.drop_first(), more, nonces.drop_first());
    }
}

/// The header of a new file.
pub open spec fn new_header(
    mem_cost: u32,
    time_cost: u32,
    parallelism: u32,
    salt: Seq<u8>,
) -> header::HeaderModel {
    header::HeaderModel {
        mem_cost,
        time_cost,
        parallelism,
        chunk_plain: header::CHUNK_PLAIN as u32,
        salt,
    }
}

/// Why a file cannot be sealed; `None` if it can. Of several reasons the first one
/// counts: the passphrase, the costs, the key derivation.
pub open spec fn seal_refusal(
    passphrase: Seq<u8>,
    mem_cost: u32,
    time_cost: u32,
    parallelism: u32,
    allow_weak: bool,
) -> Option<Seq<char>> {
    match policy::passphrase_refusal(passphrase, allow_weak) {
        Some(text) => Some(text),
        None => match policy::costs_refusal(mem_cost, time_cost, parallelism) {
            Some(text) => Some(text),
            None => if passphrase.len() > external::MAX_ARGON2_PASSWORD_LEN {
                Some("password is too long"@)
            } else {
                None
            },
        },
    }
}

/// Under a preset the passphrase alone decides whether a file can be sealed.
pub proof fn law_presets_never_refuse(passphrase: Seq<u8>, level: Argon2Level, allow_weak: bool)
    ensures
        seal_refusal(
            passphrase,
            policy::level_costs(level).0,
            policy::level_costs(level).1,
            policy::level_costs(level).2,
            allow_weak,
        ) is None <==> policy::passphrase_refusal(passphrase, allow_weak) is None
            && passphrase.len() <= external::MAX_ARGON2_PASSWORD_LEN,
{
}

/// Checks a passphrase and costs, and makes the header and the sealer of a new file
/// with the given salt.
pub fn prepare(
    passphrase: &[u8],
    kdf_mem_cost: u32,
    kdf_time_cost: u32,
    kdf_parallelism: u32,
    allow_weak_passphrase: bool,
    salt: [u8; external::SALT_LEN],
) -> (r: Result<(FileHeader, Sealer), String>)
    ensures
        r is Ok <==> 1 <= passphrase@.len() <= 0xffff_ffff && (allow_weak_passphrase
            || passphrase@.len() >= 12) && 8_192 <= kdf_mem_cost <= 262_144 && 1 <= kdf_time_cost
            <= 10 && 1 <= kdf_parallelism <= 8,
        r is Ok <==> seal_refusal(
            passphrase@,
            kdf_mem_cost,
            kdf_time_cost,
            kdf_parallelism,
            allow_weak_passphrase,
        ) is None,
        r matches Err(e) ==> seal_refusal(
            passphrase@,
            kdf_mem_cost,
            kdf_time_cost,
            kdf_parallelism,
            allow_weak_passphrase,
        ) == Some(e@),
        r matches Ok(made) ==> made.0@ == new_header(
            kdf_mem_cost,
            kdf_time_cost,
            kdf_parallelism,
            salt@,
        ) && made.0@.valid() && made.0@.key(passphrase@) == Ok::<Seq<u8>, Seq<char>>(made.1@.key)
            && made.1@.aad_prefix == made.0@.aad_prefix() && made.1@.index == 0 && !made.1@.finished,
{
    match policy::validate_passphrase(passphrase, allow_weak_passphrase) {
        Ok(()) => {},
        Err(e) => {
            return Err(e);
        },
    }
    let header: FileHeader = match FileHeader::from_kdf_params(
        kdf_mem_cost,
        kdf_time_cost,
        kdf_parallelism,
        salt,
    ) {
        Ok(header) => header,
        Err(e) => {
            return Err(e);
        },
    };
    match Sealer::begin(passphrase, &header) {
        Ok(sealer) => Ok((header, sealer)),
        Err(e) => Err(e),
    }
}

/// Checks a passphrase and costs, and makes the header and the sealer of a new file
/// with a salt from the system's random source.
pub fn prepare_with_random_salt(
    passphrase: &[u8],
    kdf_mem_cost: u32,
    kdf_time_cost: u32,
    kdf_parallelism: u32,
    allow_weak_passphrase: bool,
) -> (r: Result<(FileHeader, Sealer), String>)
    ensures
        r is Ok <==> 1 <= passphrase@.len() <= 0xffff_ffff && (allow_weak_passphrase
            || passphrase@.len() >= 12) && 8_192 <= kdf_mem_cost <= 262_144 && 1 <= kdf_time_cost
            <= 10 && 1 <= kdf_parallelism <= 8,
        r is Ok <==> seal_refusal(
            passphrase@,
            kdf_mem_cost,
            kdf_time_cost,
            kdf_parallelism,
            allow_weak_passphrase,
        ) is None,
        r matches Err(e) ==> seal_refusal(
            passphrase@,
            kdf_mem_cost,
            kdf_time_cost,
            kdf_parallelism,
            allow_weak_passphrase,
        ) == Some(e@),
        r matches Ok(made) ==> made.0@ == new_header(
            kdf_mem_cost,
            kdf_time_cost,
            kdf_parallelism,
            made.0@.salt,
        ) && made.0@.valid() && made.0@.key(passphrase@) == Ok::<Seq<u8>, Seq<char>>(made.1@.key)
            && made.1@.aad_prefix == made.0@.aad_prefix() && made.1@.index == 0 && !made.1@.finished,
{
    let mut salt: [u8; external::SALT_LEN] = external::random_bytes();
    let made: Result<(FileHeader, Sealer), String> = prepare(
        passphrase,
        kdf_mem_cost,
        kdf_time_cost,
        kdf_parallelism,
        allow_weak_passphrase,
        salt,
    );
    external::wipe_array(&mut salt);
    made
}

/// A byte string cut into chunks of full length, but for the last one.
pub open spec fn chunks_of(input: Seq<u8>) -> Seq<Seq<u8>>
    decreases input.len(),
{
    if input.len() == 0 {
        seq![]
    } else if input.len() <= header::CHUNK_PLAIN {
        seq![input]
    } else {
        seq![input.take(header::CHUNK_PLAIN as int)] + chunks_of(
            input.skip(header::CHUNK_PLAIN as int),
        )
    }
}

/// How many chunks a byte string of length `len` is cut into.
pub open spec fn chunk_total(len: nat) -> int {
    (len + header::CHUNK_PLAIN - 1) / header::CHUNK_PLAIN as int
}

/// A file: header, records, final marker.
pub open spec fn sealed_file(
    passphrase: Seq<u8>,
    header: header::HeaderModel,
    chunks: Seq<Seq<u8>>,
    nonces: Seq<Seq<u8>>,
) -> Seq<u8> {
    header.bytes() + record::sealed_records(
        header.key(passphrase)->Ok_0,
        header.aad_prefix(),
        0,
        chunks,
        nonces,
    )
}

/// The contents of a list of nonces.
pub open spec fn nonce_views(nonces: Seq<[u8; external::NONCE_LEN]>) -> Seq<Seq<u8>> {
    nonces.map_values(|nonce: [u8; external::NONCE_LEN]| nonce@)
}

/// The chunks of a byte string can stand in a file, make up the byte string, and are as
/// few as possible.
pub proof fn law_chunks_make_up_the_input(input: Seq<u8>)
    ensures
        record::proper_chunks(chunks_of(input)),
        chunks_of(input).flatten() == input,
        chunks_of(input).len() == chunk_total(input.len()),
    decreases input.len(),
{
    let chunks = chunks_of(input);
    if input.len() == 0 {
        assert(chunks.flatten() =~= input);
    } else if input.len() <= header::CHUNK_PLAIN {
        assert(chunks.drop_first() =~= seq![]);
        reveal_with_fuel(Seq::flatten, 2);
        assert(chunks.flatten() =~= input);
    } else {
        let first = input.take(header::CHUNK_PLAIN as int);
        let rest = input.skip(header::CHUNK_PLAIN as int);
        law_chunks_make_up_the_input(rest);
        assert(chunks.drop_first() =~= chunks_of(rest));
        assert(chunks.flatten() =~= first + rest);
        assert(first + rest =~= input);
        assert forall|i: int| 0 <= i < chunks.len() implies 0 < (#[trigger] chunks[i]).len()
            <= header::CHUNK_PLAIN by {
            if i > 0 {
                assert(chunks[i] == chunks_of(rest)[i - 1]);
            }
        }
    }
}

/// How many chunks a byte string of length `len` is cut into.
pub fn chunk_count(len: usize) -> (count: usize)
    ensures
        count == chunk_total(len as nat),
{
    if len % header::CHUNK_PLAIN == 0 {
        len / header::CHUNK_PLAIN
    } else {
        len / header::CHUNK_PLAIN + 1
    }
}

/// Seals the chunks of `input`, and then the final marker, behind what `out` holds.
fn seal_chunks(
    sealer: &mut Sealer,
    input: &[u8],
    nonces: &Vec<[u8; external::NONCE_LEN]>,
    out: &mut Vec<u8>,
) -> (r: Result<(), String>)
    requires
        old(sealer)@.index == 0,
        !old(sealer)@.finished,
        nonces@.len() == chunks_of(input@).len() + 1,
    ensures
        r is Ok,
        final(sealer)@ == (SealerModel {
            index: chunks_of(input@).len() as u64,
            finished: true,
            ..old(sealer)@
        }),
        final(out)@ == old(out)@ + record::sealed_records(
            old(sealer)@.key,
            old(sealer)@.aad_prefix,
            0,
            chunks_of(input@),
            nonce_views(nonces@),
        ),
        record::all_open_again(
            old(sealer)@.key,
            old(sealer)@.aad_prefix,
            chunks_of(input@),
            nonce_views(nonces@),
        ),
{
    let ghost key = sealer@.key;
    let ghost prefix = sealer@.aad_prefix;
    let ghost all = chunks_of(input@);
    let ghost views = nonce_views(nonces@);
    let ghost whole = old(out)@ + record::sealed_records(key, prefix, 0, all, views);
    let total: usize = input.len();
    let mut at: usize = 0;
    let mut k: usize = 0;
    proof {
        law_chunks_make_up_the_input(input@);
        assert(input@.skip(0) =~= input@);
        assert(all.skip(0) =~= all);
        assert(views.skip(0) =~= views);
    }
    while at < total
        invariant
            at <= total,
            total == input@.len(),
            k <= all.len() <= total,
            all == chunks_of(input@),
            chunks_of(input@.skip(at as int)) == all.skip(k as int),
            views == nonce_views(nonces@),
            nonces@.len() == all.len() + 1,
            sealer@.index == k,
            sealer@.key == key,
            sealer@.aad_prefix == prefix,
            !sealer@.finished,
            whole == out@ + record::sealed_records(
                key,
                prefix,
                k as nat,
                all.skip(k as int),
                views.skip(k as int),
            ),
            forall|i: int|
                0 <= i < k ==> record::opens_again(
                    key,
                    prefix,
                    i as nat,
                    #[trigger] views[i],
                    record::plain_at(all, i),
                ),
        decreases total - at,
    {
        let ghost rest = input@.skip(at as int);
        let left: usize = total - at;
        let n: usize = if left < header::CHUNK_PLAIN {
            left
        } else {
            header::CHUNK_PLAIN
        };
        let chunk: &[u8] = slice_subrange(input, at, at + n);
        proof {
            assert(chunk@ =~= rest.take(n as int));
            assert(rest.len() == left);
            if left <= header::CHUNK_PLAIN {
                assert(rest.take(n as int) =~= rest);
            }
            assert(all.skip(k as int)[0] == chunk@);
            assert(all[k as int] == chunk@);
            assert(views[k as int] == nonces@[k as int]@);
        }
        let fed: (Vec<Piece>, SealStep) = match sealer.feed(&nonces[k], chunk) {
            Ok(fed) => fed,
            Err(e) => {
                return Err(e);
            },
        };
        stream::append_pieces(out, &fed.0);
        match fed.1 {
            SealStep::Failed(e) => {
                return Err(e);
            },
            _ => {},
        }
        proof {
            let sealed = external::aead_seal(
                key,
                views[k as int],
                record::chunk_aad(prefix, k as nat),
                chunk@,
            );
            record::lemma_pieces_join(k as nat, views[k as int], chunk@.len(), sealed);
            assert(all.skip(k as int).drop_first() =~= all.skip(k + 1));
            assert(views.skip(k as int).drop_first() =~= views.skip(k + 1));
            assert(whole =~= out@ + record::sealed_records(
                key,
                prefix,
                (k + 1) as nat,
                all.skip(k + 1),
                views.skip(k + 1),
            ));
            assert(input@.skip(at + n) =~= rest.skip(n as int));
            assert(chunks_of(rest.skip(n as int)) =~= all.skip(k + 1));
        }
        at = at + n;
        k = k + 1;
    }
    proof {
        assert(all.skip(k as int).len() == 0);
        assert(views[k as int] == nonces@[k as int]@);
    }
    let empty: Vec<u8> = Vec::new();
    let fed: (Vec<Piece>, SealStep) = match sealer.feed(&nonces[k], empty.as_slice()) {
        Ok(fed) => fed,
        Err(e) => {
            return Err(e);
        },
    };
    stream::append_pieces(out, &fed.0);
    proof {
        let sealed = external::aead_seal(
            key,
            views[k as int],
            record::chunk_aad(prefix, k as nat),
            seq![],
        );
        assert(empty@ =~= seq![]);
        record::lemma_pieces_join(k as nat, views[k as int], 0, sealed);
        assert(out@ =~= whole);
    }
    Ok(())
}

/// Writes a whole file: the header, the records of the chunks of `input`, the final marker.
/// The key is wiped afterwards.
fn seal_prepared(
    header: &FileHeader,
    sealer: Sealer,
    input: &[u8],
    nonces: &Vec<[u8; external::NONCE_LEN]>,
) -> (r: Result<Vec<u8>, String>)
    requires
        sealer@.index == 0,
        !sealer@.finished,
        nonces@.len() == chunks_of(input@).len() + 1,
    ensures
        r matches Ok(file) && file@ == header@.bytes() + record::sealed_records(
            sealer@.key,
            sealer@.aad_prefix,
            0,
            chunks_of(input@),
            nonce_views(nonces@),
        ),
        record::all_open_again(
            sealer@.key,
            sealer@.aad_prefix,
            chunks_of(input@),
            nonce_views(nonces@),
        ),
{
    let mut sealer: Sealer = sealer;
    let mut out: Vec<u8> = Vec::new();
    header::write_header(&mut out, header);
    assert(out@ =~= header@.bytes());
    let result: Result<(), String> = seal_chunks(&mut sealer, input, nonces, &mut out);
    sealer.close();
    match result {
        Ok(()) => Ok(out),
        Err(e) => Err(e),
    }
}

/// Seals `input` into a file, with the given salt and nonces: one for each chunk, and one
/// for the final marker.
pub fn seal_file(
    input: &[u8],
    passphrase: &[u8],
    kdf_mem_cost: u32,
    kdf_time_cost: u32,
    kdf_parallelism: u32,
    allow_weak_passphrase: bool,
    salt: [u8; external::SALT_LEN],
    nonces: &Vec<[u8; external::NONCE_LEN]>,
) -> (r: Result<Vec<u8>, String>)
    requires
        nonces@.len() == chunk_total(input@.len()) + 1,
    ensures
        r is Ok <==> 1 <= passphrase@.len() <= 0xffff_ffff && (allow_weak_passphrase
            || passphrase@.len() >= 12) && 8_192 <= kdf_mem_cost <= 262_144 && 1 <= kdf_time_cost
            <= 10 && 1 <= kdf_parallelism <= 8,
        r is Ok <==> seal_refusal(
            passphrase@,
            kdf_mem_cost,
            kdf_time_cost,
            kdf_parallelism,
            allow_weak_passphrase,
        ) is None,
        r matches Err(e) ==> seal_refusal(
            passphrase@,
            kdf_mem_cost,
            kdf_time_cost,
            kdf_parallelism,
            allow_weak_passphrase,
        ) == Some(e@),
        r matches Ok(file) ==> file@ == sealed_file(
            passphrase@,
            new_header(kdf_mem_cost, kdf_time_cost, kdf_parallelism, salt@),
            chunks_of(input@),
            nonce_views(nonces@),
        ),
        r is Ok ==> record::all_open_again(
            new_header(kdf_mem_cost, kdf_time_cost, kdf_parallelism, salt@).key(passphrase@)->Ok_0,
            new_header(kdf_mem_cost, kdf_time_cost, kdf_parallelism, salt@).aad_prefix(),
            chunks_of(input@),
            nonce_views(nonces@),
        ),
        r matches Ok(file) ==> file@.len() == file_length(input@.len()),
        r matches Ok(file) ==> open::opened_file(passphrase@, allow_weak_passphrase, file@)
            == Ok::<Seq<u8>, Seq<char>>(input@),
{
    proof {
        law_chunks_make_up_the_input(input@);
    }
    let made: (FileHeader, Sealer) = match prepare(
        passphrase,
        kdf_mem_cost,
        kdf_time_cost,
        kdf_parallelism,
        allow_weak_passphrase,
        salt,
    ) {
        Ok(made) => made,
        Err(e) => {
            return Err(e);
        },
    };
    let result: Result<Vec<u8>, String> = seal_prepared(&made.0, made.1, input, nonces);
    proof {
        let total: usize = input.len();
        assert(chunks_of(input@).len() <= total);
        laws::law_sealed_file_opens(
            passphrase@,
            allow_weak_passphrase,
            made.0@,
            chunks_of(input@),
            nonce_views(nonces@),
        );
        laws::law_file_length(passphrase@, made.0@, chunks_of(input@), nonce_views(nonces@));
    }
    result
}

/// `file` seals `input` with a passphrase under some costs, a salt and nonces, and the
/// cipher opens every one of its records again.
pub open spec fn is_sealing(
    file: Seq<u8>,
    input: Seq<u8>,
    passphrase: Seq<u8>,
    costs: (u32, u32, u32),
    salt: Seq<u8>,
    nonces: Seq<Seq<u8>>,
) -> bool {
    &&& salt.len() == external::SALT_LEN
    &&& record::proper_nonces(nonces, chunks_of(input).len())
    &&& file == sealed_file(
        passphrase,
        new_header(costs.0, costs.1, costs.2, salt),
        chunks_of(input),
        nonces,
    )
    &&& record::all_open_again(
        new_header(costs.0, costs.1, costs.2, salt).key(passphrase)->Ok_0,
        new_header(costs.0, costs.1, costs.2, salt).aad_prefix(),
        chunks_of(input),
        nonces,
    )
}

/// How long a file is that seals `len` bytes: a header of 39 bytes, and 40 bytes more than
/// its plaintext for each chunk and for the final marker.
pub open spec fn file_length(len: nat) -> int {
    len + header::HEADER_LEN + 40 * (chunk_total(len) + 1)
}

/// `count` nonces from the system's random source.
fn random_nonces(count: usize) -> (nonces: Vec<[u8; external::NONCE_LEN]>)
    ensures
        nonces@.len() == count,
{
    let mut nonces: Vec<[u8; external::NONCE_LEN]> = Vec::new();
    let mut i: usize = 0;
    while i < count
        invariant
            i <= count,
            nonces@.len() == i,
        decreases count - i,
    {
        nonces.push(external::random_bytes());
        i = i + 1;
    }
    nonces
}

/// Seals `input` into a file under explicit costs, with a salt and nonces from the
/// system's random source. Whatever these are, the file opens to `input` again.
pub fn encrypt_file_with_kdf_params(
    input: &[u8],
    passphrase: &[u8],
    kdf_mem_cost: u32,
    kdf_time_cost: u32,
    kdf_parallelism: u32,
    allow_weak_passphrase: bool,
) -> (r: Result<Vec<u8>, String>)
    ensures
        r is Ok <==> 1 <= passphrase@.len() <= 0xffff_ffff && (allow_weak_passphrase
            || passphrase@.len() >= 12) && 8_192 <= kdf_mem_cost <= 262_144 && 1 <= kdf_time_cost
            <= 10 && 1 <= kdf_parallelism <= 8,
        r is Ok <==> seal_refusal(
            passphrase@,
            kdf_mem_cost,
            kdf_time_cost,
            kdf_parallelism,
            allow_weak_passphrase,
        ) is None,
        r matches Err(e) ==> seal_refusal(
            passphrase@,
            kdf_mem_cost,
            kdf_time_cost,
            kdf_parallelism,
            allow_weak_passphrase,
        ) == Some(e@),
        r matches Ok(file) ==> exists|salt: Seq<u8>, nonces: Seq<Seq<u8>>|
            is_sealing(
                file@,
                input@,
                passphrase@,
                (kdf_mem_cost, kdf_time_cost, kdf_parallelism),
                salt,
                nonces,
            ),
        r matches Ok(file) ==> (header::parsed_header(file@) matches Ok(header) && header.mem_cost
            == kdf_mem_cost && header.time_cost == kdf_time_cost && header.parallelism
            == kdf_parallelism),
        r matches Ok(file) ==> file@.len() == file_length(input@.len()),
        r matches Ok(file) ==> open::opened_file(passphrase@, allow_weak_passphrase, file@)
            == Ok::<Seq<u8>, Seq<char>>(input@),
{
    let made: (FileHeader, Sealer) = match prepare_with_random_salt(
        passphrase,
        kdf_mem_cost,
        kdf_time_cost,
        kdf_parallelism,
        allow_weak_passphrase,
    ) {
        Ok(made) => made,
        Err(e) => {
            return Err(e);
        },
    };
    let nonces: Vec<[u8; external::NONCE_LEN]> = random_nonces(chunk_count(input.len()) + 1);
    proof {
        law_chunks_make_up_the_input(input@);
    }
    let result: Result<Vec<u8>, String> = seal_prepared(&made.0, made.1, input, &nonces);
    proof {
        let total: usize = input.len();
        let views = nonce_views(nonces@);
        assert(chunks_of(input@).len() <= total);
        assert(is_sealing(
            result->Ok_0@,
            input@,
            passphrase@,
            (kdf_mem_cost, kdf_time_cost, kdf_parallelism),
            made.0@.salt,
            views,
        ));
        laws::law_sealed_file_opens(
            passphrase@,
            allow_weak_passphrase,
            made.0@,
            chunks_of(input@),
            views,
        );
        laws::law_file_length(passphrase@, made.0@, chunks_of(input@), views);
        header::law_header_reads_back(
            made.0@,
            record::sealed_records(
                made.1@.key,
                made.0@.aad_prefix(),
                0,
                chunks_of(input@),
                views,
            ),
        );
    }
    result
}

/// Seals `input` into a file under the costs of a preset.
pub fn encrypt_file_with_policy(
    input: &[u8],
    passphrase: &[u8],
    level: Argon2Level,
    allow_weak_passphrase: bool,
) -> (r: Result<Vec<u8>, String>)
    ensures
        r is Ok <==> 1 <= passphrase@.len() <= 0xffff_ffff && (allow_weak_passphrase
            || passphrase@.len() >= 12),
        r is Ok <==> seal_refusal(
            passphrase@,
            policy::level_costs(level).0,
            policy::level_costs(level).1,
            policy::level_costs(level).2,
            allow_weak_passphrase,
        ) is None,
        r matches Err(e) ==> seal_refusal(
            passphrase@,
            policy::level_costs(level).0,
            policy::level_costs(level).1,
            policy::level_costs(level).2,
            allow_weak_passphrase,
        ) == Some(e@),
        r matches Ok(file) ==> exists|salt: Seq<u8>, nonces: Seq<Seq<u8>>|
            is_sealing(file@, input@, passphrase@, policy::level_costs(level), salt, nonces),
        r matches Ok(file) ==> (header::parsed_header(file@) matches Ok(header) && (
            header.mem_cost,
            header.time_cost,
            header.parallelism,
        ) == policy::level_costs(level)),
        r matches Ok(file) ==> file@.len() == file_length(input@.len()),
        r matches Ok(file) ==> open::opened_file(passphrase@, allow_weak_passphrase, file@)
            == Ok::<Seq<u8>, Seq<char>>(input@),
{
    let (kdf_mem_cost, kdf_time_cost, kdf_parallelism): (u32, u32, u32) =
        policy::kdf_costs_for_level(level);
    encrypt_file_with_kdf_params(
        input,
        passphrase,
        kdf_mem_cost,
        kdf_time_cost,
        kdf_parallelism,
        allow_weak_passphrase,
    )
}

/// Seals `input` into a file under the costs of a preset and the default passphrase
/// policy.
pub fn encrypt_file(input: &[u8], passphrase: &[u8], level: Argon2Level) -> (r: Result<
    Vec<u8>,
    String,
>)
    ensures
        r is Ok <==> 12 <= passphrase@.len() <= 0xffff_ffff,
        r is Ok <==> seal_refusal(
            passphrase@,
            policy::level_costs(level).0,
            policy::level_costs(level).1,
            policy::level_costs(level).2,
            false,
        ) is None,
        r matches Err(e) ==> seal_refusal(
            passphrase@,
            policy::level_costs(level).0,
            policy::level_costs(level).1,
            policy::level_costs(level).2,
            false,
        ) == Some(e@),
        r matches Ok(file) ==> exists|salt: Seq<u8>, nonces: Seq<Seq<u8>>|
            is_sealing(file@, input@, passphrase@, policy::level_costs(level), salt, nonces),
        r matches Ok(file) ==> (header::parsed_header(file@) matches Ok(header) && (
            header.mem_cost,
            header.time_cost,
            header.parallelism,
        ) == policy::level_costs(level)),
        r matches Ok(file) ==> file@.len() == file_length(input@.len()),
        r matches Ok(file) ==> open::opened_file(passphrase@, false, file@) == Ok::<
            Seq<u8>,
            Seq<char>,
        >(input@),
{
    encrypt_file_with_policy(input, passphrase, level, false)
}

/// A file can be sealed if and only if the passphrase is not empty, has at least 12 bytes or
/// may be weak, is not longer than Argon2 takes, and each cost is within its bounds. The first
/// thing that is wrong is the one that is named.
pub proof fn law_what_can_be_sealed(
    passphrase: Seq<u8>,
    mem_cost: u32,
    time_cost: u32,
    parallelism: u32,
    allow_weak: bool,
)
    ensures
        seal_refusal(passphrase, mem_cost, time_cost, parallelism, allow_weak) is None <==> 1
            <= passphrase.len() <= 0xffff_ffff && (allow_weak || passphrase.len() >= 12) && 8_192
            <= mem_cost <= 262_144 && 1 <= time_cost <= 10 && 1 <= parallelism <= 8,
        policy::passphrase_refusal(passphrase, allow_weak) matches Some(text) ==> seal_refusal(
            passphrase,
            mem_cost,
            time_cost,
            parallelism,
            allow_weak,
        ) == Some(text),
        policy::passphrase_refusal(passphrase, allow_weak) is None ==> (policy::costs_refusal(
            mem_cost,
            time_cost,
            parallelism,
        ) matches Some(text) ==> seal_refusal(
            passphrase,
            mem_cost,
            time_cost,
            parallelism,
            allow_weak,
        ) == Some(text)),
        passphrase.len() > 0xffff_ffff && policy::costs_refusal(mem_cost, time_cost, parallelism)
            is None ==> seal_refusal(passphrase, mem_cost, time_cost, parallelism, allow_weak)
            == Some("password is too long"@),
{
}

/// What can be sealed can be opened: neither the passphrase nor the costs of a file that could
/// be sealed are refused when it is opened, and the other way round.
pub proof fn law_sealing_and_opening_agree(
    passphrase: Seq<u8>,
    header: header::HeaderModel,
    allow_weak: bool,
)
    requires
        header.salt.len() == 16,
        header.chunk_plain == 262_144,
    ensures
        seal_refusal(
            passphrase,
            header.mem_cost,
            header.time_cost,
            header.parallelism,
            allow_weak,
        ) is None <==> policy::passphrase_refusal(passphrase, allow_weak) is None && header.valid()
            && header.key(passphrase) is Ok,
{
}

/// The header of a new file records the costs and the salt that were asked for, and the chunk
/// size.
pub proof fn law_new_headers(mem_cost: u32, time_cost: u32, parallelism: u32, salt: Seq<u8>)
    ensures
        new_header(mem_cost, time_cost, parallelism, salt).mem_cost == mem_cost,
        new_header(mem_cost, time_cost, parallelism, salt).time_cost == time_cost,
        new_header(mem_cost, time_cost, parallelism, salt).parallelism == parallelism,
        new_header(mem_cost, time_cost, parallelism, salt).chunk_plain == 262_144,
        new_header(mem_cost, time_cost, parallelism, salt).salt == salt,
{
}

/// Chunk `i` of a byte string is what stands from byte 262144 `i` on, 262144 bytes of it or what
/// is left; there are as many chunks as it takes, and none for the empty string.
pub proof fn law_chunks_stand_where_they_stood(input: Seq<u8>, i: int)
    ensures
        262_144 * (chunks_of(input).len() - 1) < input.len() <= 262_144 * chunks_of(input).len()
            || (input.len() == 0 && chunks_of(input).len() == 0),
        chunk_total(input.len()) == chunks_of(input).len(),
        0 <= i < chunks_of(input).len() - 1 ==> chunks_of(input)[i] == input.subrange(
            262_144 * i,
            262_144 * i + 262_144,
        ),
        i == chunks_of(input).len() - 1 && i >= 0 ==> chunks_of(input)[i] == input.subrange(
            262_144 * i,
            input.len() as int,
        ),
    decreases input.len(),
{
    law_chunks_make_up_the_input(input);
    let chunks = chunks_of(input);
    if input.len() == 0 {
    } else if input.len() <= 262_144 {
        assert(input.subrange(0, input.len() as int) =~= input);
    } else {
        let rest = input.skip(262_144);
        law_chunks_stand_where_they_stood(rest, i - 1);
        if i == 0 {
            assert(input.take(262_144) =~= input.subrange(0, 262_144));
        } else if 0 < i < chunks.len() {
            assert(chunks[i] == chunks_of(rest)[i - 1]);
            if i < chunks.len() - 1 {
                assert(rest.subrange(262_144 * (i - 1), 262_144 * (i - 1) + 262_144)
                    =~= input.subrange(262_144 * i, 262_144 * i + 262_144));
            } else {
                assert(rest.subrange(262_144 * (i - 1), rest.len() as int) =~= input.subrange(
                    262_144 * i,
                    input.len() as int,
                ));
            }
        }
    }
}

/// A file is its header and, behind it, the records of its chunks and the marker, numbered from
/// 0, sealed under Argon2id of the whole passphrase with the salt and the costs of the header.
pub proof fn law_files_are_header_and_records(
    passphrase: Seq<u8>,
    header: header::HeaderModel,
    chunks: Seq<Seq<u8>>,
    nonces: Seq<Seq<u8>>,
)
    requires
        header.valid(),
        passphrase.len() <= 0xffff_ffff,
    ensures
        sealed_file(passphrase, header, chunks, nonces).take(39) == header.bytes(),
        sealed_file(passphrase, header, chunks, nonces).skip(39) == record::sealed_records(
            external::argon2id_key(
                passphrase,
                header.salt,
                header.mem_cost,
                header.time_cost,
                header.parallelism,
            ),
            header.bytes().subrange(4, 39),
            0,
            chunks,
            nonces,
        ),
{
    header::law_header_layout(header);
    let file = sealed_file(passphrase, header, chunks, nonces);
    let records = record::sealed_records(
        header.key(passphrase)->Ok_0,
        header.aad_prefix(),
        0,
        chunks,
        nonces,
    );
    assert(file.take(39) =~= header.bytes());
    assert(file.skip(39) =~= records);
}

/// What it means that a file seals an input: its header holds the costs that were asked for and
/// a salt of 16 bytes, its records seal the chunks of the input under nonces of 12 bytes, and
/// the cipher opens them again.
pub proof fn law_what_a_sealing_is(
    file: Seq<u8>,
    input: Seq<u8>,
    passphrase: Seq<u8>,
    costs: (u32, u32, u32),
    salt: Seq<u8>,
    nonces: Seq<Seq<u8>>,
)
    requires
        is_sealing(file, input, passphrase, costs, salt, nonces),
        passphrase.len() <= 0xffff_ffff,
        8_192 <= costs.0 <= 262_144,
        1 <= costs.1 <= 10,
        1 <= costs.2 <= 8,
    ensures
        salt.len() == 16,
        nonces.len() == chunks_of(input).len() + 1,
        forall|i: int| 0 <= i < nonces.len() ==> (#[trigger] nonces[i]).len() == 12,
        file.take(7) == seq![0x53u8, 0x4cu8, 0x44u8, 1u8, 1u8, 1u8, 1u8],
        le::le_value(file.subrange(7, 11)) == costs.0,
        le::le_value(file.subrange(11, 15)) == costs.1,
        le::le_value(file.subrange(15, 19)) == costs.2,
        le::le_value(file.subrange(19, 23)) == 262_144,
        file.subrange(23, 39) == salt,
        file.skip(39) == record::sealed_records(
            external::argon2id_key(passphrase, salt, costs.0, costs.1, costs.2),
            file.subrange(4, 39),
            0,
            chunks_of(input),
            nonces,
        ),
        record::all_open_again(
            external::argon2id_key(passphrase, salt, costs.0, costs.1, costs.2),
            file.subrange(4, 39),
            chunks_of(input),
            nonces,
        ),
        file.len() == input.len() + 39 + 40 * nonces.len(),
{
    let header = new_header(costs.0, costs.1, costs.2, salt);
    let chunks = chunks_of(input);
    header::law_header_layout(header);
    law_files_are_header_and_records(passphrase, header, chunks, nonces);
    law_chunks_make_up_the_input(input);
    laws::law_file_length(passphrase, header, chunks, nonces);
    let head = file.take(39);
    assert(head == header.bytes());
    assert(file.take(7) =~= head.take(7));
    assert(file.subrange(7, 11) =~= head.subrange(7, 11));
    assert(file.subrange(11, 15) =~= head.subrange(11, 15));
    assert(file.subrange(15, 19) =~= head.subrange(15, 19));
    assert(file.subrange(19, 23) =~= head.subrange(19, 23));
    assert(file.subrange(23, 39) =~= head.subrange(23, 39));
    assert(file.subrange(4, 39) =~= head.subrange(4, 39));
    le::lemma_le_limits();
    le::law_le_value_of_bytes(costs.0 as nat, 4);
    le::law_le_value_of_bytes(costs.1 as nat, 4);
    le::law_le_value_of_bytes(costs.2 as nat, 4);
    le::law_le_value_of_bytes(262_144, 4);
}

/// How long a file is: 39 bytes of header, and 40 bytes more than its plaintext for each started
/// 262144 bytes and for the marker.
pub proof fn law_file_lengths(len: nat)
    ensures
        file_length(len) == len + 39 + 40 * (chunk_total(len) + 1),
        len == 0 ==> chunk_total(len) == 0,
        262_144 * chunk_total(len) >= len,
        len > 0 ==> 262_144 * (chunk_total(len) - 1) < len,
{
}

/// What a sealer makes of a chunk: the record of the chunk under the sealer's index and key, and
/// then the next index, or, for the empty chunk, the end.
pub proof fn law_sealer_steps(sealer: SealerModel, nonce: Seq<u8>, chunk: Seq<u8>)
    ensures
        stream::joined(sealer.record(nonce, chunk)) == record::sealed_record(
            sealer.key,
            sealer.aad_prefix,
            sealer.index as nat,
            nonce,
            chunk,
        ),
        sealer.record(nonce, chunk) == record::record_pieces(
            sealer.index as nat,
            nonce,
            chunk.len(),
            external::aead_seal(
                sealer.key,
                nonce,
                sealer.aad_prefix + le::le_bytes(sealer.index as nat, 8),
                chunk,
            ),
        ),
        sealer.next(chunk).0.key == sealer.key,
        sealer.next(chunk).0.aad_prefix == sealer.aad_prefix,
        chunk.len() == 0 ==> sealer.next(chunk).1 == SealStepModel::Finished && sealer.next(
            chunk,
        ).0.finished && sealer.next(chunk).0.index == sealer.index,
        chunk.len() > 0 && sealer.index < u64::MAX ==> sealer.next(chunk).1 == SealStepModel::More
            && sealer.next(chunk).0.finished == sealer.finished && sealer.next(chunk).0.index
            == sealer.index + 1,
        chunk.len() > 0 && sealer.index == u64::MAX ==> sealer.next(chunk).1
            == SealStepModel::Failed("too many chunks"@) && sealer.next(chunk).0.finished,
{
    record::lemma_pieces_join(
        sealer.index as nat,
        nonce,
        chunk.len(),
        external::aead_seal(
            sealer.key,
            nonce,
            record::chunk_aad(sealer.aad_prefix, sealer.index as nat),
            chunk,
        ),
    );
}

/// What the contracts call the contents of steps and nonces is what they hold.
pub proof fn law_seal_steps_are_contents(text: String, nonces: Seq<[u8; external::NONCE_LEN]>)
    ensures
        SealStep::More@ == SealStepModel::More,
        SealStep::Finished@ == SealStepModel::Finished,
        SealStep::Failed(text)@ == SealStepModel::Failed(text@),
        nonce_views(nonces).len() == nonces.len(),
        forall|i: int| 0 <= i < nonces.len() ==> #[trigger] nonce_views(nonces)[i] == nonces[i]@,
{
}

} // verus!
