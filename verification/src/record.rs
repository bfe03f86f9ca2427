//! The records that follow the header: one per chunk of plaintext, and a final
//! marker.
use vstd::prelude::*;

use crate::external;
use crate::header;
use crate::le;
use crate::stream;
use crate::stream::Piece;

verus! {

/// What a record authenticates besides its plaintext: the header and its own index.
pub open spec fn chunk_aad(aad_prefix: Seq<u8>, index: nat) -> Seq<u8> {
    aad_prefix + le::le_bytes(index, 8)
}

/// What a record authenticates besides its plaintext: the header and its own index.
pub fn chunk_aad_bytes(aad_prefix: &Vec<u8>, index: u64) -> (aad: Vec<u8>)
    ensures
        aad@ == chunk_aad(aad_prefix@, index as nat),
{
    let mut aad: Vec<u8> = Vec::new();
    aad.extend_from_slice(aad_prefix.as_slice());
    aad.extend_from_slice(le::u64_to_le(index).as_slice());
    assert(aad@ =~= chunk_aad(aad_prefix@, index as nat));
    aad
}

/// Twelve bytes as an array.
pub fn nonce_array(bytes: &Vec<u8>) -> (nonce: [u8; external::NONCE_LEN])
    requires
        bytes@.len() == external::NONCE_LEN,
    ensures
        nonce@ == bytes@,
{
    let mut nonce: [u8; external::NONCE_LEN] = [0u8; external::NONCE_LEN];
    let mut i: usize = 0;
    while i < external::NONCE_LEN
        invariant
            i <= external::NONCE_LEN,
            bytes@.len() == external::NONCE_LEN,
            forall|j: int| 0 <= j < i ==> nonce@[j] == bytes@[j],
        decreases external::NONCE_LEN - i,
    {
        nonce[i] = bytes[i];
        i = i + 1;
    }
    assert(nonce@ =~= bytes@);
    nonce
}

/// A record: index, nonce, length of the plaintext, ciphertext with its tag.
pub open spec fn record_bytes(
    index: nat,
    nonce: Seq<u8>,
    plain_len: nat,
    sealed: Seq<u8>,
) -> Seq<u8> {
    le::le_bytes(index, 8) + nonce + le::le_bytes(plain_len, 4) + sealed
}

/// A record, field by field, as a list of writes. A record without plaintext is the
/// final marker, and its writes are called by other names.
pub open spec fn record_pieces(
    index: nat,
    nonce: Seq<u8>,
    plain_len: nat,
    sealed: Seq<u8>,
) -> Seq<(Seq<char>, Seq<u8>)> {
    if plain_len == 0 {
        seq![
            ("write final marker index"@, le::le_bytes(index, 8)),
            ("write final marker nonce"@, nonce),
            ("write final marker length"@, le::le_bytes(plain_len, 4)),
            ("write final marker ciphertext"@, sealed),
        ]
    } else {
        seq![
            ("write chunk index"@, le::le_bytes(index, 8)),
            ("write nonce"@, nonce),
            ("write length"@, le::le_bytes(plain_len, 4)),
            ("write ciphertext"@, sealed),
        ]
    }
}

/// The writes of a record put out exactly the record.
pub proof fn lemma_pieces_join(index: nat, nonce: Seq<u8>, plain_len: nat, sealed: Seq<u8>)
    ensures
        stream::joined(record_pieces(index, nonce, plain_len, sealed)) == record_bytes(
            index,
            nonce,
            plain_len,
            sealed,
        ),
{
    reveal_with_fuel(stream::joined, 5);
    let list = record_pieces(index, nonce, plain_len, sealed);
    assert(list.drop_last().drop_last().drop_last().drop_last() =~= seq![]);
    assert(stream::joined(list) =~= record_bytes(index, nonce, plain_len, sealed));
}

/// A record, field by field, as a list of writes.
pub fn list_record(
    index: u64,
    nonce: &[u8; external::NONCE_LEN],
    plain_len: u32,
    sealed: Vec<u8>,
) -> (list: Vec<Piece>)
    ensures
        stream::pieces(list@) == record_pieces(index as nat, nonce@, plain_len as nat, sealed@),
{
    let mut nonce_bytes: Vec<u8> = Vec::with_capacity(external::NONCE_LEN);
    nonce_bytes.extend_from_slice(nonce);
    assert(nonce_bytes@ =~= nonce@);
    let ghost sealed_view = sealed@;
    let mut list: Vec<Piece> = Vec::with_capacity(4);
    if plain_len == 0 {
        list.push(Piece { label: "write final marker index", bytes: le::u64_to_le(index) });
        list.push(Piece { label: "write final marker nonce", bytes: nonce_bytes });
        list.push(Piece { label: "write final marker length", bytes: le::u32_to_le(plain_len) });
        list.push(Piece { label: "write final marker ciphertext", bytes: sealed });
    } else {
        list.push(Piece { label: "write chunk index", bytes: le::u64_to_le(index) });
        list.push(Piece { label: "write nonce", bytes: nonce_bytes });
        list.push(Piece { label: "write length", bytes: le::u32_to_le(plain_len) });
        list.push(Piece { label: "write ciphertext", bytes: sealed });
    }
    assert(stream::pieces(list@) =~= record_pieces(
        index as nat,
        nonce@,
        plain_len as nat,
        sealed_view,
    ));
    list
}

/// The record that seals `plain` under a key, an index and a nonce.
pub open spec fn sealed_record(
    key: Seq<u8>,
    aad_prefix: Seq<u8>,
    index: nat,
    nonce: Seq<u8>,
    plain: Seq<u8>,
) -> Seq<u8> {
    record_bytes(
        index,
        nonce,
        plain.len(),
        external::aead_seal(key, nonce, chunk_aad(aad_prefix, index), plain),
    )
}

/// The cipher opens what it sealed in such a record, and its tag is 16 bytes long.
pub open spec fn opens_again(
    key: Seq<u8>,
    aad_prefix: Seq<u8>,
    index: nat,
    nonce: Seq<u8>,
    plain: Seq<u8>,
) -> bool {
    let aad = chunk_aad(aad_prefix, index);
    let sealed = external::aead_seal(key, nonce, aad, plain);
    &&& sealed.len() == plain.len() + external::TAG_LEN
    &&& external::aead_open(key, nonce, aad, sealed) == Some(plain)
}

/// The records that seal `chunks` under consecutive indices, and the final marker behind
/// them; the nonces are used up in order, the last one by the marker.
pub open spec fn sealed_records(
    key: Seq<u8>,
    aad_prefix: Seq<u8>,
    index: nat,
    chunks: Seq<Seq<u8>>,
    nonces: Seq<Seq<u8>>,
) -> Seq<u8>
    decreases chunks.len(),
{
    if chunks.len() == 0 {
        sealed_record(key, aad_prefix, index, nonces[0], seq![])
    } else {
        sealed_record(key, aad_prefix, index, nonces[0], chunks[0]) + sealed_records(
            key,
            aad_prefix,
            index + 1,
            chunks.drop_first(),
            nonces.drop_first(),
        )
    }
}

/// The plaintext of the record at position `i`: a chunk, or nothing for the marker.
pub open spec fn plain_at(chunks: Seq<Seq<u8>>, i: int) -> Seq<u8> {
    if 0 <= i < chunks.len() {
        chunks[i]
    } else {
        seq![]
    }
}

/// The cipher opens every one of the records that seal `chunks`.
pub open spec fn all_open_again(
    key: Seq<u8>,
    aad_prefix: Seq<u8>,
    chunks: Seq<Seq<u8>>,
    nonces: Seq<Seq<u8>>,
) -> bool {
    forall|i: int|
        0 <= i <= chunks.len() ==> opens_again(
            key,
            aad_prefix,
            i as nat,
            #[trigger] nonces[i],
            plain_at(chunks, i),
        )
}

/// Chunks as they can stand in a file: none empty, none too long.
pub open spec fn proper_chunks(chunks: Seq<Seq<u8>>) -> bool {
    forall|i: int|
        0 <= i < chunks.len() ==> 0 < (#[trigger] chunks[i]).len() <= header::CHUNK_PLAIN
}

/// Nonces of the right length, one for each chunk and one for the marker.
pub open spec fn proper_nonces(nonces: Seq<Seq<u8>>, chunk_count: nat) -> bool {
    &&& nonces.len() == chunk_count + 1
    &&& forall|i: int| 0 <= i < nonces.len() ==> (#[trigger] nonces[i]).len() == external::NONCE_LEN
}

/// What record `index` authenticates besides its plaintext: exactly the header's bytes, and
/// behind them the eight bytes of the index.
pub proof fn law_associated_data(aad_prefix: Seq<u8>, index: u64)
    ensures
        chunk_aad(aad_prefix, index as nat).len() == aad_prefix.len() + 8,
        chunk_aad(aad_prefix, index as nat).take(aad_prefix.len() as int) == aad_prefix,
        chunk_aad(aad_prefix, index as nat).skip(aad_prefix.len() as int) == le::le_bytes(
            index as nat,
            8,
        ),
        le::le_value(chunk_aad(aad_prefix, index as nat).skip(aad_prefix.len() as int)) == index,
{
    le::lemma_le_limits();
    le::lemma_le_len(index as nat, 8);
    le::law_le_value_of_bytes(index as nat, 8);
    let aad = chunk_aad(aad_prefix, index as nat);
    assert(aad.take(aad_prefix.len() as int) =~= aad_prefix);
    assert(aad.skip(aad_prefix.len() as int) =~= le::le_bytes(index as nat, 8));
}

/// Where everything stands in a record: eight bytes of index, twelve of nonce, four of length,
/// and the ciphertext with its tag up to the end.
pub proof fn law_record_layout(index: u64, nonce: Seq<u8>, plain_len: u32, sealed: Seq<u8>)
    requires
        nonce.len() == 12,
    ensures
        ({
            let all = record_bytes(index as nat, nonce, plain_len as nat, sealed);
            &&& all.len() == 24 + sealed.len()
            &&& le::le_value(all.subrange(0, 8)) == index
            &&& all.subrange(8, 20) == nonce
            &&& le::le_value(all.subrange(20, 24)) == plain_len
            &&& all.skip(24) == sealed
        }),
{
    le::lemma_le_limits();
    le::lemma_le_len(index as nat, 8);
    le::lemma_le_len(plain_len as nat, 4);
    le::law_le_value_of_bytes(index as nat, 8);
    le::law_le_value_of_bytes(plain_len as nat, 4);
    let all = record_bytes(index as nat, nonce, plain_len as nat, sealed);
    assert(all.subrange(0, 8) =~= le::le_bytes(index as nat, 8));
    assert(all.subrange(8, 20) =~= nonce);
    assert(all.subrange(20, 24) =~= le::le_bytes(plain_len as nat, 4));
    assert(all.skip(24) =~= sealed);
}

/// The writes of a record: one for each field, called by other names in the final marker, and
/// together exactly the record.
pub proof fn law_record_writes(index: u64, nonce: Seq<u8>, plain_len: nat, sealed: Seq<u8>)
    ensures
        ({
            let list = record_pieces(index as nat, nonce, plain_len, sealed);
            &&& list.len() == 4
            &&& list[0].1 == le::le_bytes(index as nat, 8)
            &&& list[1].1 == nonce
            &&& list[2].1 == le::le_bytes(plain_len, 4)
            &&& list[3].1 == sealed
            &&& stream::joined(list) == record_bytes(index as nat, nonce, plain_len, sealed)
            &&& plain_len > 0 ==> list[0].0 == "write chunk index"@ && list[1].0 == "write nonce"@
                && list[2].0 == "write length"@ && list[3].0 == "write ciphertext"@
            &&& plain_len == 0 ==> list[0].0 == "write final marker index"@ && list[1].0
                == "write final marker nonce"@ && list[2].0 == "write final marker length"@
                && list[3].0 == "write final marker ciphertext"@
        }),
{
    lemma_pieces_join(index as nat, nonce, plain_len, sealed);
}

/// A record holds its index, its nonce, the length of its plaintext, and the plaintext sealed
/// under the key, the nonce, and the header and the index as associated data.
pub proof fn law_sealed_record(
    key: Seq<u8>,
    aad_prefix: Seq<u8>,
    index: u64,
    nonce: Seq<u8>,
    plain: Seq<u8>,
)
    ensures
        sealed_record(key, aad_prefix, index as nat, nonce, plain) == le::le_bytes(index as nat, 8)
            + nonce + le::le_bytes(plain.len(), 4) + external::aead_seal(
            key,
            nonce,
            aad_prefix + le::le_bytes(index as nat, 8),
            plain,
        ),
        opens_again(key, aad_prefix, index as nat, nonce, plain) <==> {
            let aad = aad_prefix + le::le_bytes(index as nat, 8);
            let sealed = external::aead_seal(key, nonce, aad, plain);
            sealed.len() == plain.len() + 16 && external::aead_open(key, nonce, aad, sealed) == Some(
                plain,
            )
        },
{
}

/// The records of chunks stand one behind the other under consecutive indices, each with the
/// nonce in its place, and the marker, which seals nothing, comes last.
pub proof fn law_records_stand_in_order(
    key: Seq<u8>,
    aad_prefix: Seq<u8>,
    index: nat,
    chunk: Seq<u8>,
    chunks: Seq<Seq<u8>>,
    nonce: Seq<u8>,
    nonces: Seq<Seq<u8>>,
)
    ensures
        sealed_records(key, aad_prefix, index, Seq::empty(), seq![nonce]) == sealed_record(
            key,
            aad_prefix,
            index,
            nonce,
            Seq::empty(),
        ),
        sealed_records(key, aad_prefix, index, seq![chunk] + chunks, seq![nonce] + nonces)
            == sealed_record(key, aad_prefix, index, nonce, chunk) + sealed_records(
            key,
            aad_prefix,
            index + 1,
            chunks,
            nonces,
        ),
{
    assert((seq![chunk] + chunks).drop_first() =~= chunks);
    assert((seq![nonce] + nonces).drop_first() =~= nonces);
}

/// What the conditions on chunks and nonces are.
pub proof fn law_conditions_on_chunks(
    key: Seq<u8>,
    aad_prefix: Seq<u8>,
    chunks: Seq<Seq<u8>>,
    nonces: Seq<Seq<u8>>,
    i: int,
)
    ensures
        proper_chunks(chunks) <==> forall|j: int|
            0 <= j < chunks.len() ==> 1 <= (#[trigger] chunks[j]).len() <= 262_144,
        proper_nonces(nonces, chunks.len()) <==> nonces.len() == chunks.len() + 1 && forall|j: int|
            0 <= j < nonces.len() ==> (#[trigger] nonces[j]).len() == 12,
        all_open_again(key, aad_prefix, chunks, nonces) && 0 <= i < chunks.len() ==> opens_again(
            key,
            aad_prefix,
            i as nat,
            nonces[i],
            chunks[i],
        ),
        all_open_again(key, aad_prefix, chunks, nonces) ==> opens_again(
            key,
            aad_prefix,
            chunks.len(),
            nonces[chunks.len() as int],
            Seq::empty(),
        ),
{
    if all_open_again(key, aad_prefix, chunks, nonces) {
        let last = nonces[chunks.len() as int];
        assert(opens_again(
            key,
            aad_prefix,
            chunks.len(),
            last,
            plain_at(chunks, chunks.len() as int),
        ));
        if 0 <= i < chunks.len() {
            let nonce = nonces[i];
            assert(opens_again(key, aad_prefix, i as nat, nonce, plain_at(chunks, i)));
        }
    }
}

} // verus!
