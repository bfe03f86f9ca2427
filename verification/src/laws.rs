//! What holds of sealing and opening together.
use vstd::prelude::*;

use crate::external;
use crate::header;
use crate::le;
use crate::open;
use crate::policy;
use crate::record;
use crate::seal;

verus! {

/// Where the fields of a record stand in its bytes.
proof fn lemma_record_fields(
    index: nat,
    nonce: Seq<u8>,
    plain_len: nat,
    sealed: Seq<u8>,
    rest: Seq<u8>,
)
    requires
        index <= u64::MAX,
        nonce.len() == external::NONCE_LEN,
        plain_len <= header::CHUNK_PLAIN,
        sealed.len() == plain_len + external::TAG_LEN,
    ensures
        ({
            let all = record::record_bytes(index, nonce, plain_len, sealed) + rest;
            &&& all.len() == 40 + plain_len + rest.len()
            &&& le::le_value(all.subrange(0, 8)) == index
            &&& all.subrange(8, 20) == nonce
            &&& le::le_value(all.subrange(20, 24)) == plain_len
            &&& all.subrange(24, 40 + plain_len as int) == sealed
            &&& all.skip(40 + plain_len as int) == rest
        }),
{
    le::lemma_le_limits();
    le::lemma_le_len(index, 8);
    le::lemma_le_len(plain_len, 4);
    le::law_le_value_of_bytes(index, 8);
    le::law_le_value_of_bytes(plain_len, 4);
    let all = record::record_bytes(index, nonce, plain_len, sealed) + rest;
    assert(all.subrange(0, 8) =~= le::le_bytes(index, 8));
    assert(all.subrange(8, 20) =~= nonce);
    assert(all.subrange(20, 24) =~= le::le_bytes(plain_len, 4));
    assert(all.subrange(24, 40 + plain_len as int) =~= sealed);
    assert(all.skip(40 + plain_len as int) =~= rest);
}

/// The records from position `k` on open to the chunks from position `k` on.
proof fn lemma_records_open_from(
    key: Seq<u8>,
    aad_prefix: Seq<u8>,
    chunks: Seq<Seq<u8>>,
    nonces: Seq<Seq<u8>>,
    k: nat,
)
    requires
        record::proper_chunks(chunks),
        record::proper_nonces(nonces, chunks.len()),
        record::all_open_again(key, aad_prefix, chunks, nonces),
        k <= chunks.len() <= u64::MAX,
    ensures
        open::opened(
            key,
            aad_prefix,
            k,
            record::sealed_records(
                key,
                aad_prefix,
                k,
                chunks.skip(k as int),
                nonces.skip(k as int),
            ),
        ) == (open::Outcome { written: chunks.skip(k as int).flatten(), failure: None }),
    decreases chunks.len() - k,
{
    let left = chunks.skip(k as int);
    let spare = nonces.skip(k as int);
    let nonce = nonces[k as int];
    let plain = record::plain_at(chunks, k as int);
    let sealed = external::aead_seal(key, nonce, record::chunk_aad(aad_prefix, k), plain);
    assert(record::opens_again(key, aad_prefix, k, nonce, plain));
    let all = record::sealed_records(key, aad_prefix, k, left, spare);
    if k == chunks.len() {
        lemma_record_fields(k, nonce, 0, sealed, seq![]);
        assert(all =~= record::record_bytes(k, nonce, 0, sealed) + seq![]);
        assert(left.flatten() =~= seq![]);
    } else {
        let rest = record::sealed_records(
            key,
            aad_prefix,
            k + 1,
            left.drop_first(),
            spare.drop_first(),
        );
        assert(left.drop_first() =~= chunks.skip(k as int + 1));
        assert(spare.drop_first() =~= nonces.skip(k as int + 1));
        lemma_records_open_from(key, aad_prefix, chunks, nonces, k + 1);
        lemma_record_fields(k, nonce, plain.len(), sealed, rest);
        assert(all == record::record_bytes(k, nonce, plain.len(), sealed) + rest);
    }
}

/// Records that the cipher opens again open to the chunks they seal, however the
/// plaintext was cut into chunks.
pub proof fn law_sealed_records_open(
    key: Seq<u8>,
    aad_prefix: Seq<u8>,
    chunks: Seq<Seq<u8>>,
    nonces: Seq<Seq<u8>>,
)
    requires
        record::proper_chunks(chunks),
        record::proper_nonces(nonces, chunks.len()),
        record::all_open_again(key, aad_prefix, chunks, nonces),
        chunks.len() <= u64::MAX,
    ensures
        open::opened(
            key,
            aad_prefix,
            0,
            record::sealed_records(key, aad_prefix, 0, chunks, nonces),
        ) == (open::Outcome { written: chunks.flatten(), failure: None }),
{
    assert(chunks.skip(0) =~= chunks);
    assert(nonces.skip(0) =~= nonces);
    lemma_records_open_from(key, aad_prefix, chunks, nonces, 0);
}

/// A file that was sealed with a passphrase opens, with this passphrase, to what was
/// sealed in it, however the plaintext was cut into chunks and whatever the salt and the
/// nonces are.
pub proof fn law_sealed_file_opens(
    passphrase: Seq<u8>,
    allow_weak: bool,
    header: header::HeaderModel,
    chunks: Seq<Seq<u8>>,
    nonces: Seq<Seq<u8>>,
)
    requires
        policy::passphrase_refusal(passphrase, allow_weak) is None,
        header.valid(),
        header.key(passphrase) is Ok,
        record::proper_chunks(chunks),
        record::proper_nonces(nonces, chunks.len()),
        record::all_open_again(
            header.key(passphrase)->Ok_0,
            header.aad_prefix(),
            chunks,
            nonces,
        ),
        chunks.len() <= u64::MAX,
    ensures
        open::opened_file(
            passphrase,
            allow_weak,
            seal::sealed_file(passphrase, header, chunks, nonces),
        ) == Ok::<Seq<u8>, Seq<char>>(chunks.flatten()),
{
    let key = header.key(passphrase)->Ok_0;
    law_sealed_records_open(key, header.aad_prefix(), chunks, nonces);
    header::law_header_reads_back(
        header,
        record::sealed_records(key, header.aad_prefix(), 0, chunks, nonces),
    );
}

/// A file that was written one read at a time opens to what was read: a header, and behind
/// it what a sealer puts out that is fed one chunk after the other, and then the read that
/// brings nothing.
pub proof fn law_stepped_file_opens(
    passphrase: Seq<u8>,
    allow_weak: bool,
    header: header::HeaderModel,
    chunks: Seq<Seq<u8>>,
    nonces: Seq<Seq<u8>>,
)
    requires
        policy::passphrase_refusal(passphrase, allow_weak) is None,
        header.valid(),
        header.key(passphrase) is Ok,
        record::proper_chunks(chunks),
        record::proper_nonces(nonces, chunks.len()),
        record::all_open_again(
            header.key(passphrase)->Ok_0,
            header.aad_prefix(),
            chunks,
            nonces,
        ),
        chunks.len() <= u64::MAX,
    ensures
        ({
            let sealer = seal::SealerModel {
                key: header.key(passphrase)->Ok_0,
                aad_prefix: header.aad_prefix(),
                index: 0,
                finished: false,
            };
            let sealed = seal::stepped(sealer, chunks.push(seq![]), nonces);
            &&& sealed.end is Finished
            &&& open::opened_file(passphrase, allow_weak, header.bytes() + sealed.written) == Ok::<
                Seq<u8>,
                Seq<char>,
            >(chunks.flatten())
        }),
{
    let sealer = seal::SealerModel {
        key: header.key(passphrase)->Ok_0,
        aad_prefix: header.aad_prefix(),
        index: 0,
        finished: false,
    };
    let reads = chunks.push(seq![]);
    assert(reads + Seq::<Seq<u8>>::empty() =~= reads);
    seal::law_steps_seal_the_records(sealer, chunks, seq![], nonces);
    law_sealed_file_opens(passphrase, allow_weak, header, chunks, nonces);
}

/// Data behind the final marker is refused: records that open do not open with anything
/// behind them. The plaintext that is put out on the way is the same.
pub proof fn law_trailing_data_is_refused(
    key: Seq<u8>,
    aad_prefix: Seq<u8>,
    expected: nat,
    input: Seq<u8>,
    extra: Seq<u8>,
)
    requires
        open::opened(key, aad_prefix, expected, input).failure is None,
    ensures
        open::opened(key, aad_prefix, expected, input + extra) == (open::Outcome {
            written: open::opened(key, aad_prefix, expected, input).written,
            failure: open::marker_refusal(extra),
        }),
        extra.len() > 0 ==> open::opened(key, aad_prefix, expected, input + extra).failure is Some,
    decreases input.len(),
{
    let all = input + extra;
    let plain_len: int = le::le_value(input.subrange(20, 24)) as int;
    assert(all.subrange(0, 8) =~= input.subrange(0, 8));
    assert(all.subrange(8, 20) =~= input.subrange(8, 20));
    assert(all.subrange(20, 24) =~= input.subrange(20, 24));
    assert(all.subrange(24, 40 + plain_len) =~= input.subrange(24, 40 + plain_len));
    assert(all.skip(40 + plain_len) =~= input.skip(40 + plain_len) + extra);
    if plain_len == 0 {
        assert(input.skip(40) + extra =~= extra);
    } else {
        law_trailing_data_is_refused(
            key,
            aad_prefix,
            expected + 1,
            input.skip(40 + plain_len),
            extra,
        );
    }
}

/// What is put out when the input is cut off is the beginning of what is put out
/// otherwise.
pub proof fn law_partial_output_is_a_prefix(
    key: Seq<u8>,
    aad_prefix: Seq<u8>,
    expected: nat,
    input: Seq<u8>,
    n: int,
)
    requires
        0 <= n <= input.len(),
    ensures
        open::opened(key, aad_prefix, expected, input.take(n)).written.is_prefix_of(
            open::opened(key, aad_prefix, expected, input).written,
        ),
    decreases input.len(),
{
    let cut = input.take(n);
    let plain_len: int = le::le_value(input.subrange(20, 24)) as int;
    if n >= 24 {
        assert(cut.subrange(0, 8) =~= input.subrange(0, 8));
        assert(cut.subrange(8, 20) =~= input.subrange(8, 20));
        assert(cut.subrange(20, 24) =~= input.subrange(20, 24));
        if plain_len <= header::CHUNK_PLAIN && n >= 40 + plain_len {
            assert(cut.subrange(24, 40 + plain_len) =~= input.subrange(24, 40 + plain_len));
            let rest = input.skip(40 + plain_len);
            assert(cut.skip(40 + plain_len) =~= rest.take(n - 40 - plain_len));
            law_partial_output_is_a_prefix(
                key,
                aad_prefix,
                expected + 1,
                rest,
                n - 40 - plain_len,
            );
        }
    }
}

/// Records that open do not open when they are cut off anywhere: the final marker is
/// missing or incomplete.
pub proof fn law_truncated_records_are_refused(
    key: Seq<u8>,
    aad_prefix: Seq<u8>,
    expected: nat,
    input: Seq<u8>,
    n: int,
)
    requires
        open::opened(key, aad_prefix, expected, input).failure is None,
        0 <= n < input.len(),
    ensures
        open::opened(key, aad_prefix, expected, input.take(n)).failure is Some,
    decreases input.len(),
{
    let cut = input.take(n);
    let plain_len: int = le::le_value(input.subrange(20, 24)) as int;
    if n >= 24 {
        assert(cut.subrange(0, 8) =~= input.subrange(0, 8));
        assert(cut.subrange(8, 20) =~= input.subrange(8, 20));
        assert(cut.subrange(20, 24) =~= input.subrange(20, 24));
        if n >= 40 + plain_len {
            assert(cut.subrange(24, 40 + plain_len) =~= input.subrange(24, 40 + plain_len));
            let rest = input.skip(40 + plain_len);
            assert(cut.skip(40 + plain_len) =~= rest.take(n - 40 - plain_len));
            law_truncated_records_are_refused(
                key,
                aad_prefix,
                expected + 1,
                rest,
                n - 40 - plain_len,
            );
        }
    }
}

/// Of the files that begin alike at most one opens with a given passphrase: a file that
/// opens opens neither with anything behind it nor cut off anywhere.
pub proof fn law_file_ends_where_it_ends(
    passphrase: Seq<u8>,
    allow_weak: bool,
    file: Seq<u8>,
    extra: Seq<u8>,
    n: int,
)
    requires
        open::opened_file(passphrase, allow_weak, file) is Ok,
        extra.len() > 0,
        0 <= n < file.len(),
    ensures
        open::opened_file(passphrase, allow_weak, file + extra) is Err,
        open::opened_file(passphrase, allow_weak, file.take(n)) is Err,
{
    header::law_header_is_canonical(file);
    header::law_header_ignores_what_follows(file, extra);
    let header = header::parsed_header(file)->Ok_0;
    let key = header.key(passphrase)->Ok_0;
    let records = file.skip(header::HEADER_LEN as int);
    assert((file + extra).skip(header::HEADER_LEN as int) =~= records + extra);
    law_trailing_data_is_refused(key, header.aad_prefix(), 0, records, extra);
    if n < header::HEADER_LEN {
        header::law_short_header_is_refused(file.take(n));
    } else {
        let cut = file.take(n);
        assert(cut.take(header::HEADER_LEN as int) =~= file.take(header::HEADER_LEN as int));
        let rest = cut.skip(header::HEADER_LEN as int);
        assert(cut =~= header.bytes() + rest) by {
            assert(cut =~= cut.take(header::HEADER_LEN as int) + rest);
        }
        header::law_header_reads_back(header, rest);
        assert(rest =~= records.take(n - header::HEADER_LEN));
        law_truncated_records_are_refused(
            key,
            header.aad_prefix(),
            0,
            records,
            n - header::HEADER_LEN,
        );
    }
}

/// What a record authenticates tells both its file's header and its own index: two records
/// that authenticate the same bytes agree in all of it.
pub proof fn law_aad_binds_header_and_index(
    a: header::HeaderModel,
    i: u64,
    b: header::HeaderModel,
    j: u64,
)
    requires
        a.valid(),
        b.valid(),
        record::chunk_aad(a.aad_prefix(), i as nat) == record::chunk_aad(
            b.aad_prefix(),
            j as nat,
        ),
    ensures
        a == b,
        i == j,
{
    header::law_header_length(a);
    header::law_header_length(b);
    le::lemma_le_limits();
    le::lemma_le_len(i as nat, 8);
    le::lemma_le_len(j as nat, 8);
    let aad = record::chunk_aad(a.aad_prefix(), i as nat);
    assert(aad.take(35) =~= a.aad_prefix());
    assert(aad.take(35) =~= b.aad_prefix());
    assert(aad.skip(35) =~= le::le_bytes(i as nat, 8));
    assert(aad.skip(35) =~= le::le_bytes(j as nat, 8));
    le::law_le_value_of_bytes(i as nat, 8);
    le::law_le_value_of_bytes(j as nat, 8);
    header::law_aad_binds_the_header(a, b);
}

/// A record that the cipher has opened.
#[verifier::ext_equal]
pub struct Authentic {
    pub nonce: Seq<u8>,
    pub plain_len: nat,
    pub sealed: Seq<u8>,
    pub plain: Seq<u8>,
}

/// Opened records under consecutive indices, as they stand in a file.
pub open spec fn authentic_bytes(index: nat, list: Seq<Authentic>) -> Seq<u8>
    decreases list.len(),
{
    if list.len() == 0 {
        seq![]
    } else {
        record::record_bytes(index, list[0].nonce, list[0].plain_len, list[0].sealed)
            + authentic_bytes(index + 1, list.drop_first())
    }
}

/// The plaintext of opened records.
pub open spec fn authentic_plain(list: Seq<Authentic>) -> Seq<u8>
    decreases list.len(),
{
    if list.len() == 0 {
        seq![]
    } else {
        list[0].plain + authentic_plain(list.drop_first())
    }
}

/// Each record of the list is well formed, holds plaintext, and was opened under the
/// header and its own index.
pub open spec fn all_authentic(
    key: Seq<u8>,
    aad_prefix: Seq<u8>,
    index: nat,
    list: Seq<Authentic>,
) -> bool
    decreases list.len(),
{
    list.len() > 0 ==> {
        &&& list[0].nonce.len() == external::NONCE_LEN
        &&& 0 < list[0].plain_len <= header::CHUNK_PLAIN
        &&& list[0].sealed.len() == list[0].plain_len + external::TAG_LEN
        &&& external::aead_open(
            key,
            list[0].nonce,
            record::chunk_aad(aad_prefix, index),
            list[0].sealed,
        ) == Some(list[0].plain)
        &&& all_authentic(key, aad_prefix, index + 1, list.drop_first())
    }
}

/// A final marker that the cipher opens under the header and its own index.
pub open spec fn authentic_marker(
    key: Seq<u8>,
    aad_prefix: Seq<u8>,
    index: nat,
    nonce: Seq<u8>,
    sealed: Seq<u8>,
) -> bool {
    &&& nonce.len() == external::NONCE_LEN
    &&& sealed.len() == external::TAG_LEN
    &&& external::aead_open(key, nonce, record::chunk_aad(aad_prefix, index), sealed) is Some
}

/// The opened records are the beginning of the input, and their plaintext is all that is
/// put out.
pub open spec fn accounts_for(
    key: Seq<u8>,
    aad_prefix: Seq<u8>,
    expected: nat,
    input: Seq<u8>,
    list: Seq<Authentic>,
) -> bool {
    &&& all_authentic(key, aad_prefix, expected, list)
    &&& authentic_bytes(expected, list).is_prefix_of(input)
    &&& authentic_plain(list) == open::opened(key, aad_prefix, expected, input).written
}

/// Records that open are followed by an authentic final marker under the next index, and
/// by nothing else.
pub open spec fn ends_in_marker(
    key: Seq<u8>,
    aad_prefix: Seq<u8>,
    expected: nat,
    input: Seq<u8>,
    list: Seq<Authentic>,
) -> bool {
    exists|nonce: Seq<u8>, sealed: Seq<u8>| #[trigger]
        authentic_marker(key, aad_prefix, expected + list.len(), nonce, sealed) && input
            == authentic_bytes(expected, list) + record::record_bytes(
            expected + list.len(),
            nonce,
            0,
            sealed,
        )
}

/// All that is ever put out, also before a failure, is the plaintext of authentic records
/// that stand at the beginning of the input under consecutive indices. If there is no
/// failure, the input is these records and an authentic final marker, and nothing else.
pub proof fn law_output_is_authenticated(
    key: Seq<u8>,
    aad_prefix: Seq<u8>,
    expected: nat,
    input: Seq<u8>,
) -> (list: Seq<Authentic>)
    requires
        expected <= u64::MAX,
    ensures
        accounts_for(key, aad_prefix, expected, input, list),
        open::opened(key, aad_prefix, expected, input).failure is None ==> ends_in_marker(
            key,
            aad_prefix,
            expected,
            input,
            list,
        ),
    decreases input.len(),
{
    let plain_len: int = le::le_value(input.subrange(20, 24)) as int;
    let nonce = input.subrange(8, 20);
    let sealed = input.subrange(24, 40 + plain_len);
    let outcome = open::opened(key, aad_prefix, expected, input);
    let rest = input.skip(40 + plain_len);
    if input.len() >= 24 && plain_len <= header::CHUNK_PLAIN && input.len() >= 40 + plain_len
        && le::le_value(input.subrange(0, 8)) == expected && external::aead_open(
        key,
        nonce,
        record::chunk_aad(aad_prefix, expected),
        sealed,
    ) is Some {
        let plain = external::aead_open(
            key,
            nonce,
            record::chunk_aad(aad_prefix, expected),
            sealed,
        )->Some_0;
        let head = record::record_bytes(expected, nonce, plain_len as nat, sealed);
        le::law_le_bytes_of_value(input.subrange(0, 8));
        le::law_le_bytes_of_value(input.subrange(20, 24));
        assert(input =~= head + rest);
        if plain_len == 0 {
            let list = Seq::<Authentic>::empty();
            if outcome.failure is None {
                assert(rest.len() == 0);
                assert(authentic_marker(key, aad_prefix, expected + list.len(), nonce, sealed));
                assert(input =~= authentic_bytes(expected, list) + head);
                assert(ends_in_marker(key, aad_prefix, expected, input, list));
            }
            list
        } else {
            let first = Authentic { nonce, plain_len: plain_len as nat, sealed, plain };
            if expected >= u64::MAX {
                let list = seq![first];
                assert(list.drop_first() =~= seq![]);
                reveal_with_fuel(all_authentic, 2);
                reveal_with_fuel(authentic_bytes, 2);
                reveal_with_fuel(authentic_plain, 2);
                assert(authentic_bytes(expected, list) =~= head);
                assert(authentic_plain(list) =~= plain);
                list
            } else {
                let later = law_output_is_authenticated(key, aad_prefix, expected + 1, rest);
                let list = seq![first] + later;
                assert(list.drop_first() =~= later);
                assert(authentic_bytes(expected, list) =~= head + authentic_bytes(
                    expected + 1,
                    later,
                ));
                assert(authentic_bytes(expected, list).is_prefix_of(input));
                if outcome.failure is None {
                    let (n, c) = choose|n: Seq<u8>, c: Seq<u8>| #[trigger]
                        authentic_marker(key, aad_prefix, expected + 1 + later.len(), n, c) && rest
                            == authentic_bytes(expected + 1, later) + record::record_bytes(
                            expected + 1 + later.len(),
                            n,
                            0,
                            c,
                        );
                    assert(expected + 1 + later.len() == expected + list.len());
                    assert(authentic_marker(key, aad_prefix, expected + list.len(), n, c));
                    assert(input =~= authentic_bytes(expected, list) + record::record_bytes(
                        expected + list.len(),
                        n,
                        0,
                        c,
                    ));
                    assert(ends_in_marker(key, aad_prefix, expected, input, list));
                }
                list
            }
        }
    } else {
        Seq::<Authentic>::empty()
    }
}

/// A file is as long as its plaintext, the header of 39 bytes, and 40 bytes for each
/// chunk and for the final marker. Even the empty plaintext has its marker.
pub proof fn law_file_length(
    passphrase: Seq<u8>,
    header: header::HeaderModel,
    chunks: Seq<Seq<u8>>,
    nonces: Seq<Seq<u8>>,
)
    requires
        header.valid(),
        record::proper_nonces(nonces, chunks.len()),
        record::all_open_again(
            header.key(passphrase)->Ok_0,
            header.aad_prefix(),
            chunks,
            nonces,
        ),
    ensures
        seal::sealed_file(passphrase, header, chunks, nonces).len() == chunks.flatten().len() + 39
            + 40 * (chunks.len() + 1),
{
    header::law_header_length(header);
    assert(chunks.skip(0) =~= chunks);
    assert(nonces.skip(0) =~= nonces);
    lemma_records_length(header.key(passphrase)->Ok_0, header.aad_prefix(), chunks, nonces, 0);
}

/// The length of the records from position `k` on.
proof fn lemma_records_length(
    key: Seq<u8>,
    aad_prefix: Seq<u8>,
    chunks: Seq<Seq<u8>>,
    nonces: Seq<Seq<u8>>,
    k: nat,
)
    requires
        record::proper_nonces(nonces, chunks.len()),
        record::all_open_again(key, aad_prefix, chunks, nonces),
        k <= chunks.len(),
    ensures
        record::sealed_records(
            key,
            aad_prefix,
            k,
            chunks.skip(k as int),
            nonces.skip(k as int),
        ).len() == chunks.skip(k as int).flatten().len() + 40 * (chunks.len() - k + 1),
    decreases chunks.len() - k,
{
    let left = chunks.skip(k as int);
    let nonce = nonces[k as int];
    let plain = record::plain_at(chunks, k as int);
    assert(record::opens_again(key, aad_prefix, k, nonce, plain));
    le::lemma_le_len(k, 8);
    le::lemma_le_len(plain.len(), 4);
    if k < chunks.len() {
        assert(left.drop_first() =~= chunks.skip(k as int + 1));
        assert(nonces.skip(k as int).drop_first() =~= nonces.skip(k as int + 1));
        lemma_records_length(key, aad_prefix, chunks, nonces, k + 1);
    }
}

} // verus!
