//! What the format code asks of input and output: reads of a fixed length, and
//! labelled writes.
use vstd::prelude::*;
use vstd::slice::slice_subrange;
use vstd::slice::slice_to_vec;

verus! {

/// How a read of a fixed length went.
#[derive(Debug)]
pub enum ReadEvent {
    /// All the bytes asked for.
    Bytes(Vec<u8>),
    /// The input ended first; the words of the failure.
    Ended(String),
    /// The input failed; the words of the failure.
    Failed(String),
}

/// The contents of a `ReadEvent`.
pub enum ReadModel {
    Bytes(Seq<u8>),
    Ended(Seq<char>),
    Failed(Seq<char>),
}

impl View for ReadEvent {
    type V = ReadModel;

    open spec fn view(&self) -> ReadModel {
        match self {
            ReadEvent::Bytes(bytes) => ReadModel::Bytes(bytes@),
            ReadEvent::Ended(text) => ReadModel::Ended(text@),
            ReadEvent::Failed(text) => ReadModel::Failed(text@),
        }
    }
}

impl ReadModel {
    /// If this read succeeded, it brought `wanted` bytes.
    pub open spec fn fills(self, wanted: nat) -> bool {
        self matches ReadModel::Bytes(bytes) ==> bytes.len() == wanted
    }
}

/// One write: what is written, and what to call it if the write fails.
#[derive(Debug)]
pub struct Piece {
    pub label: &'static str,
    pub bytes: Vec<u8>,
}

impl View for Piece {
    type V = (Seq<char>, Seq<u8>);

    open spec fn view(&self) -> (Seq<char>, Seq<u8>) {
        (self.label@, self.bytes@)
    }
}

/// The contents of a list of writes.
pub open spec fn pieces(list: Seq<Piece>) -> Seq<(Seq<char>, Seq<u8>)> {
    list.map_values(|piece: Piece| piece@)
}

/// The bytes that a list of writes puts out, in order.
pub open spec fn joined(list: Seq<(Seq<char>, Seq<u8>)>) -> Seq<u8>
    decreases list.len(),
{
    if list.len() == 0 {
        seq![]
    } else {
        joined(list.drop_last()) + list.last().1
    }
}

/// The report of a read or write that failed: what was tried, and why it failed.
pub open spec fn failure(label: Seq<char>, cause: Seq<char>) -> Seq<char> {
    label + ": "@ + cause
}

/// The report of a read that ran into the end of a byte string.
pub open spec fn cut_short(label: Seq<char>) -> Seq<char> {
    failure(label, "failed to fill whole buffer"@)
}

/// The report of a read or write that failed: what was tried, and why it failed.
pub fn failure_text(label: &str, cause: &str) -> (text: String)
    ensures
        text@ == failure(label@, cause@),
{
    let mut text: String = label.to_string();
    text.append(": ");
    text.append(cause);
    text
}

/// Writes a list of pieces behind what `out` holds.
pub fn append_pieces(out: &mut Vec<u8>, list: &Vec<Piece>)
    ensures
        final(out)@ == old(out)@ + joined(pieces(list@)),
{
    let ghost all = pieces(list@);
    let mut i: usize = 0;
    assert(all.take(0) =~= seq![]);
    while i < list.len()
        invariant
            i <= list@.len(),
            all == pieces(list@),
            out@ == old(out)@ + joined(all.take(i as int)),
        decreases list@.len() - i,
    {
        out.extend_from_slice(list[i].bytes.as_slice());
        i = i + 1;
        proof {
            assert(all.take(i as int).drop_last() =~= all.take(i - 1));
            assert(out@ =~= old(out)@ + joined(all.take(i as int)));
        }
    }
    assert(all.take(i as int) =~= all);
}

/// What a read of `wanted` bytes at `at` yields when `input` is all there is.
pub open spec fn read_at(input: Seq<u8>, at: int, wanted: nat) -> ReadModel {
    if at + wanted <= input.len() {
        ReadModel::Bytes(input.subrange(at, at + wanted))
    } else {
        ReadModel::Ended("failed to fill whole buffer"@)
    }
}

/// Reads `wanted` bytes at `at` from a byte string.
pub fn read_bytes(input: &[u8], at: usize, wanted: usize) -> (event: ReadEvent)
    requires
        at <= input@.len(),
    ensures
        event@ == read_at(input@, at as int, wanted as nat),
{
    if wanted <= input.len() - at {
        ReadEvent::Bytes(slice_to_vec(slice_subrange(input, at, at + wanted)))
    } else {
        ReadEvent::Ended("failed to fill whole buffer".to_string())
    }
}

/// A report is what was tried, a colon, and why it failed; the end of a byte string has one
/// cause of its own.
pub proof fn law_reports_name_label_and_cause(label: Seq<char>, cause: Seq<char>)
    ensures
        failure(label, cause) == label + ": "@ + cause,
        cut_short(label) == label + ": "@ + "failed to fill whole buffer"@,
{
}

/// A read brings exactly the bytes asked for where they are all there, and otherwise ends.
pub proof fn law_reads_bring_what_is_there(input: Seq<u8>, at: int, wanted: nat)
    requires
        0 <= at <= input.len(),
    ensures
        wanted <= input.len() - at ==> (read_at(input, at, wanted) matches ReadModel::Bytes(bytes)
            && bytes.len() == wanted && forall|i: int|
            0 <= i < wanted ==> bytes[i] == input[at + i]),
        wanted > input.len() - at ==> read_at(input, at, wanted) == ReadModel::Ended(
            "failed to fill whole buffer"@,
        ),
{
}

/// Writes put out their bytes one behind the other: nothing for no write, its bytes for one,
/// and for two lists what the first puts out and then what the second does.
pub proof fn law_writes_are_joined_in_order(
    label: Seq<char>,
    bytes: Seq<u8>,
    first: Seq<(Seq<char>, Seq<u8>)>,
    second: Seq<(Seq<char>, Seq<u8>)>,
)
    ensures
        joined(Seq::empty()) == Seq::<u8>::empty(),
        joined(seq![(label, bytes)]) == bytes,
        joined(first + second) == joined(first) + joined(second),
    decreases second.len(),
{
    reveal_with_fuel(joined, 2);
    assert(seq![(label, bytes)].drop_last() =~= Seq::empty());
    assert(joined(seq![(label, bytes)]) =~= bytes);
    if second.len() == 0 {
        assert(first + second =~= first);
        assert(joined(first + second) =~= joined(first) + joined(second));
    } else {
        law_writes_are_joined_in_order(label, bytes, first, second.drop_last());
        assert((first + second).drop_last() =~= first + second.drop_last());
        assert(joined(first + second) =~= joined(first) + joined(second));
    }
}

/// What the contracts call the contents of events and writes is what they hold.
pub proof fn law_views_are_contents(bytes: Vec<u8>, text: String, list: Seq<Piece>, wanted: nat)
    ensures
        ReadEvent::Bytes(bytes)@ == ReadModel::Bytes(bytes@),
        ReadEvent::Ended(text)@ == ReadModel::Ended(text@),
        ReadEvent::Failed(text)@ == ReadModel::Failed(text@),
        ReadModel::Bytes(bytes@).fills(wanted) <==> bytes@.len() == wanted,
        ReadModel::Ended(text@).fills(wanted),
        ReadModel::Failed(text@).fills(wanted),
        pieces(list).len() == list.len(),
        forall|i: int|
            0 <= i < list.len() ==> #[trigger] pieces(list)[i] == (list[i].label@, list[i].bytes@),
{
}

} // verus!
