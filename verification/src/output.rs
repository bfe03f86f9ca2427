//! Where output goes, and how a file is put in place as a whole or not at all.
use vstd::prelude::*;

use crate::external;

verus! {

/// How many names are tried for a temporary file.
pub const TEMP_ATTEMPTS: u32 = 32;

/// Random bytes in the name of a temporary file.
pub const TEMP_SUFFIX_LEN: usize = 8;

/// Whether a path stands for a standard stream.
pub fn is_dash(path: &str) -> (dash: bool)
    ensures
        dash == (path@ == "-"@),
{
    proof {
        reveal_strlit("-");
        assert("-"@ =~= seq!['-']);
    }
    if path.unicode_len() == 1 && path.get_char(0) == '-' {
        assert(path@ =~= "-"@);
        true
    } else {
        false
    }
}

/// Where output goes.
#[derive(Copy, Clone, Debug, PartialEq, Eq, Structural)]
pub enum OutputChoice {
    /// To the standard output.
    Stdout,
    /// To the path that was given.
    Given,
    /// To a file beside the input, named after it.
    BesideInput,
}

/// Where a sealed file goes, given whether an output path was given and is a dash, and
/// whether the input is one.
pub fn sealed_output(output_is_dash: Option<bool>, input_is_dash: bool) -> (choice: OutputChoice)
    ensures
        choice == (match output_is_dash {
            Some(true) => OutputChoice::Stdout,
            Some(false) => OutputChoice::Given,
            None => if input_is_dash {
                OutputChoice::Stdout
            } else {
                OutputChoice::BesideInput
            },
        }),
{
    match output_is_dash {
        Some(true) => OutputChoice::Stdout,
        Some(false) => OutputChoice::Given,
        None => if input_is_dash {
            OutputChoice::Stdout
        } else {
            OutputChoice::BesideInput
        },
    }
}

/// Where an opened file goes, given whether an output path was given and is a dash.
pub fn opened_output(output_is_dash: Option<bool>) -> (choice: OutputChoice)
    ensures
        choice == (if output_is_dash == Some(false) {
            OutputChoice::Given
        } else {
            OutputChoice::Stdout
        }),
{
    match output_is_dash {
        Some(false) => OutputChoice::Given,
        _ => OutputChoice::Stdout,
    }
}

/// What the name of a sealed file has behind the name of the input.
pub fn sealed_suffix() -> (suffix: &'static str)
    ensures
        suffix@ == ".sld"@,
{
    ".sld"
}

/// The lower-case hexadecimal digit of a number below 16.
pub open spec fn hex_char(n: int) -> char {
    if n < 10 {
        (48 + n) as char
    } else {
        (87 + n) as char
    }
}

/// Bytes as lower-case hexadecimal digits, two for each.
pub open spec fn hex_text(bytes: Seq<u8>) -> Seq<char>
    decreases bytes.len(),
{
    if bytes.len() == 0 {
        seq![]
    } else {
        hex_text(bytes.drop_last()) + seq![
            hex_char(bytes.last() as int / 16),
            hex_char(bytes.last() as int % 16),
        ]
    }
}

/// Two digits for each byte.
pub proof fn lemma_hex_len(bytes: Seq<u8>)
    ensures
        hex_text(bytes).len() == 2 * bytes.len(),
    decreases bytes.len(),
{
    if bytes.len() > 0 {
        lemma_hex_len(bytes.drop_last());
    }
}

/// Different bytes make different digits, and so different temporary names.
pub proof fn law_hex_tells_bytes_apart(a: Seq<u8>, b: Seq<u8>)
    requires
        hex_text(a) == hex_text(b),
    ensures
        a == b,
    decreases a.len(),
{
    lemma_hex_len(a);
    lemma_hex_len(b);
    if a.len() > 0 {
        let n = 2 * a.len() as int;
        lemma_hex_len(a.drop_last());
        lemma_hex_len(b.drop_last());
        assert(hex_text(a).take(n - 2) =~= hex_text(a.drop_last()));
        assert(hex_text(b).take(n - 2) =~= hex_text(b.drop_last()));
        law_hex_tells_bytes_apart(a.drop_last(), b.drop_last());
        assert(hex_text(a)[n - 2] == hex_char(a.last() as int / 16));
        assert(hex_text(a)[n - 1] == hex_char(a.last() as int % 16));
        assert(hex_text(b)[n - 2] == hex_char(b.last() as int / 16));
        assert(hex_text(b)[n - 1] == hex_char(b.last() as int % 16));
        assert(a.last() == b.last());
        assert(a =~= a.drop_last().push(a.last()));
        assert(b =~= b.drop_last().push(b.last()));
    } else {
        assert(a =~= b);
    }
}

/// The lower-case hexadecimal digit of a number below 16.
fn hex_digit(n: u8) -> (digit: &'static str)
    requires
        n < 16,
    ensures
        digit@ == seq![hex_char(n as int)],
{
    proof {
        reveal_strlit("0");
        reveal_strlit("1");
        reveal_strlit("2");
        reveal_strlit("3");
        reveal_strlit("4");
        reveal_strlit("5");
        reveal_strlit("6");
        reveal_strlit("7");
        reveal_strlit("8");
        reveal_strlit("9");
        reveal_strlit("a");
        reveal_strlit("b");
        reveal_strlit("c");
        reveal_strlit("d");
        reveal_strlit("e");
        reveal_strlit("f");
    }
    let digit: &'static str = match n {
        0 => "0",
        1 => "1",
        2 => "2",
        3 => "3",
        4 => "4",
        5 => "5",
        6 => "6",
        7 => "7",
        8 => "8",
        9 => "9",
        10 => "a",
        11 => "b",
        12 => "c",
        13 => "d",
        14 => "e",
        _ => "f",
    };
    assert(digit@ =~= seq![hex_char(n as int)]);
    digit
}

/// Bytes as lower-case hexadecimal digits, two for each.
pub fn hex_string(bytes: &[u8]) -> (text: String)
    ensures
        text@ == hex_text(bytes@),
{
    let mut text: String = String::new();
    let mut i: usize = 0;
    assert(bytes@.take(0) =~= seq![]);
    while i < bytes.len()
        invariant
            i <= bytes@.len(),
            text@ == hex_text(bytes@.take(i as int)),
        decreases bytes@.len() - i,
    {
        let byte: u8 = bytes[i];
        text.append(hex_digit(byte / 16));
        text.append(hex_digit(byte % 16));
        i = i + 1;
        proof {
            assert(bytes@.take(i as int).drop_last() =~= bytes@.take(i - 1));
            assert(text@ =~= hex_text(bytes@.take(i as int)));
        }
    }
    assert(bytes@.take(i as int) =~= bytes@);
    text
}

/// The random part of the name of a temporary file: 16 hexadecimal digits.
pub fn random_temp_suffix() -> (suffix: String)
    ensures
        exists|bytes: Seq<u8>| bytes.len() == TEMP_SUFFIX_LEN && suffix@ == #[trigger] hex_text(bytes),
        suffix@.len() == 16,
        suffix@.len() == 2 * TEMP_SUFFIX_LEN,
{
    let bytes: [u8; TEMP_SUFFIX_LEN] = external::random_bytes();
    let suffix: String = hex_string(&bytes);
    proof {
        lemma_hex_len(bytes@);
    }
    assert(bytes@.len() == TEMP_SUFFIX_LEN && suffix@ == hex_text(bytes@));
    suffix
}

/// The name of the temporary file beside a file called `name`: hidden, and told from others
/// by `suffix`.
pub fn temp_name(name: &str, suffix: &str) -> (text: String)
    ensures
        text@ == "."@ + name@ + "."@ + suffix@ + ".tmp"@,
{
    let mut text: String = ".".to_string();
    text.append(name);
    text.append(".");
    text.append(suffix);
    text.append(".tmp");
    text
}

/// How the creation of a temporary file went.
#[derive(Copy, Clone, Debug, PartialEq, Eq, Structural)]
pub enum TempOutcome {
    Created,
    AlreadyExists,
    Failed,
}

/// What to do after the creation of a temporary file was tried.
#[derive(Copy, Clone, Debug, PartialEq, Eq, Structural)]
pub enum TempStep {
    /// Write to the file.
    Use,
    /// Try another name.
    TryAgain,
    /// There was no free name.
    GiveUp,
    /// Report the failure.
    Fail,
}

/// What to do after attempt number `attempt`, counted from 0.
pub fn after_temp_attempt(attempt: u32, outcome: TempOutcome) -> (step: TempStep)
    ensures
        outcome == TempOutcome::AlreadyExists && attempt < 31 ==> step == TempStep::TryAgain,
        outcome == TempOutcome::AlreadyExists && attempt >= 31 ==> step == TempStep::GiveUp,
        step == (match outcome {
            TempOutcome::Created => TempStep::Use,
            TempOutcome::Failed => TempStep::Fail,
            TempOutcome::AlreadyExists => if attempt + 1 < TEMP_ATTEMPTS {
                TempStep::TryAgain
            } else {
                TempStep::GiveUp
            },
        }),
{
    match outcome {
        TempOutcome::Created => TempStep::Use,
        TempOutcome::Failed => TempStep::Fail,
        TempOutcome::AlreadyExists => if attempt < TEMP_ATTEMPTS - 1 {
            TempStep::TryAgain
        } else {
            TempStep::GiveUp
        },
    }
}

/// A step in ending an output.
#[derive(Copy, Clone, Debug, PartialEq, Eq, Structural)]
pub enum SinkAction {
    /// Hand over what is still buffered.
    Flush,
    /// Have the temporary file reach the disk.
    Sync,
    /// Give the temporary file its final name.
    Rename,
    /// Remove whatever still bears the temporary name.
    RemoveTemp,
}

/// The first step in ending an output.
pub open spec fn first_step(to_file: bool, succeeded: bool) -> Option<SinkAction> {
    if succeeded {
        Some(SinkAction::Flush)
    } else if to_file {
        Some(SinkAction::RemoveTemp)
    } else {
        None
    }
}

/// The first step in ending an output, given whether it is a file and whether all of it was
/// written. Nothing is due where writing to the standard output failed.
pub fn first_sink_step(to_file: bool, succeeded: bool) -> (next: Option<SinkAction>)
    ensures
        succeeded ==> next == Some(SinkAction::Flush),
        !succeeded && to_file ==> next == Some(SinkAction::RemoveTemp),
        !succeeded && !to_file ==> next == None::<SinkAction>,
        next == first_step(to_file, succeeded),
{
    if succeeded {
        Some(SinkAction::Flush)
    } else if to_file {
        Some(SinkAction::RemoveTemp)
    } else {
        None
    }
}

/// The step that follows a step in ending an output, given how that step went: the next one
/// up to the final name, or the clean-up once there is nothing left to gain.
pub open spec fn next_step(to_file: bool, done: SinkAction, succeeded: bool) -> Option<SinkAction> {
    if !to_file || done == SinkAction::RemoveTemp {
        None
    } else if succeeded && done == SinkAction::Flush {
        Some(SinkAction::Sync)
    } else if succeeded && done == SinkAction::Sync {
        Some(SinkAction::Rename)
    } else {
        Some(SinkAction::RemoveTemp)
    }
}

/// The step that follows a step in ending an output, given how that step went.
pub fn after_sink_step(to_file: bool, done: SinkAction, succeeded: bool) -> (next: Option<
    SinkAction,
>)
    ensures
        !to_file ==> next == None::<SinkAction>,
        to_file && succeeded && done == SinkAction::Flush ==> next == Some(SinkAction::Sync),
        to_file && succeeded && done == SinkAction::Sync ==> next == Some(SinkAction::Rename),
        to_file && !succeeded && done != SinkAction::RemoveTemp ==> next == Some(
            SinkAction::RemoveTemp,
        ),
        to_file && done == SinkAction::Rename ==> next == Some(SinkAction::RemoveTemp),
        done == SinkAction::RemoveTemp ==> next == None::<SinkAction>,
        next == next_step(to_file, done, succeeded),
{
    if !to_file {
        return None;
    }
    match done {
        SinkAction::RemoveTemp => None,
        SinkAction::Rename => Some(SinkAction::RemoveTemp),
        SinkAction::Sync => if succeeded {
            Some(SinkAction::Rename)
        } else {
            Some(SinkAction::RemoveTemp)
        },
        SinkAction::Flush => if succeeded {
            Some(SinkAction::Sync)
        } else {
            Some(SinkAction::RemoveTemp)
        },
    }
}

/// How far a step is from the end.
pub open spec fn steps_left(step: Option<SinkAction>) -> nat {
    match step {
        Some(SinkAction::Flush) => 4,
        Some(SinkAction::Sync) => 3,
        Some(SinkAction::Rename) => 2,
        Some(SinkAction::RemoveTemp) => 1,
        None => 0,
    }
}

/// The steps that are taken from `step` on, where `works` says which of them succeed.
pub open spec fn steps_taken(
    to_file: bool,
    step: Option<SinkAction>,
    works: spec_fn(SinkAction) -> bool,
) -> Seq<SinkAction>
    decreases steps_left(step),
{
    match step {
        Some(action) => seq![action] + steps_taken(
            to_file,
            next_step(to_file, action, works(action)),
            works,
        ),
        None => seq![],
    }
}

/// A file gets its final name only after all of it was written, and after a flush and a sync
/// that succeeded: a run that failed, or whose ending fails before that, leaves no output
/// file. Whatever happens, what bears the temporary name is removed in the end.
pub proof fn law_failure_leaves_no_output(
    to_file: bool,
    succeeded: bool,
    works: spec_fn(SinkAction) -> bool,
)
    ensures
        ({
            let taken = steps_taken(to_file, first_step(to_file, succeeded), works);
            &&& taken.contains(SinkAction::Rename) <==> to_file && succeeded && works(
                SinkAction::Flush,
            ) && works(SinkAction::Sync)
            &&& taken.contains(SinkAction::Rename) ==> taken == seq![
                SinkAction::Flush,
                SinkAction::Sync,
                SinkAction::Rename,
                SinkAction::RemoveTemp,
            ]
            &&& to_file ==> taken.len() > 0 && taken.last() == SinkAction::RemoveTemp
            &&& !to_file ==> taken == if succeeded {
                seq![SinkAction::Flush]
            } else {
                seq![]
            }
        }),
{
    reveal_with_fuel(steps_taken, 6);
    let taken = steps_taken(to_file, first_step(to_file, succeeded), works);
    if !to_file {
        if succeeded {
            assert(taken =~= seq![SinkAction::Flush]);
        } else {
            assert(taken =~= seq![]);
        }
    } else if !succeeded {
        assert(taken =~= seq![SinkAction::RemoveTemp]);
    } else if !works(SinkAction::Flush) {
        assert(taken =~= seq![SinkAction::Flush, SinkAction::RemoveTemp]);
    } else if !works(SinkAction::Sync) {
        assert(taken =~= seq![SinkAction::Flush, SinkAction::Sync, SinkAction::RemoveTemp]);
    } else {
        assert(taken =~= seq![
            SinkAction::Flush,
            SinkAction::Sync,
            SinkAction::Rename,
            SinkAction::RemoveTemp,
        ]);
        assert(taken[2] == SinkAction::Rename);
    }
}

/// After a step before the clean-up has failed, nothing is tried but the clean-up.
pub proof fn law_first_failure_ends_the_commit(
    to_file: bool,
    failed: SinkAction,
    works: spec_fn(SinkAction) -> bool,
)
    requires
        !works(failed),
    ensures
        ({
            let later = steps_taken(to_file, next_step(to_file, failed, works(failed)), works);
            later == if to_file && failed != SinkAction::RemoveTemp {
                seq![SinkAction::RemoveTemp]
            } else {
                seq![]
            }
        }),
{
    reveal_with_fuel(steps_taken, 3);
    let later = steps_taken(to_file, next_step(to_file, failed, works(failed)), works);
    if to_file && failed != SinkAction::RemoveTemp {
        assert(later =~= seq![SinkAction::RemoveTemp]);
    } else {
        assert(later =~= seq![]);
    }
}

/// The digits of byte `i` stand in places 2 `i` and 2 `i` + 1, the high one first.
pub proof fn law_hex_digits(bytes: Seq<u8>, i: int)
    requires
        0 <= i < bytes.len(),
    ensures
        ({
            let digits = seq![
                '0', '1', '2', '3', '4', '5', '6', '7', '8', '9', 'a', 'b', 'c', 'd', 'e', 'f',
            ];
            &&& hex_text(bytes).len() == 2 * bytes.len()
            &&& hex_text(bytes)[2 * i] == digits[bytes[i] as int / 16]
            &&& hex_text(bytes)[2 * i + 1] == digits[bytes[i] as int % 16]
        }),
    decreases bytes.len(),
{
    lemma_hex_len(bytes);
    lemma_hex_len(bytes.drop_last());
    if i < bytes.len() - 1 {
        law_hex_digits(bytes.drop_last(), i);
    }
}

/// How the ending of an output goes on from each step.
pub proof fn law_sink_steps(to_file: bool, done: SinkAction, succeeded: bool)
    ensures
        first_step(to_file, true) == Some(SinkAction::Flush),
        first_step(true, false) == Some(SinkAction::RemoveTemp),
        first_step(false, false) == None::<SinkAction>,
        next_step(false, done, succeeded) == None::<SinkAction>,
        next_step(true, SinkAction::Flush, true) == Some(SinkAction::Sync),
        next_step(true, SinkAction::Sync, true) == Some(SinkAction::Rename),
        next_step(true, SinkAction::Rename, succeeded) == Some(SinkAction::RemoveTemp),
        next_step(true, SinkAction::Flush, false) == Some(SinkAction::RemoveTemp),
        next_step(true, SinkAction::Sync, false) == Some(SinkAction::RemoveTemp),
        next_step(to_file, SinkAction::RemoveTemp, succeeded) == None::<SinkAction>,
{
}

} // verus!
