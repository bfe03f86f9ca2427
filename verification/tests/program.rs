//! The decisions of the program around the format.
use seald::arguments::{
    clear_last_error, cstr_to_optional_path, cstr_to_password, cstr_to_path, decrypt_request,
    encrypt_request, finish_call, passphrase_from_prompt, passphrase_without_prompt,
    set_last_error, CText,
};
use seald::output::{
    after_sink_step, after_temp_attempt, first_sink_step, hex_string, is_dash, opened_output,
    random_temp_suffix, sealed_output, sealed_suffix, temp_name, OutputChoice, SinkAction,
    TempOutcome, TempStep,
};
use seald::Argon2Level;

fn text(s: &str) -> CText {
    CText::Text(s.to_string())
}

#[test]
fn a_dash_is_one_dash() {
    assert!(is_dash("-"));
    assert!(!is_dash(""));
    assert!(!is_dash("--"));
    assert!(!is_dash("./-"));
}

#[test]
fn output_goes_where_it_should() {
    assert_eq!(sealed_output(Some(true), false), OutputChoice::Stdout);
    assert_eq!(sealed_output(Some(false), true), OutputChoice::Given);
    assert_eq!(sealed_output(None, true), OutputChoice::Stdout);
    assert_eq!(sealed_output(None, false), OutputChoice::BesideInput);
    assert_eq!(sealed_suffix(), ".sld");
    assert_eq!(opened_output(None), OutputChoice::Stdout);
    assert_eq!(opened_output(Some(true)), OutputChoice::Stdout);
    assert_eq!(opened_output(Some(false)), OutputChoice::Given);
}

#[test]
fn temporary_names() {
    assert_eq!(hex_string(&[0x00, 0x9f, 0xab, 0xff]), "009fabff");
    assert_eq!(hex_string(&[]), "");
    assert_eq!(hex_string(&[0x12, 0x34, 0x56, 0x78, 0xcd, 0xef]), "12345678cdef");
    assert_eq!(temp_name("out.bin", "0011"), ".out.bin.0011.tmp");
    let a = random_temp_suffix();
    assert_eq!(a.len(), 16);
    assert!(a.chars().all(|c| matches!(c, '0'..='9' | 'a'..='f')));
    assert_ne!(a, random_temp_suffix());
}

#[test]
fn temporary_names_are_tried_32_times() {
    assert_eq!(after_temp_attempt(0, TempOutcome::Created), TempStep::Use);
    assert_eq!(after_temp_attempt(0, TempOutcome::Failed), TempStep::Fail);
    assert_eq!(after_temp_attempt(0, TempOutcome::AlreadyExists), TempStep::TryAgain);
    assert_eq!(after_temp_attempt(30, TempOutcome::AlreadyExists), TempStep::TryAgain);
    assert_eq!(after_temp_attempt(31, TempOutcome::AlreadyExists), TempStep::GiveUp);
    assert_eq!(after_temp_attempt(u32::MAX, TempOutcome::AlreadyExists), TempStep::GiveUp);
}

/// The steps that end an output when all of them succeed but `broken`.
fn steps(to_file: bool, succeeded: bool, broken: Option<SinkAction>) -> Vec<SinkAction> {
    let mut taken = Vec::new();
    let mut next = first_sink_step(to_file, succeeded);
    while let Some(action) = next {
        taken.push(action);
        next = after_sink_step(to_file, action, Some(action) != broken);
    }
    taken
}

#[test]
fn only_a_success_renames() {
    let all =
        vec![SinkAction::Flush, SinkAction::Sync, SinkAction::Rename, SinkAction::RemoveTemp];
    assert_eq!(steps(true, true, None), all);
    assert_eq!(steps(true, true, Some(SinkAction::Rename)), all);
    assert_eq!(steps(true, true, Some(SinkAction::RemoveTemp)), all);
    assert_eq!(
        steps(true, true, Some(SinkAction::Sync)),
        vec![SinkAction::Flush, SinkAction::Sync, SinkAction::RemoveTemp]
    );
    assert_eq!(
        steps(true, true, Some(SinkAction::Flush)),
        vec![SinkAction::Flush, SinkAction::RemoveTemp]
    );
    assert_eq!(steps(true, false, None), vec![SinkAction::RemoveTemp]);
    assert_eq!(steps(false, true, None), vec![SinkAction::Flush]);
    assert_eq!(steps(false, true, Some(SinkAction::Flush)), vec![SinkAction::Flush]);
    assert_eq!(steps(false, false, None), vec![]);
}

#[test]
fn c_strings_become_paths() {
    assert_eq!(cstr_to_path(text("a/b"), "input_path"), Ok("a/b".to_string()));
    assert_eq!(cstr_to_path(text(""), "input_path"), Ok(String::new()));
    assert_eq!(
        cstr_to_path(CText::Null, "input_path"),
        Err("input_path pointer is null".to_string())
    );
    assert_eq!(
        cstr_to_path(CText::NotUtf8, "input_path"),
        Err("input_path is not valid UTF-8".to_string())
    );
    assert_eq!(cstr_to_optional_path(CText::Null), Ok(None));
    assert_eq!(cstr_to_optional_path(text("")), Ok(None));
    assert_eq!(cstr_to_optional_path(text("out")), Ok(Some("out".to_string())));
    assert_eq!(
        cstr_to_optional_path(CText::NotUtf8),
        Err("output is not valid UTF-8".to_string())
    );
}

#[test]
fn c_strings_become_passwords() {
    assert_eq!(cstr_to_password(text("p\u{e4}ss")), Ok(vec![b'p', 0xc3, 0xa4, b's', b's']));
    assert_eq!(cstr_to_password(text("")), Err("password cannot be empty".to_string()));
    assert_eq!(cstr_to_password(CText::Null), Err("password pointer is null".to_string()));
    assert_eq!(cstr_to_password(CText::NotUtf8), Err("password is not valid UTF-8".to_string()));
}

#[test]
fn the_first_fault_of_a_request_counts() {
    let request = encrypt_request(text("in"), text("out"), text("pw"), 3).ok().expect("request");
    assert_eq!(request.input, "in");
    assert_eq!(request.output, Some("out".to_string()));
    assert_eq!(request.password, b"pw");
    assert_eq!(request.level, Argon2Level::Paranoid);

    let fault = |input, output, password, level| encrypt_request(input, output, password, level).err();
    assert_eq!(
        fault(CText::Null, CText::NotUtf8, CText::Null, 9),
        Some("input_path pointer is null".to_string())
    );
    assert_eq!(
        fault(text("in"), CText::NotUtf8, CText::Null, 9),
        Some("output is not valid UTF-8".to_string())
    );
    assert_eq!(
        fault(text("in"), CText::Null, CText::Null, 9),
        Some("password pointer is null".to_string())
    );
    assert_eq!(
        fault(text("in"), CText::Null, text("pw"), 9),
        Some("invalid level (expected 0=fast, 1=standard, 2=strong, 3=paranoid)".to_string())
    );

    let request = decrypt_request(text("in"), CText::Null, text("pw")).ok().expect("request");
    assert_eq!(request.input, "in");
    assert_eq!(request.output, None);
    assert_eq!(request.password, b"pw");
    assert_eq!(
        decrypt_request(text("in"), CText::Null, text("")).err(),
        Some("password cannot be empty".to_string())
    );
}

#[test]
fn the_last_error_is_kept_until_a_success() {
    let mut slot = None;
    assert_eq!(finish_call(&mut slot, Err("bad".to_string())), 1);
    assert_eq!(slot, Some("bad".to_string()));
    assert_eq!(finish_call(&mut slot, Err("worse".to_string())), 1);
    assert_eq!(slot, Some("worse".to_string()));
    assert_eq!(finish_call(&mut slot, Ok(())), 0);
    assert_eq!(slot, None);
    set_last_error(&mut slot, "again".to_string());
    assert_eq!(slot, Some("again".to_string()));
    clear_last_error(&mut slot);
    assert_eq!(slot, None);
}

#[test]
fn the_command_line_comes_before_the_environment() {
    let some = |s: &str| Some(s.to_string());
    assert_eq!(passphrase_without_prompt(some("cli"), some("env")), Some(b"cli".to_vec()));
    assert_eq!(passphrase_without_prompt(None, some("env")), Some(b"env".to_vec()));
    assert_eq!(passphrase_without_prompt(some(""), some("env")), Some(vec![]));
    assert_eq!(passphrase_without_prompt(None, None), None);
}

#[test]
fn the_prompt_comes_last() {
    assert_eq!(passphrase_from_prompt(Ok("typed".to_string())), Ok(b"typed".to_vec()));
    assert_eq!(
        passphrase_from_prompt(Ok(String::new())),
        Err("passphrase cannot be empty".to_string())
    );
    assert_eq!(
        passphrase_from_prompt(Err("no tty".to_string())),
        Err(
            "passphrase required: could not read from terminal (no tty); use --password / -p or set SEALD_PASSWORD"
                .to_string()
        )
    );
}
