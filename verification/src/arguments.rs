//! What callers hand in: C strings, command-line options, the passphrase.
use vstd::prelude::*;
use vstd::utf8::encode_utf8;

use crate::policy;
use crate::policy::Argon2Level;

verus! {

/// A C string as it came in.
pub enum CText {
    /// The null pointer.
    Null,
    /// Bytes that are not UTF-8.
    NotUtf8,
    Text(String),
}

/// The contents of a `CText`.
pub enum CTextModel {
    Null,
    NotUtf8,
    Text(Seq<char>),
}

impl View for CText {
    type V = CTextModel;

    open spec fn view(&self) -> CTextModel {
        match self {
            CText::Null => CTextModel::Null,
            CText::NotUtf8 => CTextModel::NotUtf8,
            CText::Text(text) => CTextModel::Text(text@),
        }
    }
}

impl CTextModel {
    /// The path that an argument called `field_name` stands for.
    pub open spec fn path(self, field_name: Seq<char>) -> Result<Seq<char>, Seq<char>> {
        match self {
            CTextModel::Null => Err(field_name + " pointer is null"@),
            CTextModel::NotUtf8 => Err(field_name + " is not valid UTF-8"@),
            CTextModel::Text(text) => Ok(text),
        }
    }

    /// The output path that an argument stands for; none if it is null or empty.
    pub open spec fn optional_path(self) -> Result<Option<Seq<char>>, Seq<char>> {
        match self {
            CTextModel::Null => Ok(None),
            CTextModel::NotUtf8 => Err("output is not valid UTF-8"@),
            CTextModel::Text(text) => if text.len() == 0 {
                Ok(None)
            } else {
                Ok(Some(text))
            },
        }
    }

    /// The passphrase that an argument stands for.
    pub open spec fn password(self) -> Result<Seq<u8>, Seq<char>> {
        match self {
            CTextModel::Null => Err("password pointer is null"@),
            CTextModel::NotUtf8 => Err("password is not valid UTF-8"@),
            CTextModel::Text(text) => if text.len() == 0 {
                Err("password cannot be empty"@)
            } else {
                Ok(encode_utf8(text))
            },
        }
    }
}

/// The path that an argument called `field_name` stands for.
pub fn cstr_to_path(argument: CText, field_name: &str) -> (r: Result<String, String>)
    ensures
        argument is Null ==> (r matches Err(e) && e@ == field_name@ + " pointer is null"@),
        argument is NotUtf8 ==> (r matches Err(e) && e@ == field_name@ + " is not valid UTF-8"@),
        argument matches CText::Text(text) ==> (r matches Ok(path) && path@ == text@),
        r matches Ok(path) ==> argument@.path(field_name@) == Ok::<Seq<char>, Seq<char>>(path@),
        r matches Err(e) ==> argument@.path(field_name@) == Err::<Seq<char>, Seq<char>>(e@),
{
    match argument {
        CText::Null => Err(field_name.to_string().concat(" pointer is null")),
        CText::NotUtf8 => Err(field_name.to_string().concat(" is not valid UTF-8")),
        CText::Text(text) => Ok(text),
    }
}

/// The output path that an argument stands for; none if it is null or empty.
pub fn cstr_to_optional_path(argument: CText) -> (r: Result<Option<String>, String>)
    ensures
        argument is Null ==> (r matches Ok(path) && path is None),
        argument is NotUtf8 ==> (r matches Err(e) && e@ == "output is not valid UTF-8"@),
        argument matches CText::Text(text) ==> (text@.len() == 0 ==> (r matches Ok(path) && path
            is None)),
        argument matches CText::Text(text) ==> (text@.len() > 0 ==> (r matches Ok(Some(path))
            && path@ == text@)),
        r matches Ok(None) ==> argument@.optional_path() == Ok::<Option<Seq<char>>, Seq<char>>(
            None,
        ),
        r matches Ok(Some(path)) ==> argument@.optional_path() == Ok::<
            Option<Seq<char>>,
            Seq<char>,
        >(Some(path@)),
        r matches Err(e) ==> argument@.optional_path() == Err::<Option<Seq<char>>, Seq<char>>(e@),
{
    match argument {
        CText::Null => Ok(None),
        CText::NotUtf8 => Err("output is not valid UTF-8".to_string()),
        CText::Text(text) => if text.as_str().is_empty() {
            Ok(None)
        } else {
            Ok(Some(text))
        },
    }
}

/// The passphrase that an argument stands for.
pub fn cstr_to_password(argument: CText) -> (r: Result<Vec<u8>, String>)
    ensures
        argument is Null ==> (r matches Err(e) && e@ == "password pointer is null"@),
        argument is NotUtf8 ==> (r matches Err(e) && e@ == "password is not valid UTF-8"@),
        argument matches CText::Text(text) ==> (text@.len() == 0 ==> (r matches Err(e) && e@
            == "password cannot be empty"@)),
        argument matches CText::Text(text) ==> (text@.len() > 0 ==> (r matches Ok(password)
            && password@ == encode_utf8(text@))),
        r matches Ok(password) ==> argument@.password() == Ok::<Seq<u8>, Seq<char>>(password@),
        r matches Err(e) ==> argument@.password() == Err::<Seq<u8>, Seq<char>>(e@),
{
    match argument {
        CText::Null => Err("password pointer is null".to_string()),
        CText::NotUtf8 => Err("password is not valid UTF-8".to_string()),
        CText::Text(text) => if text.as_str().is_empty() {
            Err("password cannot be empty".to_string())
        } else {
            Ok(text.into_bytes())
        },
    }
}

/// A request to seal a file.
pub struct EncryptRequest {
    pub input: String,
    pub output: Option<String>,
    pub password: Vec<u8>,
    pub level: Argon2Level,
}

/// A request to open a file.
pub struct DecryptRequest {
    pub input: String,
    pub output: Option<String>,
    pub password: Vec<u8>,
}

/// The contents of an optional text.
pub open spec fn text_option(text: Option<String>) -> Option<Seq<char>> {
    match text {
        Some(text) => Some(text@),
        None => None,
    }
}

/// What is wrong with the arguments of a request to open a file; `None` if nothing is. Of
/// several faults the first one counts: input, output, passphrase.
pub open spec fn decrypt_fault(
    input: CTextModel,
    output: CTextModel,
    password: CTextModel,
) -> Option<Seq<char>> {
    match input.path("input_path"@) {
        Err(text) => Some(text),
        Ok(_) => match output.optional_path() {
            Err(text) => Some(text),
            Ok(_) => match password.password() {
                Err(text) => Some(text),
                Ok(_) => None,
            },
        },
    }
}

/// What is wrong with the arguments of a request to seal a file; `None` if nothing is. The
/// level counts last.
pub open spec fn encrypt_fault(
    input: CTextModel,
    output: CTextModel,
    password: CTextModel,
    level: u32,
) -> Option<Seq<char>> {
    match decrypt_fault(input, output, password) {
        Some(text) => Some(text),
        None => if level > 3 {
            Some("invalid level (expected 0=fast, 1=standard, 2=strong, 3=paranoid)"@)
        } else {
            None
        },
    }
}

/// The request to open a file that three C strings make.
pub fn decrypt_request(input: CText, output: CText, password: CText) -> (r: Result<
    DecryptRequest,
    String,
>)
    ensures
        r is Ok <==> input is Text && !(output is NotUtf8) && (password matches CText::Text(text)
            && text@.len() > 0),
        r matches Ok(request) ==> (input matches CText::Text(text) && request.input@ == text@),
        r matches Ok(request) ==> (output matches CText::Text(text) ==> (text@.len() > 0 ==> (
        request.output matches Some(path) && path@ == text@))),
        r matches Ok(request) ==> (output matches CText::Text(text) ==> (text@.len() == 0
            ==> request.output is None)),
        r matches Ok(request) ==> (output is Null ==> request.output is None),
        r matches Ok(request) ==> (password matches CText::Text(text) && text@.len() > 0
            && request.password@ == encode_utf8(text@)),
        r is Ok <==> decrypt_fault(input@, output@, password@) is None,
        r matches Err(e) ==> decrypt_fault(input@, output@, password@) == Some(e@),
        r matches Ok(request) ==> input@ == CTextModel::Text(request.input@)
            && output@.optional_path() == Ok::<Option<Seq<char>>, Seq<char>>(
            text_option(request.output),
        ) && password@.password() == Ok::<Seq<u8>, Seq<char>>(request.password@),
{
    let input: String = match cstr_to_path(input, "input_path") {
        Ok(path) => path,
        Err(e) => {
            return Err(e);
        },
    };
    let output: Option<String> = match cstr_to_optional_path(output) {
        Ok(path) => path,
        Err(e) => {
            return Err(e);
        },
    };
    let password: Vec<u8> = match cstr_to_password(password) {
        Ok(password) => password,
        Err(e) => {
            return Err(e);
        },
    };
    Ok(DecryptRequest { input, output, password })
}

/// The request to seal a file that three C strings and a level make.
pub fn encrypt_request(input: CText, output: CText, password: CText, level: u32) -> (r: Result<
    EncryptRequest,
    String,
>)
    ensures
        r is Ok <==> input is Text && !(output is NotUtf8) && (password matches CText::Text(text)
            && text@.len() > 0) && level <= 3,
        r matches Ok(request) ==> (input matches CText::Text(text) && request.input@ == text@),
        r matches Ok(request) ==> (output matches CText::Text(text) ==> (text@.len() > 0 ==> (
        request.output matches Some(path) && path@ == text@))),
        r matches Ok(request) ==> (output matches CText::Text(text) ==> (text@.len() == 0
            ==> request.output is None)),
        r matches Ok(request) ==> (output is Null ==> request.output is None),
        r matches Ok(request) ==> (password matches CText::Text(text) && text@.len() > 0
            && request.password@ == encode_utf8(text@)),
        r matches Ok(request) ==> {
            &&& level == 0 ==> request.level == Argon2Level::Fast
            &&& level == 1 ==> request.level == Argon2Level::Standard
            &&& level == 2 ==> request.level == Argon2Level::Strong
            &&& level == 3 ==> request.level == Argon2Level::Paranoid
        },
        r is Ok <==> encrypt_fault(input@, output@, password@, level) is None,
        r matches Err(e) ==> encrypt_fault(input@, output@, password@, level) == Some(e@),
        r matches Ok(request) ==> input@ == CTextModel::Text(request.input@)
            && output@.optional_path() == Ok::<Option<Seq<char>>, Seq<char>>(
            text_option(request.output),
        ) && password@.password() == Ok::<Seq<u8>, Seq<char>>(request.password@)
            && policy::level_number(request.level) == level,
{
    let request: DecryptRequest = match decrypt_request(input, output, password) {
        Ok(request) => request,
        Err(e) => {
            return Err(e);
        },
    };
    match policy::level_from_u32(level) {
        Ok(level) => Ok(
            EncryptRequest {
                input: request.input,
                output: request.output,
                password: request.password,
                level,
            },
        ),
        Err(e) => Err(e),
    }
}

/// Keeps the words of the last failure.
pub fn set_last_error(slot: &mut Option<String>, message: String)
    ensures
        *final(slot) == Some(message),
{
    *slot = Some(message);
}

/// Forgets the last failure.
pub fn clear_last_error(slot: &mut Option<String>)
    ensures
        *final(slot) == None::<String>,
{
    *slot = None;
}

/// The status code of a call, 0 for success and 1 for failure; the words of a failure are
/// kept, and a success makes the last failure forgotten.
pub fn finish_call(slot: &mut Option<String>, result: Result<(), String>) -> (status: i32)
    ensures
        result is Ok ==> status == 0 && *final(slot) == None::<String>,
        result matches Err(e) ==> status == 1 && *final(slot) == Some(e),
{
    match result {
        Ok(()) => {
            clear_last_error(slot);
            0
        },
        Err(e) => {
            set_last_error(slot, e);
            1
        },
    }
}

/// The passphrase, where the command line or else the environment has one.
pub fn passphrase_without_prompt(cli_password: Option<String>, env_password: Option<String>) -> (r:
    Option<Vec<u8>>)
    ensures
        r is Some <==> cli_password is Some || env_password is Some,
        r matches Some(bytes) ==> bytes@ == encode_utf8(
            match cli_password {
                Some(given) => given@,
                None => env_password->Some_0@,
            },
        ),
{
    match cli_password {
        Some(given) => Some(given.into_bytes()),
        None => match env_password {
            Some(given) => Some(given.into_bytes()),
            None => None,
        },
    }
}

/// The passphrase that the prompt brought, or the words of the terminal's failure.
pub fn passphrase_from_prompt(answer: Result<String, String>) -> (r: Result<Vec<u8>, String>)
    ensures
        answer matches Err(cause) ==> (r matches Err(e) && e@
            == "passphrase required: could not read from terminal ("@ + cause@
            + "); use --password / -p or set SEALD_PASSWORD"@),
        answer matches Ok(text) ==> if text@.len() == 0 {
            r matches Err(e) && e@ == "passphrase cannot be empty"@
        } else {
            r matches Ok(bytes) && bytes@ == encode_utf8(text@)
        },
{
    match answer {
        Err(cause) => {
            let mut text: String = "passphrase required: could not read from terminal (".to_string();
            text.append(cause.as_str());
            text.append("); use --password / -p or set SEALD_PASSWORD");
            Err(text)
        },
        Ok(text) => if text.as_str().is_empty() {
            Err("passphrase cannot be empty".to_string())
        } else {
            Ok(text.into_bytes())
        },
    }
}

/// What a C string stands for, whatever it holds: a path is the text as it is; an output path is
/// the text as it is, or none where there is no text; a passphrase is the bytes of the text, and
/// has to be there.
pub proof fn law_c_strings(text: Seq<char>, field_name: Seq<char>)
    ensures
        CTextModel::Null.path(field_name) == Err::<Seq<char>, Seq<char>>(
            field_name + " pointer is null"@,
        ),
        CTextModel::NotUtf8.path(field_name) == Err::<Seq<char>, Seq<char>>(
            field_name + " is not valid UTF-8"@,
        ),
        CTextModel::Text(text).path(field_name) == Ok::<Seq<char>, Seq<char>>(text),
        CTextModel::Null.optional_path() == Ok::<Option<Seq<char>>, Seq<char>>(None),
        CTextModel::NotUtf8.optional_path() == Err::<Option<Seq<char>>, Seq<char>>(
            "output is not valid UTF-8"@,
        ),
        text.len() == 0 ==> CTextModel::Text(text).optional_path() == Ok::<
            Option<Seq<char>>,
            Seq<char>,
        >(None),
        text.len() > 0 ==> CTextModel::Text(text).optional_path() == Ok::<
            Option<Seq<char>>,
            Seq<char>,
        >(Some(text)),
        CTextModel::Null.password() == Err::<Seq<u8>, Seq<char>>("password pointer is null"@),
        CTextModel::NotUtf8.password() == Err::<Seq<u8>, Seq<char>>("password is not valid UTF-8"@),
        text.len() == 0 ==> CTextModel::Text(text).password() == Err::<Seq<u8>, Seq<char>>(
            "password cannot be empty"@,
        ),
        text.len() > 0 ==> CTextModel::Text(text).password() == Ok::<Seq<u8>, Seq<char>>(
            encode_utf8(text),
        ),
{
}

/// Which fault of a request is named: that of the input before that of the output, that of the
/// output before that of the passphrase, and that of the level last; none where all are well.
pub proof fn law_first_fault_is_named(
    input: CTextModel,
    output: CTextModel,
    password: CTextModel,
    level: u32,
)
    ensures
        input is Null ==> decrypt_fault(input, output, password) == Some(
            "input_path"@ + " pointer is null"@,
        ),
        input is NotUtf8 ==> decrypt_fault(input, output, password) == Some(
            "input_path"@ + " is not valid UTF-8"@,
        ),
        input is Text && output is NotUtf8 ==> decrypt_fault(input, output, password) == Some(
            "output is not valid UTF-8"@,
        ),
        input is Text && !(output is NotUtf8) && password is Null ==> decrypt_fault(
            input,
            output,
            password,
        ) == Some("password pointer is null"@),
        input is Text && !(output is NotUtf8) && password is NotUtf8 ==> decrypt_fault(
            input,
            output,
            password,
        ) == Some("password is not valid UTF-8"@),
        input is Text && !(output is NotUtf8) && password == CTextModel::Text(Seq::empty())
            ==> decrypt_fault(input, output, password) == Some("password cannot be empty"@),
        decrypt_fault(input, output, password) is None <==> input is Text && !(output is NotUtf8)
            && password is Text && password != CTextModel::Text(Seq::empty()),
        decrypt_fault(input, output, password) matches Some(text) ==> encrypt_fault(
            input,
            output,
            password,
            level,
        ) == Some(text),
        decrypt_fault(input, output, password) is None && level > 3 ==> encrypt_fault(
            input,
            output,
            password,
            level,
        ) == Some("invalid level (expected 0=fast, 1=standard, 2=strong, 3=paranoid)"@),
        decrypt_fault(input, output, password) is None && level <= 3 ==> encrypt_fault(
            input,
            output,
            password,
            level,
        ) is None,
{
    if let CTextModel::Text(text) = password {
        if text.len() == 0 {
            assert(text =~= Seq::empty());
        }
    }
}

/// What the contracts call the contents of arguments is what they hold.
pub proof fn law_arguments_are_contents(text: String)
    ensures
        CText::Null@ == CTextModel::Null,
        CText::NotUtf8@ == CTextModel::NotUtf8,
        CText::Text(text)@ == CTextModel::Text(text@),
        text_option(None) == None::<Seq<char>>,
        text_option(Some(text)) == Some(text@),
{
}

} // verus!
