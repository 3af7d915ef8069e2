use vstd::prelude::*;

use vstd::utf8::encode_utf8;

use crate::paths::{join_path_bytes, joined_bytes};
use crate::text::{decimal, io_error_text, push_decimal};

verus! {

/// Reverse-DNS label used for the LaunchAgent.
pub const LAUNCH_AGENT_LABEL: &'static str = "com.keyclack.agent";

/// Errors that can occur while installing or uninstalling the login item.
#[derive(Debug)]
pub enum LoginItemError {
    NoHomeDir,
    Io(std::io::Error),
    /// launchctl exited non-zero.
    LaunchctlFailed { code: Option<i32>, stderr: String },
    /// The path of the running executable could not be determined.
    ExePathUnknown,
}

/// The text shown for an exit code, as `{:?}` prints an `Option<i32>`.
pub open spec fn exit_code_text(code: Option<i32>) -> Seq<char> {
    match code {
        Some(c) => "Some("@ + decimal(c as int) + ")"@,
        None => "None"@,
    }
}

/// Whether `text` is the description of the error `e`. An I/O error's
/// description is the prefix followed by the operating system's text.
pub open spec fn describes(e: LoginItemError, text: Seq<char>) -> bool {
    match e {
        LoginItemError::NoHomeDir => text == "could not determine home directory"@,
        LoginItemError::Io(_) => exists|detail: Seq<char>| text == "login item I/O error: "@ + detail,
        LoginItemError::LaunchctlFailed { code, stderr } => text == "launchctl failed (code "@
            + exit_code_text(code) + "): "@ + stderr@,
        LoginItemError::ExePathUnknown => text == "could not determine current executable path"@,
    }
}

impl LoginItemError {
    /// The human-readable description of the error. For an I/O error the
    /// operating system's description follows the prefix.
    pub fn message(&self) -> (text: String)
        ensures
            describes(*self, text@),
    {
        match self {
            LoginItemError::NoHomeDir => String::from_str("could not determine home directory"),
            LoginItemError::Io(e) => {
                let mut text = String::from_str("login item I/O error: ");
                let detail = io_error_text(e);
                text.append(detail.as_str());
                text
            },
            LoginItemError::LaunchctlFailed { code, stderr } => {
                let mut text = String::from_str("launchctl failed (code ");
                match code {
                    Some(c) => {
                        text.append("Some(");
                        push_decimal(&mut text, *c as i64);
                        text.append(")");
                    },
                    None => {
                        text.append("None");
                    },
                }
                text.append("): ");
                text.append(stderr.as_str());
                assert(text@ =~= "launchctl failed (code "@ + exit_code_text(*code) + "): "@
                    + stderr@);
                text
            },
            LoginItemError::ExePathUnknown => String::from_str(
                "could not determine current executable path",
            ),
        }
    }
}

/// The plist's path, as the bytes of a Unix path, for the home directory
/// `home`: `<home>/Library/LaunchAgents/com.keyclack.agent.plist`.
pub open spec fn plist_path_for(home: Seq<u8>) -> Seq<u8> {
    joined_bytes(
        joined_bytes(home, encode_utf8("Library/LaunchAgents"@)),
        encode_utf8(LAUNCH_AGENT_LABEL@ + ".plist"@),
    )
}

/// The plist's path inside the home directory `home`, both as path bytes.
pub fn plist_path_in(home: &[u8]) -> (path: Vec<u8>)
    ensures
        path@ == plist_path_for(home@),
{
    let dir = join_path_bytes(home, "Library/LaunchAgents".as_bytes());
    let mut file = String::from_str(LAUNCH_AGENT_LABEL);
    file.append(".plist");
    join_path_bytes(dir.as_slice(), file.as_str().as_bytes())
}

/// Calls `directories::BaseDirs::new()` and hands back the bytes of the home
/// directory it found (`OsStr::as_encoded_bytes`: a Unix path's own bytes).
/// What it finds depends on the environment and is not stated.
#[verifier::external_body]
fn home_dir_bytes() -> Option<Vec<u8>> {
    match directories::BaseDirs::new() {
        Some(dirs) => Some(dirs.home_dir().as_os_str().as_encoded_bytes().to_vec()),
        None => None,
    }
}

/// Calls `std::path::Path::exists` on the path with the bytes `path`, read
/// as UTF-8 (invalid sequences are replaced). Whether the file is there
/// depends on the disk and is not stated.
#[verifier::external_body]
fn path_exists(path: &[u8]) -> bool {
    std::path::Path::new(&*String::from_utf8_lossy(path)).exists()
}

/// ~/Library/LaunchAgents/com.keyclack.agent.plist as path bytes, or
/// `NoHomeDir` when the home directory cannot be determined.
pub fn plist_path() -> (result: Result<Vec<u8>, LoginItemError>)
    ensures
        match result {
            Ok(path) => exists|home: Seq<u8>| path@ == plist_path_for(home),
            Err(e) => e is NoHomeDir,
        },
{
    match home_dir_bytes() {
        Some(home) => Ok(plist_path_in(home.as_slice())),
        None => Err(LoginItemError::NoHomeDir),
    }
}

/// True if the plist file exists; `NoHomeDir` when the home directory cannot
/// be determined.
pub fn is_installed() -> (result: Result<bool, LoginItemError>)
    ensures
        result matches Err(e) ==> e is NoHomeDir,
{
    let path = plist_path()?;
    Ok(path_exists(path.as_slice()))
}

/// The LaunchAgent plist text that starts the executable at `exe_path` at
/// login.
pub open spec fn plist_text(exe_path: Seq<char>) -> Seq<char> {
    PLIST_HEAD@ + LAUNCH_AGENT_LABEL@ + PLIST_MIDDLE@ + exe_path + PLIST_TAIL@
}

/// The plist text up to the label.
pub const PLIST_HEAD: &'static str = "<?xml version=\"1.0\" encoding=\"UTF-8\"?>
<!DOCTYPE plist PUBLIC \"-//Apple//DTD PLIST 1.0//EN\" \"http://www.apple.com/DTDs/PropertyList-1.0.dtd\">
<plist version=\"1.0\">
<dict>
    <key>Label</key>
    <string>";

/// The plist text between the label and the executable path.
pub const PLIST_MIDDLE: &'static str = "</string>
    <key>ProgramArguments</key>
    <array>
        <string>";

/// The plist text after the executable path.
pub const PLIST_TAIL: &'static str = "</string>
    </array>
    <key>RunAtLoad</key>
    <true/>
    <key>KeepAlive</key>
    <false/>
</dict>
</plist>
";

/// The LaunchAgent plist that starts the executable at `exe_path` at login.
pub fn plist_contents(exe_path: &str) -> (text: String)
    ensures
        text@ == plist_text(exe_path@),
{
    let mut text = String::from_str(PLIST_HEAD);
    text.append(LAUNCH_AGENT_LABEL);
    text.append(PLIST_MIDDLE);
    text.append(exe_path);
    text.append(PLIST_TAIL);
    text
}

/// The outcome of a `launchctl` run: success, or `LaunchctlFailed` with its
/// exit code and standard error when it exited non-zero.
pub fn launchctl_outcome(success: bool, code: Option<i32>, stderr: String) -> (result: Result<
    (),
    LoginItemError,
>)
    ensures
        success ==> result is Ok,
        !success ==> (result matches Err(LoginItemError::LaunchctlFailed { code: c, stderr: s })
            && c == code && s == stderr),
{
    if success {
        Ok(())
    } else {
        Err(LoginItemError::LaunchctlFailed { code, stderr })
    }
}

} // verus!
