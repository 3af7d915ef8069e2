use vstd::prelude::*;

use vstd::utf8::encode_utf8;

use crate::paths::{join_path_bytes, joined_bytes};
use crate::text::io_error_text;

verus! {

#[verifier::external_type_specification]
#[verifier::external_body]
pub struct ExJsonError(serde_json::Error);

/// Errors that can occur while loading or saving the config file.
#[derive(Debug)]
pub enum ConfigError {
    /// The OS config directory could not be determined.
    NoConfigDir,
    /// Filesystem read/write failure.
    Io(std::io::Error),
    /// The file existed but was not valid JSON matching the settings.
    Parse(serde_json::Error),
}

/// Calls `to_string` on a `serde_json::Error`: its description with the
/// line and column where it happened. The text is not stated.
#[verifier::external_body]
fn json_error_text(e: &serde_json::Error) -> String {
    e.to_string()
}

impl ConfigError {
    /// The human-readable description of the error: a fixed prefix, followed
    /// for I/O and parse errors by the underlying error's own text.
    pub fn message(&self) -> (text: String)
        ensures
            match self {
                ConfigError::NoConfigDir => text@ == "could not determine OS config directory"@,
                ConfigError::Io(_) => exists|detail: Seq<char>|
                    text@ == "config file I/O error: "@ + detail,
                ConfigError::Parse(_) => exists|detail: Seq<char>|
                    text@ == "config file parse error: "@ + detail,
            },
    {
        match self {
            ConfigError::NoConfigDir => String::from_str("could not determine OS config directory"),
            ConfigError::Io(e) => {
                let mut text = String::from_str("config file I/O error: ");
                let detail = io_error_text(e);
                text.append(detail.as_str());
                text
            },
            ConfigError::Parse(e) => {
                let mut text = String::from_str("config file parse error: ");
                let detail = json_error_text(e);
                text.append(detail.as_str());
                text
            },
        }
    }
}

/// Whether `name` is a non-empty run of lowercase ASCII letters: a name that
/// the directory lookup uses as it is, with nothing to lowercase or replace.
pub open spec fn plain_app_name(name: Seq<char>) -> bool {
    name.len() > 0 && forall|i: int| 0 <= i < name.len() ==> 'a' <= #[trigger] name[i] <= 'z'
}

/// Calls `directories::ProjectDirs::from("", "", application)` and hands back
/// the bytes of the project's config directory (`OsStr::as_encoded_bytes`:
/// a Unix path's own bytes). On Linux that directory is `$XDG_CONFIG_HOME`
/// or `$HOME/.config`, and on macOS `$HOME/Library/Application Support`,
/// joined with the project path, which for an empty qualifier and
/// organization and a plain name is the name itself; that is what is
/// stated. The base directory is never empty: on Linux it is either an
/// absolute `$XDG_CONFIG_HOME` or the home directory joined with `.config`,
/// on macOS the home directory joined with `Library/Application Support`.
/// Which directory it is comes from the environment and is not stated, nor
/// when one is found.
#[verifier::external_body]
fn project_config_dir(application: &str) -> (dir: Option<Vec<u8>>)
    requires
        plain_app_name(application@),
    ensures
        dir matches Some(d) ==> exists|base: Seq<u8>|
            base.len() > 0 && d@ == joined_bytes(base, encode_utf8(application@)),
{
    match directories::ProjectDirs::from("", "", application) {
        Some(dirs) => Some(dirs.config_dir().as_os_str().as_encoded_bytes().to_vec()),
        None => None,
    }
}

/// The config file's path inside the config directory `dir`, both as path
/// bytes.
pub fn config_path_in(dir: &[u8]) -> (path: Vec<u8>)
    ensures
        path@ == joined_bytes(dir@, encode_utf8("config.json"@)),
{
    join_path_bytes(dir, "config.json".as_bytes())
}

/// Path bytes of the config file, config.json in the OS config directory of
/// the application "keyclack" (~/Library/Application Support/keyclack on
/// macOS), or `NoConfigDir` when that directory cannot be determined.
pub fn config_path() -> (result: Result<Vec<u8>, ConfigError>)
    ensures
        match result {
            Ok(path) => exists|base: Seq<u8>|
                base.len() > 0 && path@ == joined_bytes(
                    joined_bytes(base, encode_utf8("keyclack"@)),
                    encode_utf8("config.json"@),
                ),
            Err(e) => e is NoConfigDir,
        },
{
    proof {
        reveal_strlit("keyclack");
    }
    match project_config_dir("keyclack") {
        Some(dir) => Ok(config_path_in(dir.as_slice())),
        None => Err(ConfigError::NoConfigDir),
    }
}

} // verus!
