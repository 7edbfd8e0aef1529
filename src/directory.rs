use crate::document::ConfigError;
use vstd::prelude::*;

verus! {

/// The configuration directory under home directory `home`.
pub open spec fn config_dir_path(home: Seq<char>) -> Seq<char> {
    home + "/.config/gim"@
}

/// The configuration file in configuration directory `dir`.
pub open spec fn config_file_path(dir: Seq<char>) -> Seq<char> {
    dir + "/config.toml"@
}

/// Relies on dirs::home_dir: the user's home directory, or `None` when the
/// host cannot supply one (a home that is not valid text counts as none).
#[verifier::external_body]
fn home_dir() -> Option<String> {
    match dirs::home_dir() {
        Some(p) => p.into_os_string().into_string().ok(),
        None => None,
    }
}

/// The configuration directory for home directory `home`.
pub fn config_dir_in(home: &str) -> (r: String)
    ensures
        r@ == config_dir_path(home@),
{
    String::from_str(home).concat("/.config/gim")
}

/// The configuration file in configuration directory `dir`.
pub fn config_file_in(dir: &str) -> (r: String)
    ensures
        r@ == config_file_path(dir@),
{
    String::from_str(dir).concat("/config.toml")
}

/// Resolves the configuration directory from the current home directory.
pub fn config_dir() -> (r: Result<String, ConfigError>)
    ensures
        match r {
            Ok(p) => exists|home: Seq<char>| p@ == config_dir_path(home),
            Err(e) => e == ConfigError::HomeNotFound,
        },
{
    match home_dir() {
        Some(home) => Ok(config_dir_in(home.as_str())),
        None => Err(ConfigError::HomeNotFound),
    }
}

/// Resolves the configuration file from the current home directory.
pub fn get_config_file() -> (r: Result<String, ConfigError>)
    ensures
        match r {
            Ok(p) => exists|home: Seq<char>| p@ == config_file_path(config_dir_path(home)),
            Err(e) => e == ConfigError::HomeNotFound,
        },
{
    match config_dir() {
        Ok(dir) => Ok(config_file_in(dir.as_str())),
        Err(e) => Err(e),
    }
}

} // verus!
