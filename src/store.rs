use crate::codec::{render_document, rendered, toml_rendered};
use crate::document::{default_document, is_default_document, ConfigError};
use vstd::prelude::*;

verus! {

/// The text of a freshly bootstrapped configuration file: the TOML text of
/// the default document.
pub fn default_config_text() -> (r: Result<String, ConfigError>)
    ensures
        exists|d: Seq<(String, crate::value::ConfigValue)>| is_default_document(d) && rendered(d, r),
{
    let d = default_document();
    let r = render_document(&d);
    assert(is_default_document(d@) && rendered(d@, r));
    r
}

/// What a load writes before reading: the default text when no file exists,
/// nothing when one does. An existing file is never rewritten, whatever it
/// holds.
pub fn bootstrap_content(file_exists: bool) -> (r: Result<Option<String>, ConfigError>)
    ensures
        file_exists ==> r == Ok::<Option<String>, ConfigError>(None),
        !file_exists ==> exists|d: Seq<(String, crate::value::ConfigValue)>|
            {
                &&& is_default_document(d)
                &&& match toml_rendered(d) {
                    Some(s) => r is Ok && r->Ok_0 is Some && r->Ok_0->Some_0@ == s,
                    None => r == Err::<Option<String>, ConfigError>(ConfigError::SerializeError),
                }
            },
{
    if file_exists {
        return Ok(None);
    }
    let t = default_config_text();
    match t {
        Ok(text) => Ok(Some(text)),
        Err(e) => Err(e),
    }
}

/// The line a logging load prints.
pub fn path_message(path: &str) -> (r: String)
    ensures
        r@ == "Config file is "@ + path@,
{
    String::from_str("Config file is ").concat(path)
}

} // verus!
