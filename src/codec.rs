use crate::document::{ConfigError, Document};
use crate::value::{
    doc_wf, first_key_at, key_index, lemma_key_at, same_value, unique_keys, value_wf, ConfigValue,
};
use vstd::prelude::*;

verus! {

broadcast use vstd::std_specs::vec::group_vec_axioms;

#[verifier::external_type_specification]
#[verifier::external_body]
pub struct ExTomlValue(toml::Value);

#[verifier::external_type_specification]
#[verifier::external_body]
pub struct ExTomlDeError(toml::de::Error);

#[verifier::external_type_specification]
#[verifier::external_body]
pub struct ExTomlSerError(toml::ser::Error);

/// A parsed TOML value as plain data; floats, datetimes and arrays are
/// `Other`.
pub enum TomlTree {
    Integer(i64),
    String(String),
    Boolean(bool),
    Table(Vec<(String, TomlTree)>),
    Other,
}

/// What TOML text parses to, or `None` when it is not well-formed TOML.
pub uninterp spec fn toml_parsed(text: Seq<char>) -> Option<TomlTree>;

/// The TOML text of a document, or `None` when the TOML writer refuses it.
pub uninterp spec fn toml_rendered(doc: Seq<(String, ConfigValue)>) -> Option<Seq<char>>;

/// Every table within `t` has unique keys.
pub open spec fn tree_wf(t: TomlTree) -> bool
    decreases t,
{
    match t {
        TomlTree::Table(x) => {
            &&& forall|i: int, j: int|
                0 <= i < x@.len() && 0 <= j < x@.len() && i != j ==> (#[trigger] x@[i]).0@ != (
                #[trigger] x@[j]).0@
            &&& forall|i: int| 0 <= i < x@.len() ==> tree_wf((#[trigger] x@[i]).1)
        },
        _ => true,
    }
}

/// `t` holds only values that a configuration value can hold.
pub open spec fn supported(t: TomlTree) -> bool
    decreases t,
{
    match t {
        TomlTree::Other => false,
        TomlTree::Table(x) => forall|i: int| 0 <= i < x@.len() ==> supported((#[trigger] x@[i]).1),
        _ => true,
    }
}

/// `v` is the configuration value that tree `t` stands for: same kinds, same
/// scalars, same keys in the same order.
pub open spec fn converts(t: TomlTree, v: ConfigValue) -> bool
    decreases t,
{
    match (t, v) {
        (TomlTree::Integer(a), ConfigValue::Integer(b)) => a == b,
        (TomlTree::String(a), ConfigValue::String(b)) => a@ == b@,
        (TomlTree::Boolean(a), ConfigValue::Boolean(b)) => a == b,
        (TomlTree::Table(x), ConfigValue::Table(y)) => {
            &&& x@.len() == y@.len()
            &&& forall|i: int|
                0 <= i < x@.len() ==> {
                    &&& (#[trigger] x@[i]).0@ == y@[i].0@
                    &&& converts(x@[i].1, y@[i].1)
                }
        },
        _ => false,
    }
}

/// Relies on the variants of toml::Value and on toml::map::Map's
/// `IntoIterator`: moves every payload into the same shape of `TomlTree`.
#[verifier::external_body]
fn toml_tree(v: toml::Value) -> TomlTree {
    match v {
        toml::Value::Integer(i) => TomlTree::Integer(i),
        toml::Value::String(s) => TomlTree::String(s),
        toml::Value::Boolean(b) => TomlTree::Boolean(b),
        toml::Value::Table(t) => TomlTree::Table(t.into_iter().map(|(k, x)| (k, toml_tree(x))).collect()),
        toml::Value::Float(_) => TomlTree::Other,
        toml::Value::Datetime(_) => TomlTree::Other,
        toml::Value::Array(_) => TomlTree::Other,
    }
}

/// Relies on toml::from_str: what TOML text parses to depends on the text
/// alone, and a table's keys (those of a `toml::map::Map`) are unique.
#[verifier::external_body]
fn parse_toml(text: &str) -> (r: Result<TomlTree, toml::de::Error>)
    ensures
        match toml_parsed(text@) {
            Some(t) => r is Ok && r->Ok_0 == t && tree_wf(t),
            None => r is Err,
        },
{
    toml::from_str::<toml::Value>(text).map(toml_tree)
}

/// Relies on the variants of toml::Value and on toml::map::Map's
/// `FromIterator`: builds the TOML value of the same shape.
#[verifier::external_body]
fn toml_of(v: &ConfigValue) -> toml::Value {
    match v {
        ConfigValue::Integer(i) => toml::Value::Integer(*i),
        ConfigValue::String(s) => toml::Value::String(s.clone()),
        ConfigValue::Boolean(b) => toml::Value::Boolean(*b),
        ConfigValue::Table(t) => toml::Value::Table(t.iter().map(|(k, x)| (k.clone(), toml_of(x))).collect()),
    }
}

/// Relies on toml::to_string: the TOML text of the document's table depends
/// on the document alone.
#[verifier::external_body]
fn render_toml(doc: &Document) -> (r: Result<String, toml::ser::Error>)
    ensures
        match toml_rendered(doc@) {
            Some(s) => r is Ok && r->Ok_0@ == s,
            None => r is Err,
        },
{
    toml::to_string(&toml::Value::Table(doc.iter().map(|(k, x)| (k.clone(), toml_of(x))).collect()))
}

/// The configuration value that tree `t` stands for, if it holds only
/// supported kinds.
pub fn value_from_tree(t: &TomlTree) -> (r: Option<ConfigValue>)
    ensures
        match r {
            Some(v) => supported(*t) && converts(*t, v),
            None => !supported(*t),
        },
    decreases t,
{
    match t {
        TomlTree::Integer(i) => Some(ConfigValue::Integer(*i)),
        TomlTree::String(s) => Some(ConfigValue::String(s.clone())),
        TomlTree::Boolean(b) => Some(ConfigValue::Boolean(*b)),
        TomlTree::Table(x) => match entries_from_tree(x) {
            Some(y) => Some(ConfigValue::Table(y)),
            None => None,
        },
        TomlTree::Other => None,
    }
}

/// Converts the entries of a parsed table, in order.
fn entries_from_tree(x: &Vec<(String, TomlTree)>) -> (r: Option<Vec<(String, ConfigValue)>>)
    ensures
        match r {
            Some(y) => supported(TomlTree::Table(*x)) && converts(
                TomlTree::Table(*x),
                ConfigValue::Table(y),
            ),
            None => !supported(TomlTree::Table(*x)),
        },
    decreases x, 0int,
{
    let mut out: Vec<(String, ConfigValue)> = Vec::new();
    let mut i: usize = 0;
    while i < x.len()
        invariant
            i <= x@.len(),
            out@.len() == i,
            forall|k: int| 0 <= k < i ==> supported((#[trigger] x@[k]).1),
            forall|k: int|
                0 <= k < i ==> {
                    &&& (#[trigger] x@[k]).0@ == out@[k].0@
                    &&& converts(x@[k].1, out@[k].1)
                },
        decreases x@.len() - i,
    {
        proof {
            let e = x@[i as int];
            assert(decreases_to!(*x => x@));
            assert(decreases_to!(x@ => e));
            assert(decreases_to!(e => e.1));
        }
        match value_from_tree(&x[i].1) {
            Some(v) => out.push((x[i].0.clone(), v)),
            None => {
                assert(!supported(x@[i as int].1));
                let ghost tx = TomlTree::Table(*x);
                assert(tx->Table_0@[i as int] == x@[i as int]);
                assert(!supported(tx));
                return None;
            },
        }
        i += 1;
    }
    Some(out)
}

/// A value converted from a well-formed tree is well-formed.
pub proof fn lemma_converts_wf(t: TomlTree, v: ConfigValue)
    requires
        converts(t, v),
        tree_wf(t),
    ensures
        value_wf(v),
    decreases t,
{
    if let TomlTree::Table(x) = t {
        let y = v->Table_0;
        assert forall|i: int| 0 <= i < y@.len() implies value_wf((#[trigger] y@[i]).1) by {
            let e = x@[i];
            assert(decreases_to!(x => x@));
            assert(decreases_to!(x@ => e));
            lemma_converts_wf(x@[i].1, y@[i].1);
        }
        assert(unique_keys(y@)) by {
            assert forall|i: int, j: int|
                0 <= i < y@.len() && 0 <= j < y@.len() && i != j implies (#[trigger] y@[i]).0@
                != (#[trigger] y@[j]).0@ by {
                assert(x@[i].0@ != x@[j].0@);
            }
        }
    }
}

/// Two values converted from one tree are equal, when one is well-formed.
pub proof fn lemma_converts_same(t: TomlTree, a: ConfigValue, b: ConfigValue)
    requires
        converts(t, a),
        converts(t, b),
        value_wf(a),
    ensures
        same_value(a, b),
    decreases t,
{
    if let TomlTree::Table(z) = t {
        let x = a->Table_0;
        let y = b->Table_0;
        assert forall|i: int| 0 <= i < x@.len() implies match key_index(y@, (#[trigger] x@[i]).0@) {
            Some(j) => same_value(x@[i].1, y@[j].1),
            None => false,
        } by {
            assert(first_key_at(y@, x@[i].0@, i)) by {
                assert forall|j: int| 0 <= j < i implies (#[trigger] y@[j]).0@ != x@[i].0@ by {
                    assert(z@[j].0@ == y@[j].0@ && z@[j].0@ == x@[j].0@);
                    assert(z@[i].0@ == y@[i].0@ && z@[i].0@ == x@[i].0@);
                    assert(x@[j].0@ != x@[i].0@);
                }
            }
            lemma_key_at(y@, x@[i].0@, i);
            let e = z@[i];
            assert(decreases_to!(z => z@));
            assert(decreases_to!(z@ => e));
            assert(value_wf(x@[i].1));
            lemma_converts_same(z@[i].1, x@[i].1, y@[i].1);
        }
        assert forall|j: int| 0 <= j < y@.len() implies key_index(x@, (#[trigger] y@[j]).0@) is Some by {
            assert(z@[j].0@ == y@[j].0@ && z@[j].0@ == x@[j].0@);
            assert(first_key_at(x@, y@[j].0@, j)) by {
                assert forall|k: int| 0 <= k < j implies (#[trigger] x@[k]).0@ != y@[j].0@ by {
                    assert(z@[j].0@ == y@[j].0@ && z@[j].0@ == x@[j].0@);
                    assert(z@[k].0@ == y@[k].0@ && z@[k].0@ == x@[k].0@);
                    assert(x@[k].0@ != x@[j].0@);
                }
            }
            lemma_key_at(x@, y@[j].0@, j);
        }
    }
}

/// Parsing the same text twice gives equal documents.
pub proof fn lemma_parse_twice_equal(text: Seq<char>, a: Document, b: Document)
    requires
        toml_parsed(text) is Some,
        converts(toml_parsed(text)->Some_0, ConfigValue::Table(a)),
        converts(toml_parsed(text)->Some_0, ConfigValue::Table(b)),
        doc_wf(a@),
    ensures
        same_value(ConfigValue::Table(a), ConfigValue::Table(b)),
{
    lemma_converts_same(toml_parsed(text)->Some_0, ConfigValue::Table(a), ConfigValue::Table(b));
}

/// Parses configuration text into a document. Empty text, text that is not
/// well-formed TOML, and text holding a value of a kind a configuration value
/// cannot hold (float, datetime, array) give `ParseError`; otherwise the
/// document is what the text parses to, unchanged.
pub fn parse_document(text: &str) -> (r: Result<Document, ConfigError>)
    ensures
        text@.len() == 0 ==> r == Err::<Document, ConfigError>(ConfigError::ParseError),
        text@.len() > 0 ==> match toml_parsed(text@) {
            None => r == Err::<Document, ConfigError>(ConfigError::ParseError),
            Some(t) => if t is Table && supported(t) {
                r is Ok && converts(t, ConfigValue::Table(r->Ok_0))
            } else {
                r == Err::<Document, ConfigError>(ConfigError::ParseError)
            },
        },
        r is Ok ==> doc_wf(r->Ok_0@),
{
    if text.is_empty() {
        return Err(ConfigError::ParseError);
    }
    let tree = match parse_toml(text) {
        Ok(t) => t,
        Err(_) => {
            return Err(ConfigError::ParseError);
        },
    };
    match &tree {
        TomlTree::Table(x) => match entries_from_tree(x) {
            Some(d) => {
                proof {
                    lemma_converts_wf(tree, ConfigValue::Table(d));
                }
                Ok(d)
            },
            None => Err(ConfigError::ParseError),
        },
        _ => Err(ConfigError::ParseError),
    }
}

/// What rendering `doc` gives: its TOML text, or `SerializeError` when the
/// TOML writer refuses it.
pub open spec fn rendered(doc: Seq<(String, ConfigValue)>, r: Result<String, ConfigError>) -> bool {
    match toml_rendered(doc) {
        Some(s) => r is Ok && r->Ok_0@ == s,
        None => r == Err::<String, ConfigError>(ConfigError::SerializeError),
    }
}

/// Renders a document as configuration text.
pub fn render_document(doc: &Document) -> (r: Result<String, ConfigError>)
    ensures
        rendered(doc@, r),
{
    match render_toml(doc) {
        Ok(s) => Ok(s),
        Err(_) => Err(ConfigError::SerializeError),
    }
}

} // verus!
