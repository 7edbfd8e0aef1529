use crate::value::{
    doc_wf, find_key, first_key_at, key_index, unique_keys, value_wf, lemma_key_at, lemma_key_occurs, lemma_same_keys, same_value,
    table_get, value_eq, ConfigValue,
};
use vstd::prelude::*;

verus! {

broadcast use vstd::std_specs::vec::group_vec_axioms;

/// A configuration document: named sections in insertion order.
pub type Document = Vec<(String, ConfigValue)>;

/// Why an operation on the configuration failed.
#[derive(Debug, Clone, Copy, PartialEq, Eq, Structural)]
pub enum ConfigError {
    HomeNotFound,
    DirectoryCreateError,
    SerializeError,
    WriteError,
    ReadError,
    ParseError,
    SectionNotFound,
    SectionNotATable,
    KeyNotFound,
}

/// What reading `section.key` from `doc` yields.
pub open spec fn lookup(doc: Seq<(String, ConfigValue)>, section: Seq<char>, key: Seq<char>) -> Result<
    ConfigValue,
    ConfigError,
> {
    match table_get(doc, section) {
        None => Err(ConfigError::SectionNotFound),
        Some(ConfigValue::Table(t)) => match table_get(t@, key) {
            None => Err(ConfigError::KeyNotFound),
            Some(v) => Ok(v),
        },
        Some(_) => Err(ConfigError::SectionNotATable),
    }
}

/// What setting `section.key` to `v` in `doc` reports: an error, `Ok(false)`
/// when the key already holds an equal value, `Ok(true)` when it changes.
pub open spec fn update_outcome(
    doc: Seq<(String, ConfigValue)>,
    section: Seq<char>,
    key: Seq<char>,
    v: ConfigValue,
) -> Result<bool, ConfigError> {
    match table_get(doc, section) {
        None => Err(ConfigError::SectionNotFound),
        Some(ConfigValue::Table(t)) => match table_get(t@, key) {
            Some(w) => Ok(!same_value(w, v)),
            None => Ok(true),
        },
        Some(_) => Err(ConfigError::SectionNotATable),
    }
}

/// `new` is table `old` with `key` set to `v`: overwritten in place, or
/// appended at the end when absent.
pub open spec fn table_put(
    old: Seq<(String, ConfigValue)>,
    new: Seq<(String, ConfigValue)>,
    key: Seq<char>,
    v: ConfigValue,
) -> bool {
    match key_index(old, key) {
        Some(i) => new == old.update(i, (old[i].0, v)),
        None => {
            &&& new.len() == old.len() + 1
            &&& new.take(old.len() as int) == old
            &&& new.last().0@ == key
            &&& new.last().1 == v
        },
    }
}

/// `new` is `old` with `section.key` set to `v`, every other entry untouched.
pub open spec fn document_put(
    old: Seq<(String, ConfigValue)>,
    new: Seq<(String, ConfigValue)>,
    section: Seq<char>,
    key: Seq<char>,
    v: ConfigValue,
) -> bool {
    exists|i: int|
        {
            &&& key_index(old, section) == Some(i)
            &&& new.len() == old.len()
            &&& forall|j: int| 0 <= j < old.len() && j != i ==> #[trigger] new[j] == old[j]
            &&& new[i].0 == old[i].0
            &&& old[i].1 is Table
            &&& new[i].1 is Table
            &&& table_put(old[i].1->Table_0@, new[i].1->Table_0@, key, v)
        }
}

/// Reads `section.key` out of `doc`, consuming the document.
pub fn lookup_value(doc: Document, section: &str, key: &str) -> (r: Result<ConfigValue, ConfigError>)
    ensures
        r == lookup(doc@, section@, key@),
{
    let mut doc = doc;
    match find_key(&doc, section) {
        None => Err(ConfigError::SectionNotFound),
        Some(i) => {
            let (_, sec) = doc.remove(i);
            match sec {
                ConfigValue::Table(t) => {
                    let mut t = t;
                    match find_key(&t, key) {
                        None => Err(ConfigError::KeyNotFound),
                        Some(j) => {
                            let (_, v) = t.remove(j);
                            Ok(v)
                        },
                    }
                },
                _ => Err(ConfigError::SectionNotATable),
            }
        },
    }
}

/// Sets `section.key` to `value` in `doc`. Reports `Ok(false)` and leaves the
/// document as it was when the key already holds an equal value; reports
/// `Ok(true)` when the document changed.
pub fn set_value(doc: &mut Document, section: &str, key: &str, value: ConfigValue) -> (r: Result<
    bool,
    ConfigError,
>)
    ensures
        r == update_outcome(old(doc)@, section@, key@, value),
        r == Ok::<bool, ConfigError>(true) ==> document_put(old(doc)@, final(doc)@, section@, key@, value),
        r != Ok::<bool, ConfigError>(true) ==> final(doc)@ == old(doc)@,
        doc_wf(old(doc)@) && value_wf(value) ==> doc_wf(final(doc)@),
{
    let si = match find_key(doc, section) {
        None => return Err(ConfigError::SectionNotFound),
        Some(i) => i,
    };
    match &doc[si].1 {
        ConfigValue::Table(t) => {
            if let Some(ki) = find_key(t, key) {
                if value_eq(&t[ki].1, &value) {
                    return Ok(false);
                }
            }
        },
        _ => return Err(ConfigError::SectionNotATable),
    }
    let ghost d0 = doc@;
    let (name, sec) = doc.remove(si);
    let mut t = match sec {
        ConfigValue::Table(t) => t,
        _ => {
            proof {
                assert(false);
            }
            Vec::new()
        },
    };
    let ghost t0 = t@;
    match find_key(&t, key) {
        Some(ki) => {
            let (kname, _) = t.remove(ki);
            t.insert(ki, (kname, value));
            assert(t@ =~= t0.update(ki as int, (t0[ki as int].0, value)));
        },
        None => {
            t.push((String::from_str(key), value));
            assert(t@.take(t0.len() as int) =~= t0);
        },
    }
    doc.insert(si, (name, ConfigValue::Table(t)));
    assert(document_put(d0, doc@, section@, key@, value)) by {
        assert(forall|j: int| 0 <= j < d0.len() && j != si ==> #[trigger] doc@[j] == d0[j]);
    }
    proof {
        if doc_wf(d0) && value_wf(value) {
            lemma_put_wf(d0, doc@, section@, key@, value);
        }
    }
    Ok(true)
}

/// Entry `i` of table `t` is `name = Integer(n)`.
pub open spec fn int_entry(t: Seq<(String, ConfigValue)>, i: int, name: Seq<char>, n: i64) -> bool {
    t[i].0@ == name && t[i].1 == ConfigValue::Integer(n)
}

/// Entry `i` of table `t` is `name = String(text)`.
pub open spec fn str_entry(t: Seq<(String, ConfigValue)>, i: int, name: Seq<char>, text: Seq<char>) -> bool {
    t[i].0@ == name && t[i].1 is String && t[i].1->String_0@ == text
}

/// `d` is the document written on first use: an `update` section with the
/// retry counters and an `ai` section with empty credentials and English.
pub open spec fn is_default_document(d: Seq<(String, ConfigValue)>) -> bool {
    &&& d.len() == 2
    &&& d[0].0@ == "update"@
    &&& d[0].1 is Table
    &&& d[1].0@ == "ai"@
    &&& d[1].1 is Table
    &&& {
        let u = d[0].1->Table_0@;
        &&& u.len() == 4
        &&& int_entry(u, 0, "tried"@, 0)
        &&& int_entry(u, 1, "max_try"@, 5)
        &&& str_entry(u, 2, "last_try_day"@, "2000-01-01"@)
        &&& int_entry(u, 3, "try_interval_days"@, 30)
    }
    &&& {
        let a = d[1].1->Table_0@;
        &&& a.len() == 4
        &&& str_entry(a, 0, "model"@, ""@)
        &&& str_entry(a, 1, "apikey"@, ""@)
        &&& str_entry(a, 2, "url"@, ""@)
        &&& str_entry(a, 3, "language"@, "English"@)
    }
}

/// Builds the document written when no configuration file exists yet.
pub fn default_document() -> (d: Document)
    ensures
        is_default_document(d@),
        doc_wf(d@),
{
    let mut update: Vec<(String, ConfigValue)> = Vec::new();
    update.push((String::from_str("tried"), ConfigValue::Integer(0)));
    update.push((String::from_str("max_try"), ConfigValue::Integer(5)));
    update.push((String::from_str("last_try_day"), ConfigValue::String(String::from_str("2000-01-01"))));
    update.push((String::from_str("try_interval_days"), ConfigValue::Integer(30)));
    let mut ai: Vec<(String, ConfigValue)> = Vec::new();
    ai.push((String::from_str("model"), ConfigValue::String(String::new())));
    ai.push((String::from_str("apikey"), ConfigValue::String(String::new())));
    ai.push((String::from_str("url"), ConfigValue::String(String::new())));
    ai.push((String::from_str("language"), ConfigValue::String(String::from_str("English"))));
    let mut d: Document = Vec::new();
    d.push((String::from_str("update"), ConfigValue::Table(update)));
    d.push((String::from_str("ai"), ConfigValue::Table(ai)));
    proof {
        reveal_strlit("");
        assert(""@ =~= Seq::<char>::empty());
        reveal_strlit("update");
        reveal_strlit("ai");
        reveal_strlit("tried");
        reveal_strlit("max_try");
        reveal_strlit("last_try_day");
        reveal_strlit("try_interval_days");
        reveal_strlit("model");
        reveal_strlit("apikey");
        reveal_strlit("url");
        reveal_strlit("language");
        let u = d@[0].1->Table_0@;
        let a = d@[1].1->Table_0@;
        assert(unique_keys(u)) by {
            assert(forall|i: int| 0 <= i < 4 ==> (#[trigger] u[i]).0@.len() == seq![5int, 7, 12, 17][i]);
        }
        assert(unique_keys(a)) by {
            assert(forall|i: int| 0 <= i < 4 ==> (#[trigger] a[i]).0@.len() == seq![5int, 6, 3, 8][i]);
        }
        assert forall|i: int| 0 <= i < 4 implies value_wf((#[trigger] u[i]).1) by {
            if i == 0 {
            } else if i == 1 {
            } else if i == 2 {
            } else {
            }
        }
        assert forall|i: int| 0 <= i < 4 implies value_wf((#[trigger] a[i]).1) by {
            if i == 0 {
            } else if i == 1 {
            } else if i == 2 {
            } else {
            }
        }
        assert(value_wf(d@[0].1));
        assert(value_wf(d@[1].1));
        assert(unique_keys(d@)) by {
            assert(forall|i: int| 0 <= i < 2 ==> (#[trigger] d@[i]).0@.len() == seq![6int, 2][i]);
        }
    }
    d
}

/// A freshly built default document holds both sections with every default
/// key and value.
pub proof fn lemma_default_schema(d: Seq<(String, ConfigValue)>)
    requires
        is_default_document(d),
    ensures
        lookup(d, "update"@, "tried"@) == Ok::<ConfigValue, ConfigError>(ConfigValue::Integer(0)),
        lookup(d, "update"@, "max_try"@) == Ok::<ConfigValue, ConfigError>(ConfigValue::Integer(5)),
        lookup(d, "update"@, "last_try_day"@) is Ok,
        lookup(d, "update"@, "last_try_day"@)->Ok_0->String_0@ == "2000-01-01"@,
        lookup(d, "update"@, "try_interval_days"@) == Ok::<ConfigValue, ConfigError>(ConfigValue::Integer(30)),
        lookup(d, "ai"@, "model"@) is Ok,
        lookup(d, "ai"@, "model"@)->Ok_0->String_0@ == ""@,
        lookup(d, "ai"@, "apikey"@) is Ok,
        lookup(d, "ai"@, "apikey"@)->Ok_0->String_0@ == ""@,
        lookup(d, "ai"@, "url"@) is Ok,
        lookup(d, "ai"@, "url"@)->Ok_0->String_0@ == ""@,
        lookup(d, "ai"@, "language"@) is Ok,
        lookup(d, "ai"@, "language"@)->Ok_0->String_0@ == "English"@,
{
    reveal_strlit("update");
    reveal_strlit("ai");
    reveal_strlit("tried");
    reveal_strlit("max_try");
    reveal_strlit("last_try_day");
    reveal_strlit("try_interval_days");
    reveal_strlit("model");
    reveal_strlit("apikey");
    reveal_strlit("url");
    reveal_strlit("language");
    let u = d[0].1->Table_0@;
    let a = d[1].1->Table_0@;
    assert(u[0].0@.len() == 5 && u[1].0@.len() == 7 && u[2].0@.len() == 12);
    assert(a[0].0@.len() == 5 && a[1].0@.len() == 6 && a[2].0@.len() == 3);
    assert(d[0].0@.len() == 6);
    assert(first_key_at(d, "update"@, 0));
    assert(first_key_at(d, "ai"@, 1));
    lemma_key_at(d, "update"@, 0);
    lemma_key_at(d, "ai"@, 1);
    assert(first_key_at(u, "tried"@, 0));
    assert(first_key_at(u, "max_try"@, 1));
    assert(first_key_at(u, "last_try_day"@, 2));
    assert(first_key_at(u, "try_interval_days"@, 3));
    lemma_key_at(u, "tried"@, 0);
    lemma_key_at(u, "max_try"@, 1);
    lemma_key_at(u, "last_try_day"@, 2);
    lemma_key_at(u, "try_interval_days"@, 3);
    assert(first_key_at(a, "model"@, 0));
    assert(first_key_at(a, "apikey"@, 1));
    assert(first_key_at(a, "url"@, 2));
    assert(first_key_at(a, "language"@, 3));
    lemma_key_at(a, "model"@, 0);
    lemma_key_at(a, "apikey"@, 1);
    lemma_key_at(a, "url"@, 2);
    lemma_key_at(a, "language"@, 3);
}

/// Setting a key to a value equal to the one it holds changes nothing.
pub proof fn lemma_update_equal_is_noop(
    doc: Seq<(String, ConfigValue)>,
    section: Seq<char>,
    key: Seq<char>,
    v: ConfigValue,
)
    requires
        lookup(doc, section, key) is Ok,
        same_value(lookup(doc, section, key)->Ok_0, v),
    ensures
        update_outcome(doc, section, key, v) == Ok::<bool, ConfigError>(false),
{
}

/// After setting `section.key` to `v`, reading it back gives `v`, and reading
/// any other key gives what it gave before.
pub proof fn lemma_update_then_lookup(
    old: Seq<(String, ConfigValue)>,
    new: Seq<(String, ConfigValue)>,
    section: Seq<char>,
    key: Seq<char>,
    v: ConfigValue,
    other_section: Seq<char>,
    other_key: Seq<char>,
)
    requires
        document_put(old, new, section, key, v),
    ensures
        lookup(new, section, key) == Ok::<ConfigValue, ConfigError>(v),
        other_section != section || other_key != key ==> lookup(new, other_section, other_key)
            == lookup(old, other_section, other_key),
{
    let i = choose|i: int|
        {
            &&& key_index(old, section) == Some(i)
            &&& new.len() == old.len()
            &&& forall|j: int| 0 <= j < old.len() && j != i ==> #[trigger] new[j] == old[j]
            &&& new[i].0 == old[i].0
            &&& old[i].1 is Table
            &&& new[i].1 is Table
            &&& table_put(old[i].1->Table_0@, new[i].1->Table_0@, key, v)
        };
    assert(forall|j: int| 0 <= j < old.len() ==> (#[trigger] old[j]).0@ == new[j].0@) by {
        assert forall|j: int| 0 <= j < old.len() implies (#[trigger] old[j]).0@ == new[j].0@ by {
            if j != i {
                assert(new[j] == old[j]);
            }
        }
    }
    lemma_same_keys(old, new, section);
    lemma_same_keys(old, new, other_section);
    let ot = old[i].1->Table_0@;
    let nt = new[i].1->Table_0@;
    assert(first_key_at(old, section, i));
    lemma_put_keys(ot, nt, key, v, other_key);
    if other_section == section {
    } else if let Some(m) = key_index(old, other_section) {
        assert(first_key_at(old, other_section, m));
        assert(m != i);
        assert(new[m] == old[m]);
    }
}

/// Reading a table after a put: the key put gives the new value, other keys
/// are unchanged.
pub proof fn lemma_put_keys(
    ot: Seq<(String, ConfigValue)>,
    nt: Seq<(String, ConfigValue)>,
    key: Seq<char>,
    v: ConfigValue,
    other_key: Seq<char>,
)
    requires
        table_put(ot, nt, key, v),
    ensures
        table_get(nt, key) == Some(v),
        other_key != key ==> table_get(nt, other_key) == table_get(ot, other_key),
{
    match key_index(ot, key) {
        Some(ki) => {
            assert(first_key_at(ot, key, ki));
            lemma_same_keys(ot, nt, key);
            lemma_same_keys(ot, nt, other_key);
            if let Some(m) = key_index(ot, other_key) {
                assert(first_key_at(ot, other_key, m));
            }
        },
        None => {
            let n = ot.len() as int;
            assert forall|j: int| 0 <= j < n implies (#[trigger] nt[j]).0@ != key by {
                assert(nt[j] == ot[j]);
                if ot[j].0@ == key {
                    lemma_key_occurs(ot, key, j);
                }
            }
            assert(first_key_at(nt, key, n));
            lemma_key_at(nt, key, n);
            if other_key != key {
                if let Some(m) = key_index(ot, other_key) {
                    assert(first_key_at(ot, other_key, m));
                    assert(first_key_at(nt, other_key, m)) by {
                        assert(forall|j: int| 0 <= j <= m ==> #[trigger] nt[j] == ot[j]);
                    }
                    lemma_key_at(nt, other_key, m);
                } else if let Some(m) = key_index(nt, other_key) {
                    assert(first_key_at(nt, other_key, m));
                    assert(m < n);
                    assert(first_key_at(ot, other_key, m)) by {
                        assert(forall|j: int| 0 <= j <= m ==> #[trigger] nt[j] == ot[j]);
                    }
                    lemma_key_at(ot, other_key, m);
                }
            }
        },
    }
}

/// Setting a well-formed value in a well-formed document keeps it well-formed.
pub proof fn lemma_put_wf(
    old: Seq<(String, ConfigValue)>,
    new: Seq<(String, ConfigValue)>,
    section: Seq<char>,
    key: Seq<char>,
    v: ConfigValue,
)
    requires
        document_put(old, new, section, key, v),
        doc_wf(old),
        value_wf(v),
    ensures
        doc_wf(new),
{
    let i = choose|i: int|
        {
            &&& key_index(old, section) == Some(i)
            &&& new.len() == old.len()
            &&& forall|j: int| 0 <= j < old.len() && j != i ==> #[trigger] new[j] == old[j]
            &&& new[i].0 == old[i].0
            &&& old[i].1 is Table
            &&& new[i].1 is Table
            &&& table_put(old[i].1->Table_0@, new[i].1->Table_0@, key, v)
        };
    assert(first_key_at(old, section, i));
    assert forall|j: int| 0 <= j < old.len() implies (#[trigger] new[j]).0@ == old[j].0@ by {
        if j != i {
            assert(new[j] == old[j]);
        }
    }
    let ot = old[i].1->Table_0@;
    let nt = new[i].1->Table_0@;
    assert(value_wf(old[i].1));
    match key_index(ot, key) {
        Some(ki) => {
            assert(first_key_at(ot, key, ki));
            assert forall|j: int| 0 <= j < nt.len() implies value_wf((#[trigger] nt[j]).1) by {
                if j != ki {
                    assert(nt[j] == ot[j]);
                }
            }
            assert forall|a: int, b: int|
                0 <= a < nt.len() && 0 <= b < nt.len() && a != b implies (#[trigger] nt[a]).0@
                != (#[trigger] nt[b]).0@ by {
                assert(nt[a].0@ == ot[a].0@);
                assert(nt[b].0@ == ot[b].0@);
            }
        },
        None => {
            let n = ot.len() as int;
            assert forall|j: int| 0 <= j < n implies (#[trigger] nt[j]) == ot[j] by {
                assert(nt.take(n)[j] == nt[j]);
            }
            assert forall|j: int| 0 <= j < n implies (#[trigger] ot[j]).0@ != key by {
                if ot[j].0@ == key {
                    lemma_key_occurs(ot, key, j);
                }
            }
            assert forall|j: int| 0 <= j < nt.len() implies value_wf((#[trigger] nt[j]).1) by {
                if j < n {
                    assert(nt[j] == ot[j]);
                }
            }
            assert forall|a: int, b: int|
                0 <= a < nt.len() && 0 <= b < nt.len() && a != b implies (#[trigger] nt[a]).0@
                != (#[trigger] nt[b]).0@ by {
                if a < n && b < n {
                    assert(nt[a] == ot[a]);
                    assert(nt[b] == ot[b]);
                } else if a < n {
                    assert(nt[a] == ot[a]);
                } else if b < n {
                    assert(nt[b] == ot[b]);
                }
            }
        },
    }
    assert(value_wf(new[i].1));
    assert forall|j: int| 0 <= j < new.len() implies value_wf((#[trigger] new[j]).1) by {
        if j != i {
            assert(new[j] == old[j]);
        }
    }
    assert forall|a: int, b: int|
        0 <= a < new.len() && 0 <= b < new.len() && a != b implies (#[trigger] new[a]).0@
        != (#[trigger] new[b]).0@ by {
        assert(old[a].0@ != old[b].0@);
    }
}

} // verus!
