use vstd::prelude::*;

verus! {

broadcast use vstd::std_specs::vec::group_vec_axioms;

/// A configuration value: an integer, a string, a boolean, or a nested table
/// of named values kept in insertion order.
#[derive(Debug, PartialEq)]
pub enum ConfigValue {
    Integer(i64),
    String(String),
    Boolean(bool),
    Table(Vec<(String, ConfigValue)>),
}

/// Structural equality of two values: strings and keys compare by their
/// text, tables as maps (the same keys, each with equal values, in any order).
pub open spec fn same_value(a: ConfigValue, b: ConfigValue) -> bool
    decreases a,
{
    match (a, b) {
        (ConfigValue::Integer(x), ConfigValue::Integer(y)) => x == y,
        (ConfigValue::String(x), ConfigValue::String(y)) => x@ == y@,
        (ConfigValue::Boolean(x), ConfigValue::Boolean(y)) => x == y,
        (ConfigValue::Table(x), ConfigValue::Table(y)) => {
            &&& forall|i: int|
                0 <= i < x@.len() ==> match key_index(y@, (#[trigger] x@[i]).0@) {
                    Some(j) => same_value(x@[i].1, y@[j].1),
                    None => false,
                }
            &&& forall|j: int| 0 <= j < y@.len() ==> key_index(x@, (#[trigger] y@[j]).0@) is Some
        },
        _ => false,
    }
}

/// No two entries of `t` share a key.
pub open spec fn unique_keys(t: Seq<(String, ConfigValue)>) -> bool {
    forall|i: int, j: int|
        0 <= i < t.len() && 0 <= j < t.len() && i != j ==> (#[trigger] t[i]).0@ != (#[trigger] t[j]).0@
}

/// Every table within `v` has unique keys.
pub open spec fn value_wf(v: ConfigValue) -> bool
    decreases v,
{
    match v {
        ConfigValue::Table(x) => {
            &&& unique_keys(x@)
            &&& forall|i: int| 0 <= i < x@.len() ==> value_wf((#[trigger] x@[i]).1)
        },
        _ => true,
    }
}

/// A well-formed document: unique section names, every value well-formed.
pub open spec fn doc_wf(d: Seq<(String, ConfigValue)>) -> bool {
    &&& unique_keys(d)
    &&& forall|i: int| 0 <= i < d.len() ==> value_wf((#[trigger] d[i]).1)
}

/// `i` is the position of the first entry of `t` whose key reads `k`.
pub open spec fn first_key_at(t: Seq<(String, ConfigValue)>, k: Seq<char>, i: int) -> bool {
    &&& 0 <= i < t.len()
    &&& t[i].0@ == k
    &&& forall|j: int| 0 <= j < i ==> (#[trigger] t[j]).0@ != k
}

/// Position of the entry of `t` under key `k`, if any.
pub open spec fn key_index(t: Seq<(String, ConfigValue)>, k: Seq<char>) -> Option<int> {
    if exists|i: int| first_key_at(t, k, i) {
        Some(choose|i: int| first_key_at(t, k, i))
    } else {
        None
    }
}

/// The value stored under `k` in table `t`, if any.
pub open spec fn table_get(t: Seq<(String, ConfigValue)>, k: Seq<char>) -> Option<ConfigValue> {
    match key_index(t, k) {
        Some(i) => Some(t[i].1),
        None => None,
    }
}

/// A key has at most one first occurrence.
pub proof fn lemma_first_key_unique(t: Seq<(String, ConfigValue)>, k: Seq<char>, i: int, j: int)
    requires
        first_key_at(t, k, i),
        first_key_at(t, k, j),
    ensures
        i == j,
{
    if i < j {
        assert(t[i].0@ != k);
    } else if j < i {
        assert(t[j].0@ != k);
    }
}

/// The first occurrence of a key is where lookups find it.
pub proof fn lemma_key_at(t: Seq<(String, ConfigValue)>, k: Seq<char>, i: int)
    requires
        first_key_at(t, k, i),
    ensures
        key_index(t, k) == Some(i),
        table_get(t, k) == Some(t[i].1),
{
    let c = choose|c: int| first_key_at(t, k, c);
    lemma_first_key_unique(t, k, i, c);
}

/// A key that occurs in `t` has a first occurrence.
pub proof fn lemma_key_occurs(t: Seq<(String, ConfigValue)>, k: Seq<char>, j: int)
    requires
        0 <= j < t.len(),
        t[j].0@ == k,
    ensures
        key_index(t, k) is Some,
    decreases j,
{
    if exists|m: int| 0 <= m < j && #[trigger] t[m].0@ == k {
        let m = choose|m: int| 0 <= m < j && #[trigger] t[m].0@ == k;
        lemma_key_occurs(t, k, m);
    } else {
        assert(first_key_at(t, k, j));
    }
}

/// Two tables with the same keys at the same positions place every key alike.
pub proof fn lemma_same_keys(a: Seq<(String, ConfigValue)>, b: Seq<(String, ConfigValue)>, k: Seq<char>)
    requires
        a.len() == b.len(),
        forall|j: int| 0 <= j < a.len() ==> (#[trigger] a[j]).0@ == b[j].0@,
    ensures
        key_index(a, k) == key_index(b, k),
{
    if let Some(i) = key_index(a, k) {
        assert(first_key_at(b, k, i)) by {
            assert(forall|j: int| 0 <= j < i ==> (#[trigger] b[j]).0@ == a[j].0@);
        }
        lemma_key_at(b, k, i);
    } else if let Some(i) = key_index(b, k) {
        assert(first_key_at(a, k, i)) by {
            assert(forall|j: int| 0 <= j < i ==> (#[trigger] b[j]).0@ == a[j].0@);
        }
        lemma_key_at(a, k, i);
    }
}

/// Compares two values structurally.
pub fn value_eq(a: &ConfigValue, b: &ConfigValue) -> (r: bool)
    ensures
        r == same_value(*a, *b),
    decreases a,
{
    match a {
        ConfigValue::Integer(x) => match b {
            ConfigValue::Integer(y) => *x == *y,
            _ => false,
        },
        ConfigValue::String(x) => match b {
            ConfigValue::String(y) => *x == *y,
            _ => false,
        },
        ConfigValue::Boolean(x) => match b {
            ConfigValue::Boolean(y) => *x == *y,
            _ => false,
        },
        ConfigValue::Table(x) => match b {
            ConfigValue::Table(y) => tables_eq(x, y),
            _ => false,
        },
    }
}

/// Compares two tables as maps.
fn tables_eq(x: &Vec<(String, ConfigValue)>, y: &Vec<(String, ConfigValue)>) -> (r: bool)
    ensures
        r == same_value(ConfigValue::Table(*x), ConfigValue::Table(*y)),
    decreases x, 0int,
{
    let mut i: usize = 0;
    while i < x.len()
        invariant
            i <= x@.len(),
            forall|k: int|
                0 <= k < i ==> match key_index(y@, (#[trigger] x@[k]).0@) {
                    Some(j) => same_value(x@[k].1, y@[j].1),
                    None => false,
                },
        decreases x@.len() - i,
    {
        match find_key(y, x[i].0.as_str()) {
            None => {
                assert(key_index(y@, x@[i as int].0@) is None);
                return false;
            },
            Some(j) => {
                proof {
                    let e = x@[i as int];
                    assert(decreases_to!(*x => x@));
                    assert(decreases_to!(x@ => e));
                    assert(decreases_to!(e => e.1));
                }
                if !value_eq(&x[i].1, &y[j].1) {
                    assert(key_index(y@, x@[i as int].0@) == Some(j as int));
                    return false;
                }
            },
        }
        i += 1;
    }
    let mut j: usize = 0;
    while j < y.len()
        invariant
            j <= y@.len(),
            forall|k: int| 0 <= k < j ==> key_index(x@, (#[trigger] y@[k]).0@) is Some,
        decreases y@.len() - j,
    {
        if find_key(x, y[j].0.as_str()).is_none() {
            assert(key_index(x@, y@[j as int].0@) is None);
            return false;
        }
        j += 1;
    }
    true
}

/// Finds the first entry of `t` whose key is `k`.
pub fn find_key(t: &Vec<(String, ConfigValue)>, k: &str) -> (r: Option<usize>)
    ensures
        match r {
            Some(i) => first_key_at(t@, k@, i as int) && key_index(t@, k@) == Some(i as int),
            None => key_index(t@, k@) is None,
        },
{
    let key = String::from_str(k);
    let mut i: usize = 0;
    while i < t.len()
        invariant
            key@ == k@,
            i <= t@.len(),
            forall|j: int| 0 <= j < i ==> (#[trigger] t@[j]).0@ != k@,
        decreases t@.len() - i,
    {
        if t[i].0 == key {
            proof {
                assert(first_key_at(t@, k@, i as int));
                let c = choose|c: int| first_key_at(t@, k@, c);
                lemma_first_key_unique(t@, k@, i as int, c);
            }
            return Some(i);
        }
        i += 1;
    }
    None
}

} // verus!
