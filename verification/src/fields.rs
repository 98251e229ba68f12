//! A fragment's extra fields: a map from field name to JSON value, kept
//! as entries sorted by name, as a `BTreeMap<String, _>` keeps them.

use vstd::prelude::*;

use crate::json::JsonValue;
use crate::text::{chars_of, eq_str_chars, lemma_str_lt_irreflexive, lemma_str_lt_total, lemma_str_lt_transitive, str_less, str_lt};

verus! {

pub type Fields = Vec<(String, JsonValue)>;

/// Names strictly rising: each name occurs once.
pub open spec fn fields_sorted(m: Seq<(String, JsonValue)>) -> bool {
    forall|i: int, j: int| 0 <= i < j < m.len() ==> str_lt(#[trigger] m[i].0@, #[trigger] m[j].0@)
}

/// The value of the first entry named `k`.
pub open spec fn lookup(m: Seq<(String, JsonValue)>, k: Seq<char>) -> Option<JsonValue>
    decreases m.len(),
{
    if m.len() == 0 {
        None
    } else if m[0].0@ == k {
        Some(m[0].1)
    } else {
        lookup(m.drop_first(), k)
    }
}

/// The value of the last entry named `k`.
pub open spec fn lookup_last(m: Seq<(String, JsonValue)>, k: Seq<char>) -> Option<JsonValue>
    decreases m.len(),
{
    if m.len() == 0 {
        None
    } else {
        match lookup_last(m.drop_first(), k) {
            Some(v) => Some(v),
            None => if m[0].0@ == k {
                Some(m[0].1)
            } else {
                None
            },
        }
    }
}

/// Where no entry is named `k`, there is nothing to find.
pub proof fn lemma_lookup_absent(m: Seq<(String, JsonValue)>, k: Seq<char>)
    requires
        forall|j: int| 0 <= j < m.len() ==> (#[trigger] m[j]).0@ != k,
    ensures
        lookup(m, k).is_none(),
    decreases m.len(),
{
    if m.len() > 0 {
        assert(m[0].0@ != k);
        assert forall|j: int| 0 <= j < m.drop_first().len() implies (#[trigger] m.drop_first()[j]).0@
            != k by {
            assert(m.drop_first()[j] == m[j + 1]);
        }
        lemma_lookup_absent(m.drop_first(), k);
    }
}

/// Looking up in two runs of entries: the first run, then the second.
pub proof fn lemma_lookup_concat(a: Seq<(String, JsonValue)>, b: Seq<(String, JsonValue)>, k: Seq<char>)
    ensures
        lookup(a + b, k) == (match lookup(a, k) {
            Some(v) => Some(v),
            None => lookup(b, k),
        }),
    decreases a.len(),
{
    if a.len() == 0 {
        assert(a + b =~= b);
    } else {
        assert((a + b).drop_first() =~= a.drop_first() + b);
        lemma_lookup_concat(a.drop_first(), b, k);
    }
}

/// The first entry named `k`, where the entries before it have other names.
pub proof fn lemma_lookup_at(m: Seq<(String, JsonValue)>, k: Seq<char>, i: int)
    requires
        0 <= i < m.len(),
        m[i].0@ == k,
        forall|j: int| 0 <= j < i ==> (#[trigger] m[j]).0@ != k,
    ensures
        lookup(m, k) == Some(m[i].1),
{
    lemma_lookup_absent(m.subrange(0, i), k);
    assert(m =~= m.subrange(0, i) + m.subrange(i, m.len() as int));
    lemma_lookup_concat(m.subrange(0, i), m.subrange(i, m.len() as int), k);
}

/// The value of the field named `k`, if there is one.
pub fn field_get<'a>(m: &'a Vec<(String, JsonValue)>, k: &str) -> (r: Option<&'a JsonValue>)
    ensures
        match r {
            Some(v) => lookup(m@, k@) == Some(*v),
            None => lookup(m@, k@).is_none(),
        },
{
    let kv = chars_of(k);
    let mut i: usize = 0;
    while i < m.len()
        invariant
            i <= m.len(),
            kv@ == k@,
            forall|j: int| 0 <= j < i ==> (#[trigger] m@[j]).0@ != k@,
        decreases m.len() - i,
    {
        let name = chars_of(m[i].0.as_str());
        if eq_str_chars(&name, &kv) {
            proof {
                lemma_lookup_at(m@, k@, i as int);
            }
            return Some(&m[i].1);
        }
        i = i + 1;
    }
    proof {
        lemma_lookup_absent(m@, k@);
    }
    None
}

/// Set field `key` to `value`, replacing any value it had; the entries
/// stay sorted by name.
pub fn field_insert(m: &mut Vec<(String, JsonValue)>, key: String, value: JsonValue)
    requires
        fields_sorted(old(m)@),
    ensures
        fields_sorted(final(m)@),
        lookup(final(m)@, key@) == Some(value),
        forall|k: Seq<char>| k != key@ ==> #[trigger] lookup(final(m)@, k) == lookup(old(m)@, k),
{
    let kv = chars_of(key.as_str());
    let ghost key_v = key@;
    let ghost val = value;
    let mut i: usize = 0;
    while i < m.len()
        invariant
            i <= m.len(),
            kv@ == key_v,
            forall|j: int| 0 <= j < i ==> str_lt((#[trigger] m@[j]).0@, key_v),
        ensures
            i <= m.len(),
            forall|j: int| 0 <= j < i ==> str_lt((#[trigger] m@[j]).0@, key_v),
            i < m.len() ==> !str_lt(m@[i as int].0@, key_v),
        decreases m.len() - i,
    {
        let name = chars_of(m[i].0.as_str());
        if !str_less(&name, &kv) {
            break;
        }
        i = i + 1;
    }
    let ghost old_m = m@;
    let ghost a = old_m.subrange(0, i as int);
    assert forall|j: int| 0 <= j < a.len() implies (#[trigger] a[j]).0@ != key_v by {
        lemma_str_lt_irreflexive(key_v);
    }
    proof {
        lemma_lookup_absent(a, key_v);
    }
    let same = if i < m.len() {
        let name = chars_of(m[i].0.as_str());
        eq_str_chars(&name, &kv)
    } else {
        false
    };
    if same {
        let ghost b = old_m.subrange(i + 1, old_m.len() as int);
        m.set(i, (key, value));
        proof {
            assert(old_m =~= a + (seq![old_m[i as int]] + b));
            assert(m@ =~= a + (seq![(key, val)] + b));
            assert forall|k: Seq<char>| k != key_v implies #[trigger] lookup(m@, k) == lookup(
                old_m,
                k,
            ) by {
                lemma_lookup_concat(a, seq![old_m[i as int]] + b, k);
                lemma_lookup_concat(a, seq![(key, val)] + b, k);
                assert((seq![old_m[i as int]] + b).drop_first() =~= b);
                assert((seq![(key, val)] + b).drop_first() =~= b);
            }
            lemma_lookup_concat(a, seq![(key, val)] + b, key_v);
            assert forall|x: int, y: int| 0 <= x < y < m@.len() implies str_lt(
                #[trigger] m@[x].0@,
                #[trigger] m@[y].0@,
            ) by {
                assert(old_m[x].0@ == m@[x].0@ || x == i);
                assert(old_m[y].0@ == m@[y].0@ || y == i);
                assert(str_lt(old_m[x].0@, old_m[y].0@));
            }
        }
    } else {
        let ghost b = old_m.subrange(i as int, old_m.len() as int);
        m.insert(i, (key, value));
        proof {
            assert(old_m =~= a + b);
            assert(m@ =~= a + (seq![(key, val)] + b));
            assert forall|k: Seq<char>| k != key_v implies #[trigger] lookup(m@, k) == lookup(
                old_m,
                k,
            ) by {
                lemma_lookup_concat(a, b, k);
                lemma_lookup_concat(a, seq![(key, val)] + b, k);
                assert((seq![(key, val)] + b).drop_first() =~= b);
            }
            lemma_lookup_concat(a, seq![(key, val)] + b, key_v);
            if i < old_m.len() {
                assert(!str_lt(old_m[i as int].0@, key_v));
                assert(old_m[i as int].0@ != key_v);
                lemma_str_lt_total(old_m[i as int].0@, key_v);
                assert(str_lt(key_v, old_m[i as int].0@));
            }
            assert forall|x: int, y: int| 0 <= x < y < m@.len() implies str_lt(
                #[trigger] m@[x].0@,
                #[trigger] m@[y].0@,
            ) by {
                if y < i {
                    assert(str_lt(old_m[x].0@, old_m[y].0@));
                } else if y == i {
                    assert(m@[x] == old_m[x]);
                } else if x < i {
                    assert(m@[y] == old_m[y - 1]);
                    assert(str_lt(old_m[x].0@, old_m[y - 1].0@));
                } else if x == i {
                    assert(m@[y] == old_m[y - 1]);
                    if y - 1 > i {
                        assert(str_lt(old_m[i as int].0@, old_m[y - 1].0@));
                        lemma_str_lt_transitive(key_v, old_m[i as int].0@, old_m[y - 1].0@);
                    }
                } else {
                    assert(m@[x] == old_m[x - 1]);
                    assert(m@[y] == old_m[y - 1]);
                    assert(str_lt(old_m[x - 1].0@, old_m[y - 1].0@));
                }
            }
        }
    }
}


/// The position of the first entry named `k`, if there is one.
pub fn field_position(m: &Vec<(String, JsonValue)>, k: &str) -> (r: Option<usize>)
    ensures
        match r {
            Some(i) => i < m@.len() && lookup(m@, k@) == Some(m@[i as int].1) && m@[i as int].0@ == k@,
            None => lookup(m@, k@).is_none(),
        },
{
    let kv = chars_of(k);
    let mut i: usize = 0;
    while i < m.len()
        invariant
            i <= m.len(),
            kv@ == k@,
            forall|j: int| 0 <= j < i ==> (#[trigger] m@[j]).0@ != k@,
        decreases m.len() - i,
    {
        let name = chars_of(m[i].0.as_str());
        if eq_str_chars(&name, &kv) {
            proof {
                lemma_lookup_at(m@, k@, i as int);
            }
            return Some(i);
        }
        i = i + 1;
    }
    proof {
        lemma_lookup_absent(m@, k@);
    }
    None
}

/// The map entries make, the later of two equal names winning.
pub fn map_from_entries(x: Vec<(String, JsonValue)>) -> (r: Vec<(String, JsonValue)>)
    ensures
        fields_sorted(r@),
        forall|k: Seq<char>| #[trigger] lookup(r@, k) == lookup_last(x@, k),
{
    let ghost m = x@;
    let mut rest = x;
    let mut out: Vec<(String, JsonValue)> = Vec::new();
    assert(m.subrange(m.len() as int, m.len() as int) =~= Seq::<(String, JsonValue)>::empty());
    while rest.len() > 0
        invariant
            rest.len() <= m.len(),
            rest@ == m.subrange(0, rest.len() as int),
            fields_sorted(out@),
            forall|k: Seq<char>| #[trigger] lookup(out@, k) == lookup_last(
                m.subrange(rest.len() as int, m.len() as int),
                k,
            ),
        decreases rest.len(),
    {
        let ghost n = rest.len();
        let ghost suffix = m.subrange(n as int, m.len() as int);
        let ghost ext = m.subrange(n - 1, m.len() as int);
        assert(ext.drop_first() =~= suffix);
        let (key, val) = match rest.pop() {
            Some(e) => e,
            None => {
                assert(false);
                return out;
            },
        };
        assert(ext[0] == (key, val));
        assert(rest@ =~= m.subrange(0, rest.len() as int));
        let ghost before = out@;
        if field_get(&out, key.as_str()).is_none() {
            field_insert(&mut out, key, val);
        }
        assert forall|k: Seq<char>| #[trigger] lookup(out@, k) == lookup_last(ext, k) by {
            assert(lookup(before, k) == lookup_last(suffix, k));
        }
    }
    assert(m.subrange(0, m.len() as int) =~= m);
    out
}


/// Remove field `key`, if it is there; the entries stay sorted by name.
pub fn field_remove(m: &mut Vec<(String, JsonValue)>, key: &str)
    requires
        fields_sorted(old(m)@),
    ensures
        fields_sorted(final(m)@),
        lookup(final(m)@, key@).is_none(),
        forall|k: Seq<char>| k != key@ ==> #[trigger] lookup(final(m)@, k) == lookup(old(m)@, k),
{
    match field_position(m, key) {
        Some(i) => {
            let ghost old_m = m@;
            m.remove(i);
            proof {
                let ii = i as int;
                assert(m@ =~= old_m.remove(ii));
                assert forall|x: int, y: int| 0 <= x < y < m@.len() implies str_lt(
                    #[trigger] m@[x].0@,
                    #[trigger] m@[y].0@,
                ) by {
                    let xo = if x < ii { x } else { x + 1 };
                    let yo = if y < ii { y } else { y + 1 };
                    assert(m@[x] == old_m[xo]);
                    assert(m@[y] == old_m[yo]);
                }
                assert forall|j: int| 0 <= j < m@.len() implies (#[trigger] m@[j]).0@ != key@ by {
                    let jo = if j < ii { j } else { j + 1 };
                    assert(m@[j] == old_m[jo]);
                    if m@[j].0@ == key@ {
                        lemma_str_lt_irreflexive(key@);
                        if jo < ii {
                            assert(str_lt(old_m[jo].0@, old_m[ii].0@));
                        } else {
                            assert(str_lt(old_m[ii].0@, old_m[jo].0@));
                        }
                    }
                }
                lemma_lookup_absent(m@, key@);
                assert forall|k: Seq<char>| k != key@ implies #[trigger] lookup(m@, k) == lookup(old_m, k) by {
                    lemma_lookup_remove_other(old_m, ii, k);
                }
            }
        },
        None => {},
    }
}

/// Removing an entry changes no lookup of another name.
pub proof fn lemma_lookup_remove_other(m: Seq<(String, JsonValue)>, i: int, x: Seq<char>)
    requires
        0 <= i < m.len(),
        m[i].0@ != x,
    ensures
        lookup(m.remove(i), x) == lookup(m, x),
{
    let a = m.subrange(0, i);
    let b = m.subrange(i + 1, m.len() as int);
    assert(m =~= a + (seq![m[i]] + b));
    assert(m.remove(i) =~= a + b);
    lemma_lookup_concat(a, seq![m[i]] + b, x);
    lemma_lookup_concat(a, b, x);
    assert((seq![m[i]] + b).drop_first() =~= b);
}

} // verus!
