//! Lists of entries with text keys: lookup by key, and insertion that keeps
//! the keys in lexicographic order without repeating one.
use crate::language::ast::names_view;
use crate::language::text::{
    chars_less, text_less, text_less_irreflexive, text_less_total, text_less_transitive, to_chars,
};
use vstd::prelude::*;

verus! {

/// The keys of a list of entries of the model.
pub open spec fn keys_of<V>(s: Seq<(Seq<char>, V)>) -> Seq<Seq<char>> {
    Seq::new(s.len(), |i: int| s[i].0)
}

/// The keys of a list of entries.
pub open spec fn entry_keys<T>(s: Seq<(String, T)>) -> Seq<Seq<char>> {
    Seq::new(s.len(), |i: int| s[i].0@)
}

/// The first position at or after `i` that holds `key`; the length of the
/// list when there is none.
pub open spec fn find_from(keys: Seq<Seq<char>>, key: Seq<char>, i: int) -> int
    decreases keys.len() - i,
{
    if 0 <= i < keys.len() {
        if keys[i] == key {
            i
        } else {
            find_from(keys, key, i + 1)
        }
    } else {
        keys.len() as int
    }
}

/// The position of the first entry with the given key; the length of the
/// list when there is none.
pub open spec fn position_of(keys: Seq<Seq<char>>, key: Seq<char>) -> int {
    find_from(keys, key, 0)
}

/// Whether some entry has the given key.
pub open spec fn has_key(keys: Seq<Seq<char>>, key: Seq<char>) -> bool {
    position_of(keys, key) < keys.len()
}

/// The value of the first entry with the given key.
pub open spec fn lookup<V>(s: Seq<(Seq<char>, V)>, key: Seq<char>) -> Option<V> {
    let i = position_of(keys_of(s), key);
    if i < s.len() {
        Some(s[i].1)
    } else {
        None
    }
}

/// `find_from` answers with a position from `i` on that holds the key, or
/// with the length of the list when no such position exists.
pub proof fn find_from_found(keys: Seq<Seq<char>>, key: Seq<char>, i: int)
    requires
        0 <= i <= keys.len(),
    ensures
        i <= find_from(keys, key, i) <= keys.len(),
        find_from(keys, key, i) < keys.len() ==> keys[find_from(keys, key, i)] == key,
        forall|j: int| i <= j < find_from(keys, key, i) ==> keys[j] != key,
    decreases keys.len() - i,
{
    if i < keys.len() && keys[i] != key {
        find_from_found(keys, key, i + 1);
    }
}

/// A list holds a key exactly when the key has a position in it.
pub proof fn position_of_contains(keys: Seq<Seq<char>>, key: Seq<char>)
    ensures
        has_key(keys, key) <==> keys.contains(key),
{
    find_from_found(keys, key, 0);
    if keys.contains(key) {
        let i = choose|i: int| 0 <= i < keys.len() && keys[i] == key;
        assert(position_of(keys, key) <= i);
    }
}

/// The first position at or after `i` whose key is not less than `key`; the
/// length of the list when there is none.
pub open spec fn lower_bound_from(keys: Seq<Seq<char>>, key: Seq<char>, i: int) -> int
    decreases keys.len() - i,
{
    if 0 <= i < keys.len() && text_less(keys[i], key) {
        lower_bound_from(keys, key, i + 1)
    } else {
        i
    }
}

/// The position at which `key` belongs in a list kept in key order.
pub open spec fn lower_bound(keys: Seq<Seq<char>>, key: Seq<char>) -> int {
    lower_bound_from(keys, key, 0)
}

/// `lower_bound_from` answers with a position from `i` up to the length of
/// the list; the keys before it, from `i` on, are less than `key`, and the
/// key at it is not.
pub proof fn lower_bound_from_found(keys: Seq<Seq<char>>, key: Seq<char>, i: int)
    requires
        0 <= i <= keys.len(),
    ensures
        i <= lower_bound_from(keys, key, i) <= keys.len(),
        lower_bound_from(keys, key, i) < keys.len() ==> !text_less(
            keys[lower_bound_from(keys, key, i)],
            key,
        ),
        forall|j: int| i <= j < lower_bound_from(keys, key, i) ==> text_less(keys[j], key),
    decreases keys.len() - i,
{
    if i < keys.len() && text_less(keys[i], key) {
        lower_bound_from_found(keys, key, i + 1);
    }
}

/// The list with `key` bound to `value`: the entry that had the key is
/// replaced where it stood at the position where the key belongs, and
/// otherwise a new entry is put there.
pub open spec fn sorted_insert<V>(s: Seq<(Seq<char>, V)>, key: Seq<char>, value: V) -> Seq<
    (Seq<char>, V),
> {
    let i = lower_bound(keys_of(s), key);
    if 0 <= i < s.len() && s[i].0 == key {
        s.update(i, (key, value))
    } else if 0 <= i <= s.len() {
        s.insert(i, (key, value))
    } else {
        s
    }
}

/// The list with `key` bound to `value`: in the place of the first entry
/// with that key, or at the end.
pub open spec fn assoc_put<V>(s: Seq<(Seq<char>, V)>, key: Seq<char>, value: V) -> Seq<
    (Seq<char>, V),
> {
    let i = position_of(keys_of(s), key);
    if 0 <= i < s.len() {
        s.update(i, (key, value))
    } else {
        s.push((key, value))
    }
}

/// The list without the first entry with the given key.
pub open spec fn assoc_remove<V>(s: Seq<(Seq<char>, V)>, key: Seq<char>) -> Seq<(Seq<char>, V)> {
    let i = position_of(keys_of(s), key);
    if 0 <= i < s.len() {
        s.remove(i)
    } else {
        s
    }
}

/// The value of the first entry with the given key, or `default`.
pub open spec fn lookup_or<V>(s: Seq<(Seq<char>, V)>, key: Seq<char>, default: V) -> V {
    match lookup(s, key) {
        Some(v) => v,
        None => default,
    }
}

/// Whether the keys are in strictly ascending order.
pub open spec fn strictly_sorted(keys: Seq<Seq<char>>) -> bool {
    forall|i: int, j: int|
        0 <= i < j < keys.len() ==> text_less(#[trigger] keys[i], #[trigger] keys[j])
}

/// The position of a key is the one that holds it and has only other keys
/// before it.
pub proof fn position_is(keys: Seq<Seq<char>>, key: Seq<char>, i: int)
    requires
        0 <= i <= keys.len(),
        i < keys.len() ==> keys[i] == key,
        forall|j: int| 0 <= j < i ==> keys[j] != key,
    ensures
        position_of(keys, key) == i,
{
    find_from_found(keys, key, 0);
}

/// Keys in strictly ascending order are all different.
pub proof fn sorted_keys_distinct(keys: Seq<Seq<char>>)
    requires
        strictly_sorted(keys),
    ensures
        keys.no_duplicates(),
{
    assert forall|i: int, j: int| 0 <= i < keys.len() && 0 <= j < keys.len() && i != j implies keys[i]
        != keys[j] by {
        text_less_irreflexive(keys[i]);
        if i < j {
            assert(text_less(keys[i], keys[j]));
        } else {
            assert(text_less(keys[j], keys[i]));
        }
    }
}

/// Binding a key in a list in key order leaves the list in key order.
pub proof fn sorted_insert_keeps_order<V>(s: Seq<(Seq<char>, V)>, key: Seq<char>, value: V)
    requires
        strictly_sorted(keys_of(s)),
    ensures
        strictly_sorted(keys_of(sorted_insert(s, key, value))),
{
    let keys = keys_of(s);
    let i = lower_bound(keys, key);
    lower_bound_from_found(keys, key, 0);
    let after = keys_of(sorted_insert(s, key, value));
    if i < s.len() && s[i].0 == key {
        assert(after =~= keys);
    } else {
        assert(after =~= keys.insert(i, key));
        if i < keys.len() {
            text_less_total(key, keys[i]);
        }
        assert forall|x: int, y: int| 0 <= x < y < after.len() implies text_less(
            #[trigger] after[x],
            #[trigger] after[y],
        ) by {
            if x < i && y < i {
                assert(text_less(keys[x], keys[y]));
            } else if x < i && y == i {
                assert(text_less(keys[x], key));
            } else if x < i {
                assert(text_less(keys[x], keys[y - 1]));
            } else if x == i {
                if y - 1 > i {
                    assert(text_less(keys[i], keys[y - 1]));
                    text_less_transitive(key, keys[i], keys[y - 1]);
                }
            } else {
                assert(text_less(keys[x - 1], keys[y - 1]));
            }
        }
    }
}

/// After a key is bound, a lookup of the key gives the new value and a
/// lookup of any other key gives what it gave before.
pub proof fn lookup_after_insert<V>(
    s: Seq<(Seq<char>, V)>,
    key: Seq<char>,
    value: V,
    other: Seq<char>,
)
    ensures
        lookup(sorted_insert(s, key, value), other) == if other == key {
            Some(value)
        } else {
            lookup(s, other)
        },
{
    let keys = keys_of(s);
    let i = lower_bound(keys, key);
    lower_bound_from_found(keys, key, 0);
    text_less_irreflexive(key);
    let r = sorted_insert(s, key, value);
    let after = keys_of(r);
    let p = position_of(keys, other);
    find_from_found(keys, other, 0);
    if i < s.len() && s[i].0 == key {
        assert(after =~= keys);
        if other == key {
            position_is(keys, key, i);
        }
    } else {
        assert(after =~= keys.insert(i, key));
        if other == key {
            position_is(after, key, i);
        } else {
            let q = if p < i {
                p
            } else {
                p + 1
            };
            assert forall|j: int| 0 <= j < q implies after[j] != other by {
                if j < i {
                    assert(after[j] == keys[j]);
                } else if j > i {
                    assert(after[j] == keys[j - 1]);
                }
            }
            position_is(after, other, q);
        }
    }
}

/// After a key is bound by `assoc_put`, a lookup of the key gives the new
/// value and a lookup of any other key gives what it gave before.
pub proof fn lookup_after_put<V>(s: Seq<(Seq<char>, V)>, key: Seq<char>, value: V, other: Seq<char>)
    ensures
        lookup(assoc_put(s, key, value), other) == if other == key {
            Some(value)
        } else {
            lookup(s, other)
        },
{
    let keys = keys_of(s);
    let i = position_of(keys, key);
    find_from_found(keys, key, 0);
    let p = position_of(keys, other);
    find_from_found(keys, other, 0);
    let after = keys_of(assoc_put(s, key, value));
    if i < s.len() {
        assert(after =~= keys);
    } else {
        assert(after =~= keys.push(key));
        if other == key {
            position_is(after, key, i);
        } else {
            if p < keys.len() {
                position_is(after, other, p);
            } else {
                position_is(after, other, p + 1);
            }
        }
    }
}

/// After a key is taken out of a list of different keys, a lookup of the
/// key gives nothing and a lookup of any other key gives what it gave
/// before.
pub proof fn lookup_after_remove<V>(s: Seq<(Seq<char>, V)>, key: Seq<char>, other: Seq<char>)
    requires
        keys_of(s).no_duplicates(),
    ensures
        lookup(assoc_remove(s, key), other) == if other == key {
            None
        } else {
            lookup(s, other)
        },
{
    let keys = keys_of(s);
    let i = position_of(keys, key);
    find_from_found(keys, key, 0);
    let p = position_of(keys, other);
    find_from_found(keys, other, 0);
    let after = keys_of(assoc_remove(s, key));
    if i < s.len() {
        assert(after =~= keys.remove(i));
        if other == key {
            assert forall|j: int| 0 <= j < after.len() implies after[j] != key by {
                if j < i {
                    assert(after[j] == keys[j]);
                } else {
                    assert(after[j] == keys[j + 1]);
                }
            }
            position_is(after, key, after.len() as int);
        } else {
            let q = if p < i {
                p
            } else {
                p - 1
            };
            assert forall|j: int| 0 <= j < q implies after[j] != other by {
                if j < i {
                    assert(after[j] == keys[j]);
                } else {
                    assert(after[j] == keys[j + 1]);
                }
            }
            position_is(after, other, q);
        }
    }
}

/// Taking a key out of a list in key order leaves the list in key order.
pub proof fn remove_keeps_order<V>(s: Seq<(Seq<char>, V)>, key: Seq<char>)
    requires
        strictly_sorted(keys_of(s)),
    ensures
        strictly_sorted(keys_of(assoc_remove(s, key))),
{
    let keys = keys_of(s);
    let i = position_of(keys, key);
    find_from_found(keys, key, 0);
    let after = keys_of(assoc_remove(s, key));
    if i < s.len() {
        assert(after =~= keys.remove(i));
        assert forall|x: int, y: int| 0 <= x < y < after.len() implies text_less(
            #[trigger] after[x],
            #[trigger] after[y],
        ) by {
            let ox = if x < i {
                x
            } else {
                x + 1
            };
            let oy = if y < i {
                y
            } else {
                y + 1
            };
            assert(text_less(keys[ox], keys[oy]));
        }
    }
}

/// Whether `names` holds `name`.
pub fn contains_name(names: &Vec<String>, name: &String) -> (r: bool)
    ensures
        r == names_view(names@).contains(name@),
{
    let mut i: usize = 0;
    while i < names.len()
        invariant
            i <= names.len(),
            forall|j: int| 0 <= j < i ==> names_view(names@)[j] != name@,
        decreases names.len() - i,
    {
        if names[i] == *name {
            assert(names_view(names@)[i as int] == name@);
            return true;
        }
        i = i + 1;
    }
    false
}

/// Finds the first entry with the given key.
pub fn key_position<T>(entries: &Vec<(String, T)>, key: &String) -> (i: usize)
    ensures
        i == position_of(entry_keys(entries@), key@),
        i <= entries.len(),
        i < entries.len() ==> entries@[i as int].0@ == key@,
{
    let mut i: usize = 0;
    while i < entries.len()
        invariant
            i <= entries.len(),
            position_of(entry_keys(entries@), key@) == find_from(
                entry_keys(entries@),
                key@,
                i as int,
            ),
        decreases entries.len() - i,
    {
        if entries[i].0 == *key {
            return i;
        }
        i = i + 1;
    }
    i
}

/// Whether the key of entry `i` is less than the key whose characters are
/// given.
fn key_before<T>(entries: &Vec<(String, T)>, i: usize, key_chars: &Vec<char>) -> (r: bool)
    requires
        i < entries.len(),
    ensures
        r == text_less(entries@[i as int].0@, key_chars@),
{
    let here = to_chars(entries[i].0.as_str());
    chars_less(&here, key_chars)
}

/// Binds `key` to `value` in a list kept in key order: replaces the entry
/// with that key, or puts a new entry where the key belongs.
pub fn insert_sorted<T>(entries: &mut Vec<(String, T)>, key: String, value: T)
    ensures
        ({
            let i = lower_bound(entry_keys(old(entries)@), key@);
            &&& 0 <= i <= old(entries).len()
            &&& final(entries)@ == if i < old(entries).len() && old(entries)@[i].0@ == key@ {
                old(entries)@.update(i, (key, value))
            } else {
                old(entries)@.insert(i, (key, value))
            }
        }),
{
    let key_chars = to_chars(key.as_str());
    let mut i: usize = 0;
    while i < entries.len() && key_before(entries, i, &key_chars)
        invariant
            i <= entries.len(),
            key_chars@ == key@,
            lower_bound(entry_keys(entries@), key@) == lower_bound_from(
                entry_keys(entries@),
                key@,
                i as int,
            ),
        decreases entries.len() - i,
    {
        i = i + 1;
    }
    if i < entries.len() && entries[i].0 == key {
        entries.set(i, (key, value));
    } else {
        entries.insert(i, (key, value));
    }
}

} // verus!
