//! A JSON document as the plugin reads it, and the searches it runs on one.

use vstd::prelude::*;
use crate::text::str_eq;

verus! {

/// A JSON value. Object members keep the order in which the parser yields
/// them; a number is kept as the text the parser reads it from, since
/// nothing here computes with one.
#[derive(Debug)]
pub enum Json {
    Null,
    Bool(bool),
    Number(String),
    Str(String),
    Array(Vec<Json>),
    Object(Vec<(String, Json)>),
}

/// The value of the first member named `key`.
pub open spec fn object_get(entries: Seq<(String, Json)>, key: Seq<char>) -> Option<Json>
    decreases entries.len(),
{
    if entries.len() == 0 {
        None
    } else if entries[0].0@ == key {
        Some(entries[0].1)
    } else {
        object_get(entries.drop_first(), key)
    }
}

/// The text of the string member `key` of an object.
pub open spec fn member_str(j: Json, key: Seq<char>) -> Option<Seq<char>> {
    match j {
        Json::Object(entries) => match object_get(entries@, key) {
            Some(Json::Str(s)) => Some(s@),
            _ => None,
        },
        _ => None,
    }
}

/// The string member `key` of an object; see [`member_str`].
pub fn member_string<'a>(j: &'a Json, key: &str) -> (res: Option<&'a String>)
    ensures
        match member_str(*j, key@) {
            Some(t) => res matches Some(s) && s@ == t,
            None => res is None,
        },
{
    if let Json::Object(entries) = j {
        if let Some(Json::Str(s)) = object_get_exec(entries, key) {
            return Some(s);
        }
    }
    None
}

/// The text of a non-empty string value.
pub open spec fn truthy_str(v: Json) -> Option<Seq<char>> {
    match v {
        Json::Str(s) => if s@.len() > 0 {
            Some(s@)
        } else {
            None
        },
        _ => None,
    }
}

/// The first value stored under `key` anywhere in `j`, searching an
/// object's own members before the members' values, depth first.
pub open spec fn find_key(j: Json, key: Seq<char>) -> Option<Json>
    decreases j,
{
    match j {
        Json::Object(entries) => match object_get(entries@, key) {
            Some(v) => Some(v),
            None => find_key_in_members(entries@, key),
        },
        Json::Array(items) => find_key_in_items(items@, key),
        _ => None,
    }
}

pub open spec fn find_key_in_members(entries: Seq<(String, Json)>, key: Seq<char>) -> Option<Json>
    decreases entries,
{
    if entries.len() == 0 {
        None
    } else {
        match find_key(entries[0].1, key) {
            Some(v) => Some(v),
            None => find_key_in_members(entries.drop_first(), key),
        }
    }
}

pub open spec fn find_key_in_items(items: Seq<Json>, key: Seq<char>) -> Option<Json>
    decreases items,
{
    if items.len() == 0 {
        None
    } else {
        match find_key(items[0], key) {
            Some(v) => Some(v),
            None => find_key_in_items(items.drop_first(), key),
        }
    }
}

/// The value of the first member of `entries` named `key`.
pub fn object_get_exec<'a>(entries: &'a Vec<(String, Json)>, key: &str) -> (res: Option<&'a Json>)
    ensures
        match object_get(entries@, key@) {
            Some(v) => res matches Some(r) && *r == v,
            None => res is None,
        },
{
    let mut i: usize = 0;
    assert(entries@.subrange(0, entries@.len() as int) =~= entries@);
    while i < entries.len()
        invariant
            i <= entries@.len(),
            object_get(entries@, key@) == object_get(entries@.subrange(i as int, entries@.len() as int), key@),
        decreases entries@.len() - i,
    {
        let ghost rest = entries@.subrange(i as int, entries@.len() as int);
        if str_eq(entries[i].0.as_str(), key) {
            assert(rest[0] == entries@[i as int]);
            return Some(&entries[i].1);
        }
        assert(rest.drop_first() =~= entries@.subrange(i + 1, entries@.len() as int));
        i = i + 1;
    }
    None
}

/// The first value stored under `key` anywhere in `value`; see [`find_key`].
#[verifier::loop_isolation(false)]
pub fn nested_value<'a>(value: &'a Json, key: &str) -> (res: Option<&'a Json>)
    ensures
        match find_key(*value, key@) {
            Some(v) => res matches Some(r) && *r == v,
            None => res is None,
        },
    decreases value,
{
    match value {
        Json::Object(entries) => {
            if let Some(v) = object_get_exec(entries, key) {
                return Some(v);
            }
            let mut i: usize = 0;
            assert(entries@.subrange(0, entries@.len() as int) =~= entries@);
            while i < entries.len()
                invariant
                    i <= entries@.len(),
                    find_key_in_members(entries@, key@) == find_key_in_members(
                        entries@.subrange(i as int, entries@.len() as int),
                        key@,
                    ),
                decreases entries@.len() - i,
            {
                let ghost rest = entries@.subrange(i as int, entries@.len() as int);
                assert(rest[0] == entries@[i as int]);
                if let Some(v) = nested_value(&entries[i].1, key) {
                    return Some(v);
                }
                assert(rest.drop_first() =~= entries@.subrange(i + 1, entries@.len() as int));
                i = i + 1;
            }
            None
        },
        Json::Array(items) => {
            let mut i: usize = 0;
            assert(items@.subrange(0, items@.len() as int) =~= items@);
            while i < items.len()
                invariant
                    i <= items@.len(),
                    find_key_in_items(items@, key@) == find_key_in_items(
                        items@.subrange(i as int, items@.len() as int),
                        key@,
                    ),
                decreases items@.len() - i,
            {
                let ghost rest = items@.subrange(i as int, items@.len() as int);
                assert(rest[0] == items@[i as int]);
                if let Some(v) = nested_value(&items[i], key) {
                    return Some(v);
                }
                assert(rest.drop_first() =~= items@.subrange(i + 1, items@.len() as int));
                i = i + 1;
            }
            None
        },
        _ => None,
    }
}

/// The first non-empty string stored under `key` anywhere in `j`: an
/// object's own member when it is one, else the first found in the values
/// of its members, in order, depth first.
pub open spec fn find_truthy(j: Json, key: Seq<char>) -> Option<Seq<char>>
    decreases j,
{
    match j {
        Json::Object(entries) => {
            let own = match object_get(entries@, key) {
                Some(v) => truthy_str(v),
                None => None,
            };
            if own is Some {
                own
            } else {
                find_truthy_in_members(entries@, key)
            }
        },
        Json::Array(items) => find_truthy_in_items(items@, key),
        _ => None,
    }
}

pub open spec fn find_truthy_in_members(entries: Seq<(String, Json)>, key: Seq<char>) -> Option<Seq<char>>
    decreases entries,
{
    if entries.len() == 0 {
        None
    } else {
        match find_truthy(entries[0].1, key) {
            Some(v) => Some(v),
            None => find_truthy_in_members(entries.drop_first(), key),
        }
    }
}

pub open spec fn find_truthy_in_items(items: Seq<Json>, key: Seq<char>) -> Option<Seq<char>>
    decreases items,
{
    if items.len() == 0 {
        None
    } else {
        match find_truthy(items[0], key) {
            Some(v) => Some(v),
            None => find_truthy_in_items(items.drop_first(), key),
        }
    }
}

/// The first member named `key` is the one that `object_get` finds.
proof fn lemma_object_get_first(entries: Seq<(String, Json)>, key: Seq<char>, i: int)
    requires
        0 <= i < entries.len(),
        entries[i].0@ == key,
        forall|j: int| 0 <= j < i ==> #[trigger] entries[j].0@ != key,
    ensures
        object_get(entries, key) == Some(entries[i].1),
    decreases i,
{
    if i > 0 {
        let rest = entries.drop_first();
        assert forall|j: int| 0 <= j < i - 1 implies #[trigger] rest[j].0@ != key by {
            assert(rest[j] == entries[j + 1]);
        }
        lemma_object_get_first(rest, key, i - 1);
    }
}

/// An object's own member comes first in the search for a non-empty string:
/// when its first member named `key` is a non-empty string, that string is
/// the result, whatever its other members hold.
pub proof fn lemma_truthy_own_member_wins(entries: Vec<(String, Json)>, key: Seq<char>, i: int)
    requires
        0 <= i < entries@.len(),
        entries@[i].0@ == key,
        forall|j: int| 0 <= j < i ==> #[trigger] entries@[j].0@ != key,
        entries@[i].1 matches Json::Str(s) && s@.len() > 0,
    ensures
        find_truthy(Json::Object(entries), key) == Some(entries@[i].1->Str_0@),
{
    lemma_object_get_first(entries@, key, i);
}

/// An object's own member comes first in the search for a key: the first
/// member named `key` is the result, whatever it holds and whatever the
/// other members hold.
pub proof fn lemma_own_member_wins(entries: Vec<(String, Json)>, key: Seq<char>, i: int)
    requires
        0 <= i < entries@.len(),
        entries@[i].0@ == key,
        forall|j: int| 0 <= j < i ==> #[trigger] entries@[j].0@ != key,
    ensures
        find_key(Json::Object(entries), key) == Some(entries@[i].1),
{
    lemma_object_get_first(entries@, key, i);
}

/// The text of `value` when it is a non-empty string.
pub fn truthy_string(value: &Json) -> (res: Option<String>)
    ensures
        match truthy_str(*value) {
            Some(t) => res matches Some(s) && s@ == t,
            None => res is None,
        },
{
    match value {
        Json::Str(s) => if !s.as_str().is_empty() {
            Some(s.clone())
        } else {
            None
        },
        _ => None,
    }
}

/// The first non-empty string stored under `key` anywhere in `value`; see
/// [`find_truthy`].
#[verifier::loop_isolation(false)]
pub fn nested_string(value: &Json, key: &str) -> (res: Option<String>)
    ensures
        match find_truthy(*value, key@) {
            Some(t) => res matches Some(s) && s@ == t,
            None => res is None,
        },
    decreases value,
{
    match value {
        Json::Object(entries) => {
            if let Some(v) = object_get_exec(entries, key) {
                if let Some(s) = truthy_string(v) {
                    return Some(s);
                }
            }
            let mut i: usize = 0;
            assert(entries@.subrange(0, entries@.len() as int) =~= entries@);
            while i < entries.len()
                invariant
                    i <= entries@.len(),
                    find_truthy_in_members(entries@, key@) == find_truthy_in_members(
                        entries@.subrange(i as int, entries@.len() as int),
                        key@,
                    ),
                decreases entries@.len() - i,
            {
                let ghost rest = entries@.subrange(i as int, entries@.len() as int);
                assert(rest[0] == entries@[i as int]);
                if let Some(s) = nested_string(&entries[i].1, key) {
                    return Some(s);
                }
                assert(rest.drop_first() =~= entries@.subrange(i + 1, entries@.len() as int));
                i = i + 1;
            }
            None
        },
        Json::Array(items) => {
            let mut i: usize = 0;
            assert(items@.subrange(0, items@.len() as int) =~= items@);
            while i < items.len()
                invariant
                    i <= items@.len(),
                    find_truthy_in_items(items@, key@) == find_truthy_in_items(
                        items@.subrange(i as int, items@.len() as int),
                        key@,
                    ),
                decreases items@.len() - i,
            {
                let ghost rest = items@.subrange(i as int, items@.len() as int);
                assert(rest[0] == items@[i as int]);
                if let Some(s) = nested_string(&items[i], key) {
                    return Some(s);
                }
                assert(rest.drop_first() =~= items@.subrange(i + 1, items@.len() as int));
                i = i + 1;
            }
            None
        },
        _ => None,
    }
}

} // verus!
