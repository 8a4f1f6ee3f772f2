//! The table of resolved declarations: an `OrderMap` from declaration to target, which keeps
//! its entries in the order in which they were first inserted.
use crate::ts::Target;
use crate::ts::TargetView;
use std::hash::RandomState;
use vstd::prelude::*;

verus! {

/// `ordermap::OrderMap`, carried as a type whose inside the verifier does not see.
#[verifier::external_type_specification]
#[verifier::external_body]
#[verifier::reject_recursive_types(K)]
#[verifier::reject_recursive_types(V)]
#[verifier::reject_recursive_types(S)]
pub struct ExOrderMap<K, V, S>(ordermap::OrderMap<K, V, S>);

/// One entry of a table as a mathematical value: the declaration and what it resolved to.
pub type Entry = (Seq<char>, TargetView);

/// What a table holds: its entries in the map's own order.
pub uninterp spec fn entries(table: ordermap::OrderMap<String, Target, RandomState>) -> Seq<Entry>;

/// Whether some entry stands under `key`.
pub open spec fn has_key(entries: Seq<Entry>, key: Seq<char>) -> bool {
    exists|i: int| 0 <= i < entries.len() && (#[trigger] entries[i]).0 == key
}

/// The target that stands under `key`, if any.
pub open spec fn lookup(entries: Seq<Entry>, key: Seq<char>) -> Option<TargetView>
    decreases entries.len(),
{
    if entries.len() == 0 {
        None
    } else if entries.last().0 == key {
        Some(entries.last().1)
    } else {
        lookup(entries.drop_last(), key)
    }
}

/// The entries without the one under `key`; the others keep their order.
pub open spec fn without(entries: Seq<Entry>, key: Seq<char>) -> Seq<Entry>
    decreases entries.len(),
{
    if entries.len() == 0 {
        entries
    } else if entries.last().0 == key {
        without(entries.drop_last(), key)
    } else {
        without(entries.drop_last(), key).push(entries.last())
    }
}

/// The entries after `value` was stored under `key`: in the place of the entry that stood
/// under `key`, or else at the end.
pub open spec fn with_entry(entries: Seq<Entry>, key: Seq<char>, value: TargetView) -> Seq<Entry> {
    if has_key(entries, key) {
        Seq::new(
            entries.len(),
            |i: int|
                if entries[i].0 == key {
                    (key, value)
                } else {
                    entries[i]
                },
        )
    } else {
        entries.push((key, value))
    }
}

/// A key has an entry exactly where a target can be looked up under it.
pub proof fn lemma_lookup_has_key(entries: Seq<Entry>, key: Seq<char>)
    ensures
        lookup(entries, key) is Some <==> has_key(entries, key),
    decreases entries.len(),
{
    if entries.len() > 0 {
        lemma_lookup_has_key(entries.drop_last(), key);
        if entries.last().0 == key {
            assert(entries[entries.len() - 1].0 == key);
        } else if has_key(entries, key) {
            let i = choose|i: int| 0 <= i < entries.len() && (#[trigger] entries[i]).0 == key;
            assert(entries.drop_last()[i].0 == key);
        } else if has_key(entries.drop_last(), key) {
            let i = choose|i: int|
                0 <= i < entries.drop_last().len() && (#[trigger] entries.drop_last()[i]).0 == key;
            assert(entries[i].0 == key);
        }
    }
}

/// `OrderMap::new`: a map without entries.
#[verifier::external_body]
pub(crate) fn new_table() -> (table: ordermap::OrderMap<String, Target, RandomState>)
    ensures
        entries(table) == Seq::<Entry>::empty(),
{
    ordermap::OrderMap::new()
}

/// `OrderMap::get`: a reference to the value stored under the key, or `None` where the map
/// has no such key.
#[verifier::external_body]
pub(crate) fn get<'a>(
    table: &'a ordermap::OrderMap<String, Target, RandomState>,
    key: &str,
) -> (found: Option<&'a Target>)
    ensures
        match found {
            Some(target) => lookup(entries(*table), key@) == Some(target@),
            None => lookup(entries(*table), key@) is None,
        },
{
    table.get(key)
}

/// `OrderMap::insert`: where the key is present its value is replaced in place and the old
/// value returned; where it is not, the pair goes to the end and `None` is returned.
#[verifier::external_body]
pub(crate) fn insert_entry(
    table: &mut ordermap::OrderMap<String, Target, RandomState>,
    key: String,
    value: Target,
) -> (previous: Option<Target>)
    ensures
        entries(*final(table)) == with_entry(entries(*old(table)), key@, value@),
        match previous {
            Some(target) => lookup(entries(*old(table)), key@) == Some(target@),
            None => lookup(entries(*old(table)), key@) is None,
        },
{
    table.insert(key, value)
}

/// `OrderMap::remove`: takes the pair under the key out and returns its value; the pairs
/// behind it move up and keep their order. `None` where the map has no such key.
#[verifier::external_body]
pub(crate) fn remove_entry(
    table: &mut ordermap::OrderMap<String, Target, RandomState>,
    key: &str,
) -> (removed: Option<Target>)
    ensures
        entries(*final(table)) == without(entries(*old(table)), key@),
        match removed {
            Some(target) => lookup(entries(*old(table)), key@) == Some(target@),
            None => lookup(entries(*old(table)), key@) is None,
        },
{
    table.remove(key)
}

/// `OrderMap::into_iter`: the pairs in the map's order.
#[verifier::external_body]
pub(crate) fn into_pairs(table: ordermap::OrderMap<String, Target, RandomState>) -> (pairs: Vec<
    (String, Target),
>)
    ensures
        pairs@.len() == entries(table).len(),
        forall|i: int|
            0 <= i < pairs@.len() ==> (#[trigger] pairs@[i]).0@ == entries(table)[i].0 && pairs@[i].1@
                == entries(table)[i].1,
{
    table.into_iter().collect()
}

} // verus!
