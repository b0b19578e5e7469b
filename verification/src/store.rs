//! The multi map of the crate `total-order-multi-map`, as the header map
//! keeps it: what it holds, and what each of its methods does to that.

use vstd::prelude::*;
use total_order_multi_map::TotalOrderMultiMap;
use crate::header::HeaderObj;

verus! {

/// One entry of the store: the key, as its characters, and the header
/// kept under it.
pub type Entry = (Seq<char>, HeaderObj);

/// A `TotalOrderMultiMap` from header names to boxed headers. It keeps
/// its entries in the order in which they were added, and finds the
/// entries of one key without looking at the others.
///
/// The map is kept from the verifier, which cannot take its declaration:
/// the map bounds its values by the trait `StableDeref`, of which the
/// verifier knows nothing. What is known of a store is what the functions
/// of this module say of it.
#[verifier::external_body]
pub struct HeaderStore {
    inner: TotalOrderMultiMap<&'static str, Box<HeaderObj>>,
}

/// The entries that a store holds, in the order in which they were added.
pub uninterp spec fn stored(store: HeaderStore) -> Seq<Entry>;

/// The headers kept under `key` among `entries`, in order.
pub open spec fn under(entries: Seq<Entry>, key: Seq<char>) -> Seq<HeaderObj>
    decreases entries.len(),
{
    if entries.len() == 0 {
        Seq::empty()
    } else if entries.last().0 == key {
        under(entries.drop_last(), key).push(entries.last().1)
    } else {
        under(entries.drop_last(), key)
    }
}

/// The entries that are not kept under `key`, in order.
pub open spec fn not_under(entries: Seq<Entry>, key: Seq<char>) -> Seq<Entry>
    decreases entries.len(),
{
    if entries.len() == 0 {
        Seq::empty()
    } else if entries.last().0 == key {
        not_under(entries.drop_last(), key)
    } else {
        not_under(entries.drop_last(), key).push(entries.last())
    }
}

/// `TotalOrderMultiMap::new` makes an empty map.
#[verifier::external_body]
pub(crate) fn store_new() -> (r: HeaderStore)
    ensures
        stored(r) == Seq::<Entry>::empty(),
{
    HeaderStore { inner: TotalOrderMultiMap::new() }
}

/// `TotalOrderMultiMap::len` counts all entries.
#[verifier::external_body]
pub(crate) fn store_len(store: &HeaderStore) -> (r: usize)
    ensures
        r == stored(*store).len(),
{
    store.inner.len()
}

/// `TotalOrderMultiMap::clear` empties the map.
#[verifier::external_body]
pub(crate) fn store_clear(store: &mut HeaderStore)
    ensures
        stored(*final(store)) == Seq::<Entry>::empty(),
{
    store.inner.clear()
}

/// `TotalOrderMultiMap::contains_key` says whether anything is kept
/// under the key.
#[verifier::external_body]
pub(crate) fn store_contains_key(store: &HeaderStore, key: &'static str) -> (r: bool)
    ensures
        r == (under(stored(*store), key@).len() > 0),
{
    store.inner.contains_key(key)
}

/// `TotalOrderMultiMap::get` hands out what is kept under the key, in
/// the order in which it was added.
#[verifier::external_body]
pub(crate) fn store_get<'a>(store: &'a HeaderStore, key: &'static str) -> (r: Vec<&'a HeaderObj>)
    ensures
        r@.len() == under(stored(*store), key@).len(),
        forall|i: int| 0 <= i < r@.len() ==> *(#[trigger] r@[i]) == under(stored(*store), key@)[i],
{
    store.inner.get(key).collect()
}

/// `TotalOrderMultiMap::iter` hands out all entries, in the order in
/// which they were added.
#[verifier::external_body]
pub(crate) fn store_iter<'a>(store: &'a HeaderStore) -> (r: Vec<(&'static str, &'a HeaderObj)>)
    ensures
        r@.len() == stored(*store).len(),
        forall|i: int|
            0 <= i < r@.len() ==> (#[trigger] r@[i]).0@ == stored(*store)[i].0 && *r@[i].1
                == stored(*store)[i].1,
{
    store.inner.iter().collect()
}

/// `TotalOrderMultiMap::into_iter` gives all entries up, in the order in
/// which they were added.
#[verifier::external_body]
pub(crate) fn store_into_iter(store: HeaderStore) -> (r: Vec<(&'static str, HeaderObj)>)
    ensures
        r@.len() == stored(store).len(),
        forall|i: int|
            0 <= i < r@.len() ==> (#[trigger] r@[i]).0@ == stored(store)[i].0 && r@[i].1 == stored(
                store,
            )[i].1,
{
    store.inner.into_iter().map(|(key, boxed)| (key, *boxed)).collect()
}

/// `TotalOrderMultiMap::add` puts the entry behind all others.
#[verifier::external_body]
pub(crate) fn store_add(store: &mut HeaderStore, key: &'static str, value: HeaderObj)
    ensures
        stored(*final(store)) == stored(*old(store)).push((key@, value)),
{
    store.inner.add(key, Box::new(value));
}

/// `TotalOrderMultiMap::set` takes out what is kept under the key and
/// hands it back, and puts the entry behind all others.
#[verifier::external_body]
pub(crate) fn store_set(store: &mut HeaderStore, key: &'static str, value: HeaderObj) -> (r: Vec<
    HeaderObj,
>)
    ensures
        stored(*final(store)) == not_under(stored(*old(store)), key@).push((key@, value)),
        r@ == under(stored(*old(store)), key@),
{
    store.inner.set(key, Box::new(value)).into_iter().map(|boxed| *boxed).collect()
}

/// `TotalOrderMultiMap::remove_all` takes out what is kept under the key
/// and says whether there was anything.
#[verifier::external_body]
pub(crate) fn store_remove_all(store: &mut HeaderStore, key: &'static str) -> (r: bool)
    ensures
        stored(*final(store)) == not_under(stored(*old(store)), key@),
        r == (under(stored(*old(store)), key@).len() > 0),
{
    store.inner.remove_all(key)
}

/// `TotalOrderMultiMap::extend` adds the entries of the other map, in
/// their order, behind all others.
#[verifier::external_body]
pub(crate) fn store_extend(store: &mut HeaderStore, other: HeaderStore)
    ensures
        stored(*final(store)) == stored(*old(store)) + stored(other),
{
    store.inner.extend(other.inner)
}

} // verus!
