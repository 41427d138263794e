//! Tables in stable memory.
//!
//! Each table is an `ic_stable_structures::StableBTreeMap` in a region of
//! stable memory handed out by a `MemoryManager`. The maps are held in
//! private fields; what a table holds is named by `byte_table_contents` and
//! `number_table_contents`, and the functions below say what each call does
//! to it, as the crate's source shows.
use ic_stable_structures::memory_manager::{MemoryId, MemoryManager, VirtualMemory};
use ic_stable_structures::{DefaultMemoryImpl, StableBTreeMap};
use vstd::prelude::*;
use crate::codec::bytes_lt;

verus! {

/// The stable memory of the canister (a vector in memory off the Internet
/// Computer), split into regions by a memory manager. Each constructor of the
/// library takes it by value and builds each of its tables over a region of
/// its own, so no two tables share a region.
#[verifier::external_body]
pub struct Regions {
    manager: MemoryManager<DefaultMemoryImpl>,
}

/// One region of stable memory.
#[verifier::external_body]
pub struct Region {
    memory: VirtualMemory<DefaultMemoryImpl>,
}

/// A map from byte strings to byte strings, ordered by key.
#[verifier::external_body]
pub struct ByteTable {
    map: StableBTreeMap<Vec<u8>, Vec<u8>, VirtualMemory<DefaultMemoryImpl>>,
}

/// A map from numbers to byte strings, ordered by key.
#[verifier::external_body]
pub struct NumberTable {
    map: StableBTreeMap<u64, Vec<u8>, VirtualMemory<DefaultMemoryImpl>>,
}

/// The map that holds nothing.
pub open spec fn empty_byte_map() -> Map<Seq<u8>, Seq<u8>> {
    Map::empty()
}

/// The map that holds nothing.
pub open spec fn empty_number_map() -> Map<u64, Seq<u8>> {
    Map::empty()
}

/// What a byte table holds.
pub uninterp spec fn byte_table_contents(t: ByteTable) -> Map<Seq<u8>, Seq<u8>>;

/// What a number table holds.
pub uninterp spec fn number_table_contents(t: NumberTable) -> Map<u64, Seq<u8>>;

/// `MemoryManager::init` on the default memory (`DefaultMemoryImpl::default()`).
/// Nothing is claimed of it.
#[verifier::external_body]
pub fn regions_init() -> Regions {
    Regions { manager: MemoryManager::init(DefaultMemoryImpl::default()) }
}

/// `MemoryManager::get` for the region with the given id (`MemoryId::new`
/// panics on 255, which `requires` leaves out). Nothing is claimed of it.
#[verifier::external_body]
pub(crate) fn region(regions: &Regions, id: u8) -> Region
    requires
        id != 255,
{
    Region { memory: regions.manager.get(MemoryId::new(id)) }
}

/// `StableBTreeMap::init`: the map that the region holds, or a new empty one
/// where it holds none. What it holds is left open, but for its being finite;
/// the call traps on a region that holds a damaged map, which is left unsaid.
#[verifier::external_body]
pub(crate) fn byte_table_init(region: Region) -> (r: ByteTable)
    ensures
        byte_table_contents(r).dom().finite(),
{
    ByteTable { map: StableBTreeMap::init(region.memory) }
}

/// `StableBTreeMap::init` for a number table: what the region holds, or a
/// new empty map; only its being finite is claimed, and the trap on a damaged
/// map is left unsaid.
#[verifier::external_body]
pub(crate) fn number_table_init(region: Region) -> (r: NumberTable)
    ensures
        number_table_contents(r).dom().finite(),
{
    NumberTable { map: StableBTreeMap::init(region.memory) }
}

/// `StableBTreeMap::new`: a new map, which holds nothing.
#[verifier::external_body]
pub(crate) fn byte_table_new(region: Region) -> (r: ByteTable)
    ensures
        byte_table_contents(r) == empty_byte_map(),
{
    ByteTable { map: StableBTreeMap::new(region.memory) }
}

/// `StableBTreeMap::get`: the value under `key`, if any.
#[verifier::external_body]
pub(crate) fn byte_table_get(t: &ByteTable, key: &Vec<u8>) -> (r: Option<Vec<u8>>)
    ensures
        match r {
            Some(v) => byte_table_contents(*t).contains_key(key@) && v@ == byte_table_contents(
                *t,
            )[key@],
            None => !byte_table_contents(*t).contains_key(key@),
        },
{
    t.map.get(key)
}

/// `StableBTreeMap::contains_key`.
#[verifier::external_body]
pub(crate) fn byte_table_contains(t: &ByteTable, key: &Vec<u8>) -> (r: bool)
    ensures
        r == byte_table_contents(*t).contains_key(key@),
{
    t.map.contains_key(key)
}

/// `StableBTreeMap::insert`: puts `value` under `key`, replacing what was there.
/// The call traps when stable memory cannot grow; that is left unsaid.
#[verifier::external_body]
pub(crate) fn byte_table_insert(t: &mut ByteTable, key: Vec<u8>, value: Vec<u8>)
    ensures
        byte_table_contents(*final(t)) == byte_table_contents(*old(t)).insert(key@, value@),
{
    t.map.insert(key, value);
}

/// `StableBTreeMap::remove`: takes out what is under `key`.
#[verifier::external_body]
pub(crate) fn byte_table_remove(t: &mut ByteTable, key: &Vec<u8>)
    ensures
        byte_table_contents(*final(t)) == byte_table_contents(*old(t)).remove(key@),
{
    t.map.remove(key);
}

/// `StableBTreeMap::len`: the number of entries.
#[verifier::external_body]
pub(crate) fn byte_table_len(t: &ByteTable) -> (r: u64)
    ensures
        r == byte_table_contents(*t).len(),
{
    t.map.len()
}

/// `StableBTreeMap::iter`, collected: every entry once, in increasing order of
/// keys (the order of `Vec<u8>`, which is lexicographic).
#[verifier::external_body]
pub(crate) fn byte_table_entries(t: &ByteTable) -> (r: Vec<(Vec<u8>, Vec<u8>)>)
    ensures
        forall|i: int|
            0 <= i < r@.len() ==> byte_table_contents(*t).contains_key(#[trigger] r@[i].0@)
                && byte_table_contents(*t)[r@[i].0@] == r@[i].1@,
        forall|k: Seq<u8>|
            byte_table_contents(*t).contains_key(k) ==> exists|i: int|
                0 <= i < r@.len() && #[trigger] r@[i].0@ == k,
        forall|i: int, j: int| 0 <= i < j < r@.len() ==> bytes_lt(r@[i].0@, r@[j].0@),
{
    t.map.iter().collect()
}

/// `StableBTreeMap::first_key_value`, its key: the least key, if any.
#[verifier::external_body]
pub(crate) fn byte_table_first_key(t: &ByteTable) -> (r: Option<Vec<u8>>)
    ensures
        match r {
            Some(k) => byte_table_contents(*t).contains_key(k@) && forall|j: Seq<u8>|
                #[trigger] byte_table_contents(*t).contains_key(j) ==> !bytes_lt(j, k@),
            None => byte_table_contents(*t).dom() == Set::<Seq<u8>>::empty(),
        },
{
    t.map.first_key_value().map(|(k, _)| k)
}

/// `StableBTreeMap::new`: a new map, which holds nothing.
#[verifier::external_body]
pub(crate) fn number_table_new(region: Region) -> (r: NumberTable)
    ensures
        number_table_contents(r) == empty_number_map(),
{
    NumberTable { map: StableBTreeMap::new(region.memory) }
}

/// `StableBTreeMap::insert`: puts `value` under `key`, replacing what was there.
/// The call traps when stable memory cannot grow; that is left unsaid.
#[verifier::external_body]
pub(crate) fn number_table_insert(t: &mut NumberTable, key: u64, value: Vec<u8>)
    ensures
        number_table_contents(*final(t)) == number_table_contents(*old(t)).insert(key, value@),
{
    t.map.insert(key, value);
}

/// `StableBTreeMap::remove`: takes out what is under `key`.
#[verifier::external_body]
pub(crate) fn number_table_remove(t: &mut NumberTable, key: u64)
    ensures
        number_table_contents(*final(t)) == number_table_contents(*old(t)).remove(key),
{
    t.map.remove(&key);
}

/// `StableBTreeMap::len`: the number of entries.
#[verifier::external_body]
pub(crate) fn number_table_len(t: &NumberTable) -> (r: u64)
    ensures
        r == number_table_contents(*t).len(),
{
    t.map.len()
}

/// `StableBTreeMap::first_key_value`, its key: the least key, if any.
#[verifier::external_body]
pub(crate) fn number_table_first_key(t: &NumberTable) -> (r: Option<u64>)
    ensures
        match r {
            Some(k) => number_table_contents(*t).contains_key(k) && forall|j: u64|
                #[trigger] number_table_contents(*t).contains_key(j) ==> k <= j,
            None => number_table_contents(*t).dom() == Set::<u64>::empty(),
        },
{
    t.map.first_key_value().map(|(k, _)| k)
}

/// `StableBTreeMap::iter`, collected: every entry once, in increasing order of
/// keys.
#[verifier::external_body]
pub(crate) fn number_table_entries(t: &NumberTable) -> (r: Vec<(u64, Vec<u8>)>)
    ensures
        forall|i: int|
            0 <= i < r@.len() ==> number_table_contents(*t).contains_key(#[trigger] r@[i].0)
                && number_table_contents(*t)[r@[i].0] == r@[i].1@,
        forall|k: u64|
            number_table_contents(*t).contains_key(k) ==> exists|i: int|
                0 <= i < r@.len() && #[trigger] r@[i].0 == k,
        forall|i: int, j: int| 0 <= i < j < r@.len() ==> r@[i].0 < r@[j].0,
{
    t.map.iter().collect()
}

} // verus!
