//! Sharded key-value storage: a fixed number of separately locked maps, and
//! the choice of the shard that holds a key.
use std::collections::hash_map::DefaultHasher;
use std::collections::HashMap;
use std::hash::{Hash, Hasher};
use std::sync::{Arc, Mutex};
use vstd::prelude::*;
use vstd::std_specs::hash::DefaultHasherAdditionalSpecFns;

verus! {

#[verifier::external_type_specification]
#[verifier::external_body]
#[verifier::reject_recursive_types(T)]
pub struct ExMutex<T: ?Sized>(Mutex<T>);

/// Relies on `std::sync::Mutex::new`: wraps a value in a new, unlocked lock.
pub assume_specification<T>[ Mutex::<T>::new ](t: T) -> Mutex<T>;

/// Shards of a string-keyed map, each behind its own lock.
pub type ShardedDb<V> = Arc<Vec<Mutex<HashMap<String, V>>>>;

/// The state of a hasher, in the model of `DefaultHasher`, after hashing a
/// string key into a hasher whose state was `before`.
pub uninterp spec fn str_hash_state(before: Seq<Seq<u8>>, key: Seq<char>) -> Seq<Seq<u8>>;

/// Relies on `<str as Hash>::hash`: it feeds the key into the hasher, and
/// what the hasher holds afterwards depends on what it held and on the key.
#[verifier::external_body]
fn feed_key(key: &str, hasher: &mut DefaultHasher)
    ensures
        final(hasher)@ == str_hash_state(old(hasher)@, key@),
{
    key.hash(hasher)
}

/// The 64-bit hash of a string key under a fresh `DefaultHasher`.
pub open spec fn key_hash(key: Seq<char>) -> u64 {
    DefaultHasher::spec_finish(str_hash_state(Seq::empty(), key))
}

/// Hashes a key with a fresh `DefaultHasher`, as a `usize`.
pub fn hash(key: &str) -> (r: usize)
    ensures
        r == key_hash(key@) as usize,
{
    let mut hasher = DefaultHasher::new();
    feed_key(key, &mut hasher);
    hasher.finish() as usize
}

/// A sharded map with `num_shards` empty shards.
pub fn new_sharded_db<V>(num_shards: usize) -> (db: ShardedDb<V>)
    ensures
        db@.len() == num_shards,
{
    let mut shards: Vec<Mutex<HashMap<String, V>>> = Vec::with_capacity(num_shards);
    let mut i: usize = 0;
    while i < num_shards
        invariant
            i <= num_shards,
            shards@.len() == i,
        decreases num_shards - i,
    {
        shards.push(Mutex::new(HashMap::new()));
        i += 1;
    }
    Arc::new(shards)
}

/// The index of the shard that holds `key`: its hash modulo the number of
/// shards, found before any shard is locked.
pub fn divine_hashmap<V>(db: &ShardedDb<V>, key: &str) -> (r: usize)
    requires
        db@.len() > 0,
    ensures
        r as int == (key_hash(key@) as usize) as int % (db@.len() as int),
        r < db@.len(),
{
    hash(key) % db.len()
}

} // verus!
