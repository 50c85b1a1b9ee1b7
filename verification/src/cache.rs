//! The read-through cache: a key-value store of string payloads, and
//! `get_or_fetch`, which returns the cached bundle when the key is
//! present and otherwise runs the producer once and persists its result.

use vstd::prelude::*;
use crate::codec::{
    enc_bundle,
    spec_decode,
    encode_bundle,
    decode_bundle,
    entry_ids_fit,
    lemma_bundle_round_trip,
};
use crate::errors::ClientError;
use crate::records::{CachedBundle, EntryModel};

verus! {

/// What a sequence of insertions leaves in the store: a later entry for
/// the same key wins.
pub open spec fn store_map(es: Seq<(String, String)>) -> Map<Seq<char>, Seq<char>>
    decreases es.len(),
{
    if es.len() == 0 {
        Map::empty()
    } else {
        store_map(es.drop_last()).insert(es.last().0@, es.last().1@)
    }
}

/// An in-memory key-value store of string payloads, the shape of the
/// persistent store the application keeps the cache in.
pub struct Store {
    entries: Vec<(String, String)>,
}

impl View for Store {
    type V = Map<Seq<char>, Seq<char>>;

    closed spec fn view(&self) -> Map<Seq<char>, Seq<char>> {
        store_map(self.entries@)
    }
}

impl Store {
    /// An empty store.
    pub fn new() -> (r: Store)
        ensures
            r@ == Map::<Seq<char>, Seq<char>>::empty(),
    {
        let s = Store { entries: Vec::new() };
        proof {
            assert(s.entries@.len() == 0);
        }
        s
    }

    /// Store `value` under `key`, replacing whatever was there.
    pub fn set(&mut self, key: &String, value: String)
        ensures
            final(self)@ == old(self)@.insert(key@, value@),
    {
        let ghost before = self.entries@;
        self.entries.push((key.clone(), value));
        proof {
            assert(self.entries@.drop_last() =~= before);
        }
    }

    /// Look `key` up.
    pub fn get(&self, key: &String) -> (r: Option<String>)
        ensures
            match r {
                Some(value) => self@.contains_key(key@) && value@ == self@[key@],
                None => !self@.contains_key(key@),
            },
    {
        let mut i: usize = self.entries.len();
        proof {
            assert(self.entries@.take(self.entries@.len() as int) =~= self.entries@);
        }
        while i > 0
            invariant
                i <= self.entries@.len(),
                self@.contains_key(key@) == store_map(
                    self.entries@.take(i as int),
                ).contains_key(key@),
                self@.contains_key(key@) ==> self@[key@] == store_map(
                    self.entries@.take(i as int),
                )[key@],
            decreases i,
        {
            let ghost cur = self.entries@.take(i as int);
            proof {
                assert(cur.drop_last() =~= self.entries@.take(i as int - 1));
                assert(cur.last() == self.entries@[i as int - 1]);
            }
            let e = &self.entries[i - 1];
            if e.0 == *key {
                return Some(e.1.clone());
            }
            i = i - 1;
        }
        proof {
            assert(self.entries@.take(0).len() == 0);
        }
        None
    }
}

/// The read-through cache. On a hit the stored payload is decoded and
/// returned; a payload that does not decode is a hard `CacheCorrupt`
/// failure, never a silent refetch. On a miss the producer runs exactly
/// once; its bundle is persisted under the key and returned, and its
/// error is passed through with nothing persisted.
pub fn get_or_fetch<F: FnOnce() -> Result<CachedBundle, ClientError>>(
    store: &mut Store,
    key: &String,
    producer: F,
) -> (r: Result<CachedBundle, ClientError>)
    requires
        producer.requires(()),
    ensures
        match r {
            Ok(b) => {
                if old(store)@.contains_key(key@) {
                    &&& spec_decode(old(store)@[key@]) == Some(b@)
                    &&& final(store)@ == old(store)@
                } else {
                    &&& call_ensures(producer, (), Ok(b))
                    &&& final(store)@ == old(store)@.insert(key@, enc_bundle(b@))
                }
            },
            Err(e) => {
                if old(store)@.contains_key(key@) {
                    &&& e == ClientError::CacheCorrupt
                    &&& spec_decode(old(store)@[key@]) is None
                    &&& final(store)@ == old(store)@
                } else {
                    &&& call_ensures(producer, (), Err(e))
                    &&& final(store)@ == old(store)@
                }
            },
        },
{
    match store.get(key) {
        Some(payload) => decode_bundle(payload.as_str()),
        None => {
            match producer() {
                Ok(b) => {
                    let payload = encode_bundle(&b);
                    store.set(key, payload);
                    Ok(b)
                },
                Err(e) => Err(e),
            }
        },
    }
}

/// Settle a cache write: a rejected write (quota exceeded, storage
/// disabled) is reported as a `CachePersist` warning and nothing more —
/// the freshly fetched bundle is returned to the caller either way,
/// never discarded. The caller performs the write against its real
/// store and hands the outcome in as a plain truth value.
pub fn persist_outcome(bundle: CachedBundle, write_accepted: bool) -> (r: (
    CachedBundle,
    Option<ClientError>,
))
    ensures
        r.0 == bundle,
        r.1 == (if write_accepted {
            None::<ClientError>
        } else {
            Some(ClientError::CachePersist)
        }),
{
    if write_accepted {
        (bundle, None)
    } else {
        (bundle, Some(ClientError::CachePersist))
    }
}

/// Idempotence of the read-through: after a miss persisted the fetched
/// bundle, the key is present and its payload decodes to that very
/// bundle. By the contract of `get_or_fetch`, a second call with the
/// store in that state is therefore a hit: it returns a structurally
/// equal bundle, leaves the store unchanged, and never runs its
/// producer.
pub proof fn lemma_get_or_fetch_idempotent(
    m: Map<Seq<char>, Seq<char>>,
    key: Seq<char>,
    es: Seq<EntryModel>,
)
    requires
        entry_ids_fit(es),
    ensures
        ({
            let persisted = m.insert(key, enc_bundle(es));
            persisted.contains_key(key) && spec_decode(persisted[key]) == Some(es)
        }),
{
    lemma_bundle_round_trip(es);
}

} // verus!
