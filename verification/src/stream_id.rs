//! Stream identifiers and their validator.
//!
//! An identifier is the opaque byte string a transport session presents at
//! handshake time; equality is exact byte comparison and an empty
//! identifier is a validation failure, never a valid unmatched state. The
//! validator caches its verdicts with a time-to-live. With no external
//! authority configured, a cache miss on a non-empty identifier falls
//! through to acceptance: this is an extension point, so any non-empty
//! identifier is currently accepted, not a statement that all are valid.

use vstd::prelude::*;

use crate::errors::RelayError;
use crate::search::find_first;
use crate::search::lemma_find_first_none;
use crate::search::lemma_find_first_push;
use crate::search::lemma_find_first_some;
use crate::search::lemma_find_first_update_match;
use crate::settings::DEFAULT_CACHE_TTL_MS;

verus! {

/// A validated stream identifier: a non-empty byte string.
#[derive(Debug)]
pub struct StreamId {
    bytes: Vec<u8>,
}

impl View for StreamId {
    type V = Seq<u8>;

    closed spec fn view(&self) -> Seq<u8> {
        self.bytes@
    }
}

impl StreamId {
    /// A stream identifier is never empty.
    pub open spec fn wf(&self) -> bool {
        self@.len() > 0
    }

    /// Wraps raw identifier bytes; an empty identifier is rejected.
    pub fn new(bytes: Vec<u8>) -> (r: Result<StreamId, RelayError>)
        ensures
            bytes@.len() > 0 ==> (r matches Ok(id) && id@ == bytes@ && id.wf()),
            bytes@.len() == 0 ==> (r matches Err(e) && e == RelayError::EmptyIdentifier),
    {
        if bytes.len() == 0 {
            Err(RelayError::EmptyIdentifier)
        } else {
            Ok(StreamId { bytes })
        }
    }

    /// The identifier's bytes, for hand-off to the transport layer.
    pub fn as_bytes(&self) -> (r: &Vec<u8>)
        ensures
            r@ == self@,
    {
        &self.bytes
    }
}

impl Clone for StreamId {
    fn clone(&self) -> (r: Self)
        ensures
            r@ == self@,
    {
        let r = StreamId { bytes: self.bytes.clone() };
        proof {
            assert(r.bytes@ =~= self.bytes@);
        }
        r
    }
}

impl PartialEq for StreamId {
    fn eq(&self, other: &Self) -> (r: bool) {
        let r = self.bytes == other.bytes;
        proof {
            if r {
                assert(self.bytes@ =~= other.bytes@);
            } else {
                if self.bytes@ == other.bytes@ {
                    assert(forall|i: int|
                        0 <= i < self.bytes@.len() ==> self.bytes@[i] == other.bytes@[i]);
                }
            }
        }
        r
    }
}

impl vstd::std_specs::cmp::PartialEqSpecImpl for StreamId {
    open spec fn obeys_eq_spec() -> bool {
        true
    }

    open spec fn eq_spec(&self, other: &Self) -> bool {
        self@ == other@
    }
}

impl Eq for StreamId {

}

/// One cache line: the identifier, whether it is valid, and the
/// timestamp of that validation.
struct CacheEntry {
    id: Vec<u8>,
    valid: bool,
    validated_at_ms: u64,
}

/// The ghost image of a cache entry.
pub struct CacheEntryModel {
    pub id: Seq<u8>,
    pub valid: bool,
    pub validated_at_ms: u64,
}

impl View for CacheEntry {
    type V = CacheEntryModel;

    closed spec fn view(&self) -> CacheEntryModel {
        CacheEntryModel { id: self.id@, valid: self.valid, validated_at_ms: self.validated_at_ms }
    }
}

/// The ghost image of the validator: its cached verdicts and the
/// time-to-live they are read under.
pub struct ValidatorModel {
    pub entries: Seq<CacheEntryModel>,
    pub ttl_ms: u64,
}

/// An entry still counts at `now_ms` if it is not older than the
/// time-to-live; an entry stamped in the future is treated as absent.
pub open spec fn entry_live(e: CacheEntryModel, now_ms: u64, ttl_ms: u64) -> bool {
    e.validated_at_ms <= now_ms && now_ms - e.validated_at_ms < ttl_ms
}

/// The lookup key of the cache: whether an entry concerns `id`.
pub open spec fn entry_has_id(id: Seq<u8>) -> spec_fn(CacheEntryModel) -> bool {
    |e: CacheEntryModel| e.id == id
}

/// The cached verdict for `id` at `now_ms`: stale entries are absent, and
/// expiry is lazy, read at lookup time with no background sweep.
pub open spec fn cache_verdict(m: ValidatorModel, id: Seq<u8>, now_ms: u64) -> Option<bool> {
    match find_first(m.entries, entry_has_id(id)) {
        Some(e) => if entry_live(e, now_ms, m.ttl_ms) {
            Some(e.valid)
        } else {
            None
        },
        None => None,
    }
}

/// At most one cache entry per identifier.
pub open spec fn distinct_entry_ids(entries: Seq<CacheEntryModel>) -> bool {
    forall|i: int, j: int|
        0 <= i < j < entries.len() ==> (#[trigger] entries[i]).id != (#[trigger] entries[j]).id
}

/// Validates stream identifiers, remembering verdicts for a while so a
/// reconnecting stream is not re-checked on every handshake.
pub struct StreamIdValidator {
    cache: Vec<CacheEntry>,
    cache_duration_ms: u64,
}

impl View for StreamIdValidator {
    type V = ValidatorModel;

    closed spec fn view(&self) -> ValidatorModel {
        ValidatorModel {
            entries: self.cache@.map_values(|e: CacheEntry| e@),
            ttl_ms: self.cache_duration_ms,
        }
    }
}

/// How one validation changes the cache: on acceptance of `id` the entry
/// for `id` holds a fresh positive verdict, every other identifier's
/// verdict reads as before, and the time-to-live is unchanged.
pub open spec fn cache_written(
    pre: ValidatorModel,
    post: ValidatorModel,
    id: Seq<u8>,
    now_ms: u64,
) -> bool {
    &&& post.ttl_ms == pre.ttl_ms
    &&& find_first(post.entries, entry_has_id(id)) == Some(
        CacheEntryModel { id: id, valid: true, validated_at_ms: now_ms },
    )
    &&& forall|other: Seq<u8>|
        other != id ==> #[trigger] find_first(post.entries, entry_has_id(other)) == find_first(
            pre.entries,
            entry_has_id(other),
        )
}

impl StreamIdValidator {
    /// The cache never holds two entries for one identifier.
    pub open spec fn wf(&self) -> bool {
        distinct_entry_ids(self@.entries)
    }

    /// A fresh validator: empty cache, default time-to-live.
    pub fn new() -> (v: StreamIdValidator)
        ensures
            v.wf(),
            v@.entries == Seq::<CacheEntryModel>::empty(),
            v@.ttl_ms == DEFAULT_CACHE_TTL_MS,
    {
        let v = StreamIdValidator { cache: Vec::new(), cache_duration_ms: DEFAULT_CACHE_TTL_MS };
        proof {
            assert(v@.entries =~= Seq::<CacheEntryModel>::empty());
        }
        v
    }

    /// The live cached verdict for `id` at `now_ms`, if any.
    pub fn check_cache(&self, id: &Vec<u8>, now_ms: u64) -> (r: Option<bool>)
        requires
            self.wf(),
        ensures
            r == cache_verdict(self@, id@, now_ms),
    {
        let mut i: usize = 0;
        while i < self.cache.len()
            invariant
                0 <= i <= self.cache.len(),
                forall|j: int| 0 <= j < i ==> !entry_has_id(id@)(self@.entries[j]),
                self@.entries == self.cache@.map_values(|e: CacheEntry| e@),
            decreases self.cache.len() - i,
        {
            if self.cache[i].id == *id {
                proof {
                    assert(self.cache@[i as int].id@ =~= id@);
                    assert(self@.entries[i as int] == self.cache@[i as int]@);
                    lemma_find_first_some(self@.entries, entry_has_id(id@), i as int);
                }
                let e = &self.cache[i];
                if e.validated_at_ms <= now_ms && now_ms - e.validated_at_ms < self.cache_duration_ms {
                    return Some(e.valid);
                } else {
                    return None;
                }
            }
            proof {
                if self.cache@[i as int].id@ == id@ {
                    assert(forall|k: int|
                        0 <= k < self.cache@[i as int].id@.len()
                            ==> self.cache@[i as int].id@[k] == id@[k]);
                }
                assert(!entry_has_id(id@)(self@.entries[i as int]));
            }
            i = i + 1;
        }
        proof {
            lemma_find_first_none(self@.entries, entry_has_id(id@));
        }
        None
    }

    /// Records a fresh positive verdict for `id`, overwriting any earlier
    /// entry for the same identifier.
    pub fn update_cache(&mut self, id: &Vec<u8>, now_ms: u64)
        requires
            old(self).wf(),
        ensures
            final(self).wf(),
            cache_written(old(self)@, final(self)@, id@, now_ms),
    {
        let mut i: usize = 0;
        while i < self.cache.len()
            invariant
                0 <= i <= self.cache.len(),
                forall|j: int| 0 <= j < i ==> !entry_has_id(id@)(self@.entries[j]),
                self@.entries == self.cache@.map_values(|e: CacheEntry| e@),
                *self == *old(self),
                distinct_entry_ids(self@.entries),
            decreases self.cache.len() - i,
        {
            if self.cache[i].id == *id {
                proof {
                    assert(self.cache@[i as int].id@ =~= id@);
                }
                let entry = CacheEntry { id: id.clone(), valid: true, validated_at_ms: now_ms };
                proof {
                    assert(entry.id@ =~= id@);
                }
                let ghost pre_entries = self@.entries;
                proof {
                    assert(pre_entries[i as int] == self.cache@[i as int]@);
                    assert(self.cache@[i as int]@.id == self.cache@[i as int].id@);
                    assert(self.cache@[i as int].id@ == id@);
                    assert(pre_entries[i as int].id == id@);
                }
                self.cache.set(i, entry);
                proof {
                    assert(self@.entries =~= pre_entries.update(
                        i as int,
                        CacheEntryModel { id: id@, valid: true, validated_at_ms: now_ms },
                    ));
                    lemma_find_first_update_match(pre_entries, entry_has_id(id@), i as int, self@.entries[i as int]);
                    assert(distinct_entry_ids(self@.entries)) by {
                        assert(forall|k: int|
                            0 <= k < self@.entries.len() ==> (#[trigger] self@.entries[k]).id
                                == pre_entries[k].id);
                    }
                    assert forall|other: Seq<u8>| other != id@ implies find_first(
                        self@.entries,
                        entry_has_id(other),
                    ) == find_first(pre_entries, entry_has_id(other)) by {
                        crate::search::lemma_find_first_update_nomatch(
                            pre_entries,
                            entry_has_id(other),
                            i as int,
                            self@.entries[i as int],
                        );
                    }
                }
                return ;
            }
            proof {
                if self.cache@[i as int].id@ == id@ {
                    assert(forall|k: int|
                        0 <= k < self.cache@[i as int].id@.len()
                            ==> self.cache@[i as int].id@[k] == id@[k]);
                }
                assert(!entry_has_id(id@)(self@.entries[i as int]));
            }
            i = i + 1;
        }
        let entry = CacheEntry { id: id.clone(), valid: true, validated_at_ms: now_ms };
        proof {
            assert(entry.id@ =~= id@);
        }
        let ghost pre_entries = self@.entries;
        self.cache.push(entry);
        proof {
            assert(self@.entries =~= pre_entries.push(
                CacheEntryModel { id: id@, valid: true, validated_at_ms: now_ms },
            ));
            lemma_find_first_none(pre_entries, entry_has_id(id@));
            lemma_find_first_push(
                pre_entries,
                entry_has_id(id@),
                CacheEntryModel { id: id@, valid: true, validated_at_ms: now_ms },
            );
            assert forall|other: Seq<u8>| other != id@ implies find_first(
                self@.entries,
                entry_has_id(other),
            ) == find_first(pre_entries, entry_has_id(other)) by {
                lemma_find_first_push(
                    pre_entries,
                    entry_has_id(other),
                    CacheEntryModel { id: id@, valid: true, validated_at_ms: now_ms },
                );
            }
        }
    }

    /// Validates the identifier read from a freshly accepted socket.
    ///
    /// A missing attribute and an empty identifier are distinct failures;
    /// a live cached verdict short-circuits; a miss falls through to
    /// acceptance (no external authority is configured) and is the one
    /// cache write. Rejections are not cached.
    pub fn validate_srt_stream_id(&mut self, raw_id: Option<Vec<u8>>, now_ms: u64) -> (r: Result<
        StreamId,
        RelayError,
    >)
        requires
            old(self).wf(),
        ensures
            final(self).wf(),
            final(self)@.ttl_ms == old(self)@.ttl_ms,
            raw_id is None ==> (r matches Err(e) && e == RelayError::AttributeReadFailed
                && final(self)@ == old(self)@),
            raw_id matches Some(b) ==> (if b@.len() == 0 {
                r matches Err(e) && e == RelayError::EmptyIdentifier && final(self)@ == old(self)@
            } else {
                match cache_verdict(old(self)@, b@, now_ms) {
                    Some(true) => r matches Ok(sid) && sid@ == b@ && final(self)@ == old(self)@,
                    Some(false) => r matches Err(e) && e == RelayError::InvalidStreamId
                        && final(self)@ == old(self)@,
                    None => r matches Ok(sid) && sid@ == b@ && cache_written(
                        old(self)@,
                        final(self)@,
                        b@,
                        now_ms,
                    ),
                }
            }),
            r matches Ok(sid) ==> sid.wf(),
    {
        let raw = match raw_id {
            Some(b) => b,
            None => {
                return Err(RelayError::AttributeReadFailed);
            },
        };
        if raw.len() == 0 {
            return Err(RelayError::EmptyIdentifier);
        }
        match self.check_cache(&raw, now_ms) {
            Some(true) => {
                return StreamId::new(raw);
            },
            Some(false) => {
                return Err(RelayError::InvalidStreamId);
            },
            None => {},
        }
        self.update_cache(&raw, now_ms);
        StreamId::new(raw)
    }
}

} // verus!
