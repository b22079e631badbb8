//! The cache that ties a conversation, known by a hash, to the cookie that served it last.

use moka::sync::Cache;
use vstd::prelude::*;

verus! {

/// `moka::sync::Cache`, whose inside stays out of sight.
#[verifier::external_type_specification]
#[verifier::external_body]
#[verifier::reject_recursive_types(K)]
#[verifier::reject_recursive_types(V)]
#[verifier::reject_recursive_types(S)]
pub struct ExCache<K, V, S>(moka::sync::Cache<K, V, S>);

/// What was inserted last under each key, whether or not the cache has let go of it since.
pub uninterp spec fn last_inserted(cache: Cache<u64, String>) -> Map<u64, Seq<char>>;

/// How many entries the cache was made to hold.
pub uninterp spec fn cache_capacity(cache: Cache<u64, String>) -> u64;

/// After how many seconds without use the cache was made to drop an entry.
pub uninterp spec fn cache_idle_secs(cache: Cache<u64, String>) -> u64;

/// The longest idle time that a cache can be made with: a thousand years of 365 days.
pub const LONGEST_IDLE_SECS: u64 = 1_000 * 365 * 24 * 3600;

/// What is known of the cache.
#[verifier::ext_equal]
pub struct Affinity {
    /// What was inserted last under each key.
    pub last: Map<u64, Seq<char>>,
    /// The number of entries that the cache is made to hold.
    pub capacity: u64,
    /// The seconds without use after which the cache drops an entry.
    pub idle_secs: u64,
}

impl Affinity {
    /// The affinity after `cookie` has served `hash`.
    pub open spec fn tied(self, hash: u64, cookie: Seq<char>) -> Self {
        Affinity { last: self.last.insert(hash, cookie), ..self }
    }

    /// What a lookup of `hash` can answer: nothing, or what was inserted last under it.
    pub open spec fn may_answer(self, hash: Option<u64>, answer: Option<Seq<char>>) -> bool {
        answer is Some ==> hash is Some && self.last.contains_key(hash->0) && answer->0
            == self.last[hash->0]
    }

    /// A lookup of `hash` was made, and answered this.
    ///
    /// Only a lookup shows this: outside of this module nothing else is known of it, so an answer
    /// that no lookup gave cannot be passed off as one.
    pub closed spec fn answered(self, hash: u64, answer: Option<Seq<char>>) -> bool {
        self.may_answer(Some(hash), answer)
    }
}

/// What a lookup says.
pub open spec fn said(found: Option<String>) -> Option<Seq<char>> {
    match found {
        Some(text) => Some(text@),
        None => None,
    }
}

/// What is known of `cache`.
pub open spec fn affinity_of(cache: Cache<u64, String>) -> Affinity {
    Affinity {
        last: last_inserted(cache),
        capacity: cache_capacity(cache),
        idle_secs: cache_idle_secs(cache),
    }
}

/// An empty cache with these limits.
///
/// Trusted: `moka::sync::Cache::builder`, with `max_capacity` and `time_to_idle`, and
/// `CacheBuilder::build`, which panics on an idle time of more than a thousand years. Nothing has
/// been inserted into the cache that comes back, and its limits are those asked for.
#[verifier::external_body]
pub(crate) fn new_cache(capacity: u64, idle_secs: u64) -> (cache: Cache<u64, String>)
    requires
        idle_secs <= LONGEST_IDLE_SECS,
    ensures
        last_inserted(cache).dom() == Set::<u64>::empty(),
        cache_capacity(cache) == capacity,
        cache_idle_secs(cache) == idle_secs,
{
    Cache::builder()
        .max_capacity(capacity)
        .time_to_idle(std::time::Duration::from_secs(idle_secs))
        .build()
}

/// Looks `hash` up.
///
/// Trusted: `moka::sync::Cache::get`. What comes back, if anything does, is a clone of the value
/// that was inserted last under the key. Whether anything comes back is not stated: an entry
/// leaves when it has been idle for too long or when the cache needs its place. That the answer
/// came from here is stated, as `answered`, which claims no more of it than the first clause.
#[verifier::external_body]
pub(crate) fn cache_get(cache: &Cache<u64, String>, hash: u64) -> (found: Option<String>)
    ensures
        found is Some ==> last_inserted(*cache).contains_key(hash) && found->0@ == last_inserted(
            *cache,
        )[hash],
        affinity_of(*cache).answered(hash, said(found)),
{
    cache.get(&hash)
}

/// Ties `hash` to `cookie`.
///
/// Trusted: `moka::sync::Cache::insert`. From here on `cookie` is what was inserted last under
/// the key; the other keys and the limits stay as they are. The method takes a shared reference;
/// the exclusive one here says that nobody else holds this cache.
#[verifier::external_body]
pub(crate) fn cache_insert(cache: &mut Cache<u64, String>, hash: u64, cookie: String)
    ensures
        last_inserted(*final(cache)) == last_inserted(*old(cache)).insert(hash, cookie@),
        cache_capacity(*final(cache)) == cache_capacity(*old(cache)),
        cache_idle_secs(*final(cache)) == cache_idle_secs(*old(cache)),
{
    cache.insert(hash, cookie)
}

} // verus!
