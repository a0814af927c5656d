//! The block cache's key scheme and its best-effort read rule.
//!
//! The remote key-value store itself is the application's to talk to; what
//! is fixed here is the exact shape of every key and the rule that a failed
//! read counts as a miss and never surfaces to the caller.

use vstd::prelude::*;

use vstd::string::StringExecFns;

use crate::config::BlockCacheConfig;
use crate::text::{dec_str, u64_to_string};

verus! {

/// The key under which a block batch is cached:
/// `{prefix}:blocks:{slug}:{start}` with `:{end}` appended when the batch
/// has an explicit upper bound.
pub open spec fn spec_block_cache_key(
    prefix: Seq<char>,
    slug: Seq<char>,
    start: u64,
    end: Option<u64>,
) -> Seq<char> {
    prefix + ":blocks:"@ + slug + ":"@ + dec_str(start as nat) + (match end {
        Some(e) => ":"@ + dec_str(e as nat),
        None => Seq::empty(),
    })
}

/// The key under which a network's latest height is cached:
/// `{prefix}:latest:{slug}`.
pub open spec fn spec_latest_block_cache_key(prefix: Seq<char>, slug: Seq<char>) -> Seq<char> {
    prefix + ":latest:"@ + slug
}

impl BlockCacheConfig {
    /// The cache key for the blocks `start..=end` of a network.
    pub fn block_cache_key(&self, slug: &str, start: u64, end: Option<u64>) -> (key: String)
        ensures
            key@ == spec_block_cache_key(self.key_prefix@, slug@, start, end),
    {
        let mut key = self.key_prefix.clone();
        key.append(":blocks:");
        key.append(slug);
        key.append(":");
        let s = u64_to_string(start);
        key.append(s.as_str());
        match end {
            Some(e) => {
                key.append(":");
                let t = u64_to_string(e);
                key.append(t.as_str());
            },
            None => {},
        }
        proof {
            assert(key@ =~= spec_block_cache_key(self.key_prefix@, slug@, start, end));
        }
        key
    }

    /// The cache key for a network's latest block height.
    pub fn latest_block_cache_key(&self, slug: &str) -> (key: String)
        ensures
            key@ == spec_latest_block_cache_key(self.key_prefix@, slug@),
    {
        let mut key = self.key_prefix.clone();
        key.append(":latest:");
        key.append(slug);
        proof {
            assert(key@ =~= spec_latest_block_cache_key(self.key_prefix@, slug@));
        }
        key
    }
}

/// The cache is best-effort: a read that failed with an error counts as a
/// miss and never surfaces to the caller.
pub fn cache_read_or_miss<T>(outcome: Result<Option<T>, String>) -> (r: Option<T>)
    ensures
        match outcome {
            Ok(v) => r == v,
            Err(_) => r is None,
        },
{
    match outcome {
        Ok(v) => v,
        Err(_) => None,
    }
}

} // verus!
