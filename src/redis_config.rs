//! Where the cache store listens.

use vstd::prelude::*;

verus! {

/// The cache store's address.
#[derive(Clone, Debug, PartialEq, Eq)]
pub struct RedisConfig {
    pub redis_url: String,
}

pub open spec fn spec_url(configured: Seq<char>) -> Seq<char> {
    if configured.len() > 0 && configured.last() == '/' {
        configured
    } else {
        configured.push('/')
    }
}

impl RedisConfig {
    /// The address as written by default, with its trailing slash.
    pub fn new() -> (r: RedisConfig)
        ensures
            r.redis_url@ == "redis://localhost:6379/"@,
    {
        RedisConfig { redis_url: String::from_str("redis://localhost:6379/") }
    }

    /// The address, ending with exactly one added `/` when it has none.
    pub fn url(&self) -> (r: String)
        ensures
            r@ == spec_url(self.redis_url@),
    {
        let text = self.redis_url.as_str();
        let n = text.unicode_len();
        if n > 0 && text.get_char(n - 1) == '/' {
            self.redis_url.clone()
        } else {
            let mut s = self.redis_url.clone();
            proof {
                reveal_strlit("/");
            }
            s.append("/");
            assert(s@ =~= spec_url(self.redis_url@));
            s
        }
    }
}

} // verus!
