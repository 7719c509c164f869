//! Selection of a ratelimiter per authorization token.
//!
//! The default token's ratelimiter is held directly and never evicted; every
//! other token gets its own ratelimiter, kept in an `ExpiringLru`.

use crate::expiring_lru::{
    has_key, inserted, key_index, later, lemma_inserted_keys, lemma_reaped_keys, reaped, Builder, Entry, ExpiringLru,
};
use crate::text::{has_prefix, is_prefix};
use twilight_http_ratelimiting::InMemoryRatelimiter;
use vstd::prelude::*;
use vstd::string::*;

verus! {

#[verifier::external_type_specification]
#[verifier::external_body]
pub struct ExInMemoryRatelimiter(InMemoryRatelimiter);

/// Relies on `InMemoryRatelimiter::new`: an empty ratelimiter (no buckets,
/// no global lock held).
pub assume_specification[ InMemoryRatelimiter::new ]() -> InMemoryRatelimiter;

/// Relies on the derived `Clone` of `InMemoryRatelimiter`, whose fields are
/// all `Arc`s: a clone is a handle to the same shared ratelimiter state.
pub assume_specification[ <InMemoryRatelimiter as Clone>::clone ](
    r: &InMemoryRatelimiter,
) -> (c: InMemoryRatelimiter)
    ensures
        c == *r,
;

pub open spec fn bot_prefix() -> Seq<char> {
    seq!['B', 'o', 't', ' ']
}

pub open spec fn bearer_prefix() -> Seq<char> {
    seq!['B', 'e', 'a', 'r', 'e', 'r', ' ']
}

/// A token with a scheme prefix is kept; a bare one is taken as a bot token.
pub open spec fn normalized_token(t: Seq<char>) -> Seq<char> {
    if is_prefix(bot_prefix(), t) || is_prefix(bearer_prefix(), t) {
        t
    } else {
        bot_prefix() + t
    }
}

/// Prepends `Bot ` to a token that carries neither `Bot ` nor `Bearer `.
pub fn normalize_token(token: String) -> (r: String)
    ensures
        r@ == normalized_token(token@),
{
    proof {
        reveal_strlit("Bot ");
        reveal_strlit("Bearer ");
    }
    let is_bot = has_prefix(token.as_str(), "Bot ");
    let is_bearer = has_prefix(token.as_str(), "Bearer ");
    assert("Bot "@ == bot_prefix());
    assert("Bearer "@ == bearer_prefix());
    if !is_bot && !is_bearer {
        let mut r = String::from_str("Bot ");
        r.append(token.as_str());
        r
    } else {
        token
    }
}

pub struct RatelimiterMap {
    default: InMemoryRatelimiter,
    default_token: String,
    inner: ExpiringLru<String, InMemoryRatelimiter>,
}

impl RatelimiterMap {
    pub closed spec fn spec_default(&self) -> InMemoryRatelimiter {
        self.default
    }

    pub closed spec fn spec_default_token(&self) -> Seq<char> {
        self.default_token@
    }

    /// The cache of the other tokens' ratelimiters.
    pub closed spec fn cache(&self) -> ExpiringLru<String, InMemoryRatelimiter> {
        self.inner
    }

    /// The cache is well formed and never holds the default token.
    pub closed spec fn wf(&self) -> bool {
        &&& self.inner.wf()
        &&& !self.inner.contains_key(self.default_token@)
    }

    /// The cache of a well-formed map is well formed: its keys are unique and
    /// it holds no more entries than its size bound.
    pub proof fn lemma_cache_wf(&self)
        requires
            self.wf(),
        ensures
            self.cache().wf(),
            self.cache().spec_max_size() is Some ==> self.cache().view().len()
                <= self.cache().spec_max_size()->0,
    {
        self.inner.lemma_bounded();
    }

    /// The default token is never cached, whatever requests came before.
    pub proof fn lemma_default_never_cached(&self)
        requires
            self.wf(),
        ensures
            !self.cache().contains_key(self.spec_default_token()),
    {
    }

    /// Token isolation: two distinct cached tokens sit at distinct positions
    /// of the cache, each under its own key.
    pub proof fn lemma_token_isolation(&self, t1: Seq<char>, t2: Seq<char>)
        requires
            self.wf(),
            t1 != t2,
            self.cache().contains_key(t1),
            self.cache().contains_key(t2),
        ensures
            key_index(self.cache().view(), t1) != key_index(self.cache().view(), t2),
            self.cache().view()[key_index(self.cache().view(), t1)].key@ == t1,
            self.cache().view()[key_index(self.cache().view(), t2)].key@ == t2,
    {
    }

    /// `cache` configures the store of non-default tokens.
    pub fn new(default_token: String, cache: Builder<String, InMemoryRatelimiter>) -> (r: Self)
        ensures
            r.wf(),
            r.spec_default_token() == normalized_token(default_token@),
            r.cache().view() == Seq::<Entry<String, InMemoryRatelimiter>>::empty(),
            r.cache().spec_expiration() == cache.spec_expiration(),
            r.cache().spec_reap_interval() == cache.spec_reap_interval(),
            r.cache().spec_max_size() == cache.spec_max_size(),
    {
        let default_token = normalize_token(default_token);
        let inner = cache.build();
        let default = InMemoryRatelimiter::new();
        RatelimiterMap { default, default_token, inner }
    }

    /// The effective default token.
    pub fn default_token(&self) -> (r: &str)
        ensures
            r@ == self.spec_default_token(),
    {
        self.default_token.as_str()
    }

    /// The period at which the owner should call `reap`, in milliseconds.
    pub fn reap_interval(&self) -> (r: u64)
        ensures
            r == self.cache().spec_reap_interval(),
    {
        self.inner.reap_interval()
    }

    /// The decay sweep at `now`: drops the ratelimiters of tokens idle for
    /// longer than the cache's expiration.
    pub fn reap(&mut self, now: u64)
        requires
            old(self).wf(),
        ensures
            final(self).wf(),
            final(self).spec_default() == old(self).spec_default(),
            final(self).spec_default_token() == old(self).spec_default_token(),
            final(self).cache().same_config(&old(self).cache()),
            final(self).cache().view() == reaped(
                old(self).cache().view(),
                old(self).cache().spec_expiration(),
                now,
            ),
    {
        self.inner.reap(now);
        proof {
            lemma_reaped_keys(old(self).inner.view(), self.inner.spec_expiration(), now, self.default_token@);
        }
    }

    /// Whether `token` has a ratelimiter in the cache (without refreshing it).
    pub fn is_cached(&self, token: &str) -> (r: bool)
        requires
            self.wf(),
        ensures
            r == self.cache().contains_key(token@),
    {
        let t = token.to_owned();
        self.inner.contains(&t)
    }

    /// The number of cached (non-default) ratelimiters.
    pub fn cached_len(&self) -> (r: usize)
        ensures
            r == self.cache().view().len(),
    {
        self.inner.len()
    }

    /// The ratelimiter and effective token for a request at `now`. No token, or
    /// the default one, gives the default pair and leaves the cache alone. Any
    /// other token is used as is: a cached one refreshes its entry, an unknown
    /// one gets a fresh ratelimiter that is inserted into the cache.
    pub fn get_or_insert(&mut self, token: Option<&str>, now: u64) -> (r: (InMemoryRatelimiter, String))
        requires
            old(self).wf(),
        ensures
            final(self).wf(),
            final(self).spec_default() == old(self).spec_default(),
            final(self).spec_default_token() == old(self).spec_default_token(),
            final(self).cache().same_config(&old(self).cache()),
            ({
                let c0 = old(self).cache().view();
                let c1 = final(self).cache().view();
                match token {
                    None => r.0 == old(self).spec_default() && r.1@ == old(self).spec_default_token()
                        && c1 == c0,
                    Some(t) => if t@ == old(self).spec_default_token() {
                        r.0 == old(self).spec_default() && r.1@ == old(self).spec_default_token()
                            && c1 == c0
                    } else if has_key(c0, t@) {
                        let i = key_index(c0, t@);
                        &&& r.1@ == t@
                        &&& r.0 == c0[i].value
                        &&& c1 == c0.update(
                            i,
                            Entry { last_used: later(c0[i].last_used, now), ..c0[i] },
                        )
                    } else {
                        &&& r.1@ == t@
                        &&& old(self).cache().spec_max_size() == Some(0usize) ==> c1 == c0
                        &&& old(self).cache().spec_max_size() != Some(0usize) ==> exists|k: String|
                            k@ == t@ && c1 == inserted(c0, k, r.0, now, old(self).cache().spec_max_size())
                    },
                }
            }),
    {
        match token {
            None => (self.default.clone(), self.default_token.clone()),
            Some(t) => {
                let key = t.to_owned();
                if key == self.default_token {
                    (self.default.clone(), self.default_token.clone())
                } else {
                    let found = match self.inner.get(&key, now) {
                        Some(entry) => Some(entry.value().clone()),
                        None => None,
                    };
                    match found {
                        Some(rl) => (rl, key),
                        None => {
                            let rl = InMemoryRatelimiter::new();
                            let k2 = key.clone();
                            self.inner.insert(k2, rl.clone(), now);
                            proof {
                                if self.inner.spec_max_size() != Some(0usize) {
                                    lemma_inserted_keys(
                                        old(self).inner.view(),
                                        k2,
                                        rl,
                                        now,
                                        self.inner.spec_max_size(),
                                        self.default_token@,
                                    );
                                }
                            }
                            (rl, key)
                        },
                    }
                }
            },
        }
    }
}

} // verus!
