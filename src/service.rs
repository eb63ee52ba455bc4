//! The request handlers' logic: identity, then the cooldown gate of the
//! operation class, then the store or ledger operation, with the status
//! code that each outcome answers with.
use crate::config::Config;
use crate::identity::{
    began, verdict, AuthError, Credential, IdentityCache, Resolution, VerifyOutcome,
};
use crate::ledger::LikeError;
use crate::rate_limit::RateLimiter;
use crate::sample::{answers_query, byte_len, SampleQuery};
use crate::store::{retention_holds, Account, NewStructure, Store, Structure, SubmitError};
use vstd::prelude::*;

verus! {

/// Every way a request can fail.
#[derive(Clone, Copy, PartialEq, Eq, Debug)]
pub enum ApiError {
    Auth(AuthError),
    /// The cooldown of the operation class has not elapsed.
    TooManyRequests,
    /// A name or the scene is longer than allowed.
    Validation,
    /// No live structure has the id.
    NotFound,
    /// The liker owns the structure.
    SelfLikeForbidden,
    /// The store could not complete the operation.
    Storage,
}

impl ApiError {
    /// The status code of each failure.
    pub open spec fn spec_status(&self) -> u16 {
        match self {
            ApiError::Auth(AuthError::Unauthenticated) => 401,
            ApiError::Auth(AuthError::Rejected) => 401,
            ApiError::Auth(AuthError::BadRequest) => 400,
            ApiError::Auth(AuthError::UpstreamUnavailable) => 502,
            ApiError::TooManyRequests => 429,
            ApiError::Validation => 400,
            ApiError::NotFound => 404,
            ApiError::SelfLikeForbidden => 400,
            ApiError::Storage => 500,
        }
    }

    /// The HTTP status code that answers this failure.
    pub fn status(&self) -> (r: u16)
        ensures
            r == self.spec_status(),
    {
        match self {
            ApiError::Auth(AuthError::Unauthenticated) => 401,
            ApiError::Auth(AuthError::Rejected) => 401,
            ApiError::Auth(AuthError::BadRequest) => 400,
            ApiError::Auth(AuthError::UpstreamUnavailable) => 502,
            ApiError::TooManyRequests => 429,
            ApiError::Validation => 400,
            ApiError::NotFound => 404,
            ApiError::SelfLikeForbidden => 400,
            ApiError::Storage => 500,
        }
    }

    /// The message each failure answers with.
    pub open spec fn spec_message(&self) -> Seq<char> {
        match self {
            ApiError::Auth(AuthError::Unauthenticated) => "X-Steam-Auth missing"@,
            ApiError::Auth(AuthError::Rejected) => "ticket rejected"@,
            ApiError::Auth(AuthError::BadRequest) => "bad header"@,
            ApiError::Auth(AuthError::UpstreamUnavailable) => "identity provider unavailable"@,
            ApiError::TooManyRequests => "You are acting too frequently."@,
            ApiError::Validation => "scene, prefab or username too long"@,
            ApiError::NotFound => "Structure not found"@,
            ApiError::SelfLikeForbidden => "Cannot like your own structure."@,
            ApiError::Storage => "storage failure"@,
        }
    }

    /// A short message for the client.
    pub fn message(&self) -> (r: String)
        ensures
            r@ == self.spec_message(),
    {
        match self {
            ApiError::Auth(AuthError::Unauthenticated) => "X-Steam-Auth missing".to_owned(),
            ApiError::Auth(AuthError::Rejected) => "ticket rejected".to_owned(),
            ApiError::Auth(AuthError::BadRequest) => "bad header".to_owned(),
            ApiError::Auth(AuthError::UpstreamUnavailable) => "identity provider unavailable".to_owned(),
            ApiError::TooManyRequests => "You are acting too frequently.".to_owned(),
            ApiError::Validation => "scene, prefab or username too long".to_owned(),
            ApiError::NotFound => "Structure not found".to_owned(),
            ApiError::SelfLikeForbidden => "Cannot like your own structure.".to_owned(),
            ApiError::Storage => "storage failure".to_owned(),
        }
    }
}

/// The retention cap of a configuration.
pub open spec fn cap(cfg: Config) -> int {
    cfg.max_user_structs_saved_per_scene as int
}

/// The like count a request asks for: one when it names none.
pub open spec fn requested_likes(count: Option<i32>) -> i32 {
    match count {
        Some(c) => c,
        None => 1,
    }
}

/// A handler's result read as the store's submission result.
pub open spec fn as_submit_result(r: Result<Structure, ApiError>) -> Result<
    Structure,
    SubmitError,
> {
    match r {
        Ok(s) => Ok(s),
        Err(ApiError::Validation) => Err(SubmitError::Validation),
        Err(_) => Err(SubmitError::Storage),
    }
}

/// A handler's result read as the ledger's like result.
pub open spec fn as_like_result(r: Result<i64, ApiError>) -> Result<i64, LikeError> {
    match r {
        Ok(c) => Ok(c),
        Err(ApiError::NotFound) => Err(LikeError::NotFound),
        Err(ApiError::SelfLikeForbidden) => Err(LikeError::SelfLikeForbidden),
        Err(_) => Err(LikeError::Storage),
    }
}

/// The services' shared state: configuration, identity cache, one cooldown
/// tracker per operation class, and the store.
pub struct Engine {
    pub config: Config,
    pub identities: IdentityCache,
    pub submit_limiter: RateLimiter,
    pub sample_limiter: RateLimiter,
    pub like_limiter: RateLimiter,
    pub store: Store,
}

/// The configuration the engine was built with.
pub fn config(engine: &Engine) -> (r: &Config)
    ensures
        *r == engine.config,
{
    &engine.config
}

impl Engine {
    /// The store is well formed and each tracker has its configured cooldown.
    pub open spec fn wf(&self) -> bool {
        &&& self.store.wf()
        &&& self.submit_limiter.cooldown() == self.config.post_structure_rate_limit_ms
        &&& self.sample_limiter.cooldown() == self.config.get_structure_rate_limit_ms
        &&& self.like_limiter.cooldown() == self.config.post_like_rate_limit_ms
    }

    /// An engine with an empty store, cache and trackers.
    pub fn new(config: Config) -> (r: Engine)
        ensures
            r.wf(),
            r.config == config,
            r.store.rows@.len() == 0,
            r.store.accounts@ == Map::<u64, Account>::empty(),
            r.store.next_id == 1,
            r.identities.entries() == Map::<Seq<char>, u64>::empty(),
            r.submit_limiter.last_actions() == Map::<u64, u64>::empty(),
            r.sample_limiter.last_actions() == Map::<u64, u64>::empty(),
            r.like_limiter.last_actions() == Map::<u64, u64>::empty(),
    {
        let submit_limiter = RateLimiter::new(config.post_structure_rate_limit_ms);
        let sample_limiter = RateLimiter::new(config.get_structure_rate_limit_ms);
        let like_limiter = RateLimiter::new(config.post_like_rate_limit_ms);
        Engine {
            config,
            identities: IdentityCache::new(),
            submit_limiter,
            sample_limiter,
            like_limiter,
            store: Store::new(),
        }
    }

    /// An engine over a store read back from storage, with an empty cache
    /// and empty trackers.
    pub fn with_store(config: Config, store: Store) -> (r: Engine)
        requires
            store.wf(),
        ensures
            r.wf(),
            r.config == config,
            r.store == store,
            r.identities.entries() == Map::<Seq<char>, u64>::empty(),
            r.submit_limiter.last_actions() == Map::<u64, u64>::empty(),
            r.sample_limiter.last_actions() == Map::<u64, u64>::empty(),
            r.like_limiter.last_actions() == Map::<u64, u64>::empty(),
    {
        let mut engine = Engine::new(config);
        engine.store = store;
        engine
    }

    /// Puts a store read back from storage in place of the current one.
    pub fn replace_store(&mut self, store: Store)
        requires
            old(self).wf(),
            store.wf(),
        ensures
            final(self).wf(),
            final(self).store == store,
            final(self).config == old(self).config,
            final(self).identities == old(self).identities,
            final(self).submit_limiter == old(self).submit_limiter,
            final(self).sample_limiter == old(self).sample_limiter,
            final(self).like_limiter == old(self).like_limiter,
    {
        self.store = store;
    }

    /// Submits a structure for `identity`: the submit cooldown gate at
    /// monotonic time `now_ms`, then the store's submission with creation
    /// time `created_at`.
    pub fn post_structure(
        &mut self,
        identity: u64,
        payload: NewStructure,
        now_ms: u64,
        created_at: i64,
    ) -> (r: Result<Structure, ApiError>)
        requires
            old(self).wf(),
        ensures
            final(self).wf(),
            final(self).config == old(self).config,
            final(self).identities == old(self).identities,
            final(self).sample_limiter == old(self).sample_limiter,
            final(self).like_limiter == old(self).like_limiter,
            old(self).submit_limiter.gated(final(self).submit_limiter, identity, now_ms),
            !old(self).submit_limiter.allows(identity, now_ms) ==> r == Err::<
                Structure,
                ApiError,
            >(ApiError::TooManyRequests) && final(self).store == old(self).store,
            old(self).submit_limiter.allows(identity, now_ms) ==> Store::submitted(
                old(self).store,
                final(self).store,
                identity,
                payload,
                created_at,
                old(self).config,
                as_submit_result(r),
            ) && (r is Ok || r == Err::<Structure, ApiError>(ApiError::Validation) || r == Err::<
                Structure,
                ApiError,
            >(ApiError::Storage)),
            retention_holds(old(self).store.rows@, cap(old(self).config)) ==> retention_holds(
                final(self).store.rows@,
                cap(old(self).config),
            ),
    {
        if !self.submit_limiter.try_acquire(identity, now_ms) {
            return Err(ApiError::TooManyRequests);
        }
        match self.store.submit(identity, payload, created_at, &self.config) {
            Ok(s) => Ok(s),
            Err(SubmitError::Validation) => Err(ApiError::Validation),
            Err(SubmitError::Storage) => Err(ApiError::Storage),
        }
    }

    /// First step of giving a request an identity; see [`IdentityCache::begin`].
    pub fn resolve(&mut self, credential: Credential) -> (r: Resolution)
        requires
            old(self).wf(),
        ensures
            final(self).wf(),
            final(self).config == old(self).config,
            final(self).store == old(self).store,
            began(
                old(self).identities.entries(),
                final(self).identities.entries(),
                credential,
                old(self).config.skip_steam_ticket_validation,
                r,
            ),
    {
        let skip = self.config.skip_steam_ticket_validation;
        let r = self.identities.begin(credential, skip);
        r
    }

    /// Last step of giving a request an identity, with the provider's
    /// answer; see [`IdentityCache::finish`].
    pub fn complete_verification(&mut self, ticket: String, outcome: VerifyOutcome) -> (r: Result<
        u64,
        ApiError,
    >)
        requires
            old(self).wf(),
        ensures
            final(self).wf(),
            final(self).config == old(self).config,
            final(self).store == old(self).store,
            r == (match verdict(outcome) {
                Ok(id) => Ok::<u64, ApiError>(id),
                Err(e) => Err(ApiError::Auth(e)),
            }),
            final(self).identities.entries() == (match verdict(outcome) {
                Ok(id) => old(self).identities.entries().insert(ticket@, id),
                Err(_) => old(self).identities.entries(),
            }),
    {
        match self.identities.finish(ticket, outcome) {
            Ok(id) => Ok(id),
            Err(e) => Err(ApiError::Auth(e)),
        }
    }

    /// Samples structures for `identity`: the sample cooldown gate at
    /// monotonic time `now_ms`, then the store's diversified sample.
    pub fn get_random(&mut self, identity: u64, query: &SampleQuery, now_ms: u64) -> (r: Result<
        Vec<Structure>,
        ApiError,
    >)
        requires
            old(self).wf(),
        ensures
            final(self).wf(),
            final(self).config == old(self).config,
            final(self).store == old(self).store,
            final(self).identities == old(self).identities,
            final(self).submit_limiter == old(self).submit_limiter,
            final(self).like_limiter == old(self).like_limiter,
            old(self).sample_limiter.gated(final(self).sample_limiter, identity, now_ms),
            !old(self).sample_limiter.allows(identity, now_ms) ==> r == Err::<
                Vec<Structure>,
                ApiError,
            >(ApiError::TooManyRequests),
            old(self).sample_limiter.allows(identity, now_ms) ==> {
                &&& (byte_len(query.scene@) > old(self).config.max_scene_length <==> r == Err::<
                    Vec<Structure>,
                    ApiError,
                >(ApiError::Validation))
                &&& (byte_len(query.scene@) <= old(self).config.max_scene_length ==> r is Ok)
                &&& (r matches Ok(v) ==> answers_query(
                    old(self).store.rows@,
                    *query,
                    old(self).config,
                    v@,
                ))
            },
    {
        if !self.sample_limiter.try_acquire(identity, now_ms) {
            return Err(ApiError::TooManyRequests);
        }
        match self.store.sample(query, &self.config) {
            Ok(v) => Ok(v),
            Err(e) => {
                assert(e is SceneTooLong);
                Err(ApiError::Validation)
            },
        }
    }

    /// Likes a structure for `identity`: the like cooldown gate at monotonic
    /// time `now_ms`, then the ledger. A missing count means one like.
    pub fn like_structure(&mut self, identity: u64, id: i64, count: Option<i32>, now_ms: u64) -> (r:
        Result<i64, ApiError>)
        requires
            old(self).wf(),
        ensures
            final(self).wf(),
            final(self).config == old(self).config,
            final(self).identities == old(self).identities,
            final(self).submit_limiter == old(self).submit_limiter,
            final(self).sample_limiter == old(self).sample_limiter,
            old(self).like_limiter.gated(final(self).like_limiter, identity, now_ms),
            !old(self).like_limiter.allows(identity, now_ms) ==> r == Err::<i64, ApiError>(
                ApiError::TooManyRequests,
            ) && final(self).store == old(self).store,
            old(self).like_limiter.allows(identity, now_ms) ==> Store::liked(
                old(self).store,
                final(self).store,
                identity,
                id,
                requested_likes(count),
                as_like_result(r),
            ) && (r is Ok || r == Err::<i64, ApiError>(ApiError::NotFound) || r == Err::<
                i64,
                ApiError,
            >(ApiError::SelfLikeForbidden) || r == Err::<i64, ApiError>(ApiError::Storage)),
            retention_holds(old(self).store.rows@, cap(old(self).config)) ==> retention_holds(
                final(self).store.rows@,
                cap(old(self).config),
            ),
    {
        let requested: i32 = match count {
            Some(c) => c,
            None => 1,
        };
        if !self.like_limiter.try_acquire(identity, now_ms) {
            return Err(ApiError::TooManyRequests);
        }
        match self.store.apply_like(identity, id, requested) {
            Ok(c) => Ok(c),
            Err(LikeError::NotFound) => Err(ApiError::NotFound),
            Err(LikeError::SelfLikeForbidden) => Err(ApiError::SelfLikeForbidden),
            Err(LikeError::Storage) => Err(ApiError::Storage),
        }
    }
}

} // verus!
