//! Startup: the settings a deployment runs with, and the components built
//! from them.

use crate::cache::{Cache, CacheEntry};
use crate::fetcher::{Fetcher, RemoteObject};
use crate::job::{DispatchConfig, Job, JobQueue};
use crate::webfinger::{IdentityRecord, Resolver};
use vstd::prelude::*;

verus! {

/// Why the settings could not be put together.
#[derive(Clone, Copy, Debug, PartialEq, Eq, Structural)]
pub enum SetupError {
    /// The deployment names no domain to serve.
    DomainNotSet,
}

/// What a deployment runs with.
pub struct Settings {
    /// The domain this server answers for.
    pub domain: String,
    /// Number of job workers; at least one.
    pub job_workers: usize,
    /// Whether fetched objects and resolved accounts are kept in memory.
    pub caching: bool,
    /// How long a cached object or resolution stays valid.
    pub cache_ttl: u64,
    /// Whether `http://` addresses may be fetched.
    pub allow_plain: bool,
    /// Retry and lease settings of the job queue.
    pub dispatch: DispatchConfig,
}

impl Settings {
    /// At least one worker, and a usable retry configuration.
    pub open spec fn wf(&self) -> bool {
        self.job_workers >= 1 && self.dispatch.wf()
    }

    /// The settings of a deployment that only names its domain: five
    /// workers, caching switched off, secure addresses only, up to ten
    /// attempts per job with delays from one second up to an hour, and
    /// claims that lapse after five minutes. Without a domain there are no
    /// settings.
    pub fn for_domain(domain: Option<String>) -> (r: Result<Settings, SetupError>)
        ensures
            match r {
                Ok(s) => {
                    &&& domain == Some(s.domain)
                    &&& s.wf()
                    &&& s.job_workers == 5
                    &&& !s.caching
                    &&& s.cache_ttl == 300
                    &&& !s.allow_plain
                    &&& s.dispatch == (DispatchConfig {
                        max_attempts: 10,
                        backoff_base: 1,
                        backoff_cap: 3600,
                        visibility_timeout: 300,
                    })
                },
                Err(e) => domain.is_none() && e == SetupError::DomainNotSet,
            },
    {
        match domain {
            Some(name) => Ok(
                Settings {
                    domain: name,
                    job_workers: 5,
                    caching: false,
                    cache_ttl: 300,
                    allow_plain: false,
                    dispatch: DispatchConfig {
                        max_attempts: 10,
                        backoff_base: 1,
                        backoff_cap: 3600,
                        visibility_timeout: 300,
                    },
                },
            ),
            None => Err(SetupError::DomainNotSet),
        }
    }
}

/// The components of the federation core, ready to be shared.
pub struct Core {
    pub fetcher: Fetcher,
    pub webfinger: Resolver,
    pub jobs: JobQueue,
}

impl Core {
    /// Every component is well formed.
    pub open spec fn wf(&self) -> bool {
        self.fetcher.wf() && self.webfinger.wf() && self.jobs.wf()
    }

    /// Builds the components from the settings: empty stores (or none, where
    /// caching is off), no fetch under way, no job queued.
    pub fn new(settings: &Settings) -> (core: Core)
        requires
            settings.wf(),
        ensures
            core.wf(),
            core.fetcher.cache.is_noop() == !settings.caching,
            core.fetcher.cache@ == Map::<Seq<u8>, CacheEntry<RemoteObject>>::empty(),
            core.fetcher.in_flight@ == Map::<Seq<u8>, nat>::empty(),
            core.fetcher.ttl == settings.cache_ttl,
            core.fetcher.allow_plain == settings.allow_plain,
            core.webfinger.cache.is_noop() == !settings.caching,
            core.webfinger.cache@ == Map::<Seq<u8>, CacheEntry<IdentityRecord>>::empty(),
            core.webfinger.ttl == settings.cache_ttl,
            core.jobs@ == Seq::<Job>::empty(),
            core.jobs.config() == settings.dispatch,
    {
        let objects: Cache<RemoteObject> = if settings.caching {
            Cache::in_memory()
        } else {
            Cache::noop()
        };
        let identities: Cache<IdentityRecord> = if settings.caching {
            Cache::in_memory()
        } else {
            Cache::noop()
        };
        Core {
            fetcher: Fetcher::new(objects, settings.cache_ttl, settings.allow_plain),
            webfinger: Resolver::new(identities, settings.cache_ttl),
            jobs: JobQueue::new(settings.dispatch),
        }
    }
}

} // verus!
