//! The coordinator's start-up and the decisions of the two pipeline workers.
use vstd::prelude::*;
use crate::frontier::Frontier;
use crate::link::{key_of, parse_url, parsed_url, path_key, Link};

verus! {

/// Why a seed URL cannot start a crawl.
#[derive(Debug, Clone, Copy, PartialEq, Eq, Structural)]
pub enum SeedError {
    /// The seed is not an absolute URL.
    NotAUrl,
    /// The seed has no DNS host (an IP address, or no host at all).
    NoDomain,
}

/// A crawl's starting point: its subdomain, and the seed link to fetch first.
pub struct Seed {
    pub subdomain: String,
    pub link: Link,
}

/// Validates the seed URL and claims its key in `frontier`. Fails, leaving the
/// frontier as it was, where the seed does not parse or has no DNS host; the
/// crawl's subdomain is the seed's host.
pub fn seed_frontier(seed: &str, frontier: &mut Frontier) -> (r: Result<Seed, SeedError>)
    ensures
        match parsed_url(seed@) {
            None => r == Err::<Seed, SeedError>(SeedError::NotAUrl) && final(frontier)@ == old(frontier)@,
            Some(l) => match l.host {
                None => r == Err::<Seed, SeedError>(SeedError::NoDomain) && final(frontier)@ == old(frontier)@,
                Some(h) => r is Ok && r->Ok_0.link@ == l && r->Ok_0.subdomain@ == h
                    && final(frontier)@ == old(frontier)@.insert(key_of(l)),
            },
        },
{
    match parse_url(seed) {
        None => Err(SeedError::NotAUrl),
        Some(link) => {
            let subdomain = match &link.host {
                Some(h) => h.clone(),
                None => {
                    return Err(SeedError::NoDomain);
                },
            };
            let key = path_key(link.path.as_str());
            frontier.try_claim(key.as_str());
            Ok(Seed { subdomain, link })
        },
    }
}

/// What a worker got from its inbound queue.
#[derive(Debug)]
pub enum Inbound<T> {
    /// An item arrived.
    Item(T),
    /// Nothing arrived within the idle timeout.
    TimedOut,
    /// Every sender of the queue is gone.
    Closed,
}

/// What a worker does next.
#[derive(Debug)]
pub enum Next<T> {
    /// Work on the item.
    Handle(T),
    /// Exit cleanly: the crawl has no more work for this worker.
    Finish,
}

/// A worker's decision on what its inbound queue gave: work on an item; on an
/// idle timeout or a closed queue, finish cleanly.
pub fn next_step<T>(event: Inbound<T>) -> (r: Next<T>)
    ensures
        match event {
            Inbound::Item(x) => r == Next::Handle(x),
            _ => r == Next::<T>::Finish,
        },
{
    match event {
        Inbound::Item(x) => Next::Handle(x),
        Inbound::TimedOut => Next::Finish,
        Inbound::Closed => Next::Finish,
    }
}

} // verus!
