use vstd::prelude::*;

use crate::links::{domain_of_seed, extract_page, page_links, seed_domain, texts, title_of, title_or_default, Page};
use crate::visited::VisitedSet;

verus! {

/// The frontier's bound when none is given.
pub const DEFAULT_CAPACITY: usize = 100;

/// The whole crawl as a value: the domain filter, the ledger of claimed URLs,
/// the frontier in queue order (front first), its bound, how many claimed URLs
/// are still being processed, and whether the crawl is over.
pub struct CrawlState {
    pub domain: Seq<char>,
    pub visited: Set<Seq<char>>,
    pub frontier: Seq<Seq<char>>,
    pub capacity: nat,
    pub in_flight: nat,
    pub closed: bool,
}

impl CrawlState {
    pub open spec fn wf(self) -> bool {
        &&& self.capacity >= 1
        &&& self.frontier.len() <= self.capacity
        &&& self.closed ==> self.frontier.len() == 0 && self.in_flight == 0
    }
}

/// Why a crawl could not start.
#[derive(Debug, Clone, Copy, PartialEq, Eq, Structural)]
pub enum CrawlError {
    /// The seed URL does not parse.
    InvalidSeed,
    /// A frontier that can hold nothing.
    ZeroCapacity,
}

/// What a worker that asks for work is told.
#[derive(Debug, PartialEq, Eq)]
pub enum Claim {
    /// Fetch this URL: it was taken off the frontier and is now recorded as
    /// visited; report back with `complete` when done with it.
    Fetch(String),
    /// Nothing to take now, but URLs still in flight may bring more.
    Wait,
    /// The frontier is empty and nothing is in flight: the crawl is over.
    Finished,
}

/// The outcome of offering one discovered link to the frontier.
#[derive(Debug, Clone, Copy, PartialEq, Eq, Structural)]
pub enum Offer {
    /// Appended to the frontier.
    Enqueued,
    /// Already claimed: nothing to do.
    AlreadyVisited,
    /// The frontier is at its bound: nothing changed; offer it again later.
    Full,
}

/// Every entry of `frontier` is already recorded in `visited`.
pub open spec fn all_visited(frontier: Seq<Seq<char>>, visited: Set<Seq<char>>) -> bool {
    forall|j: int| 0 <= j < frontier.len() ==> visited.contains(#[trigger] frontier[j])
}

/// One claim: stale entries at the front of the frontier are dropped, and the
/// first URL not yet visited is recorded and handed out; with none left, the
/// crawl waits while work is in flight and is over otherwise.
pub open spec fn claim_step(before: CrawlState, r: Claim, after: CrawlState) -> bool {
    match r {
        Claim::Fetch(u) => exists|k: int|
            #![trigger before.frontier[k]]
            0 <= k < before.frontier.len() && all_visited(before.frontier.subrange(0, k), before.visited)
                && before.frontier[k] == u@ && !before.visited.contains(u@) && after == (CrawlState {
                frontier: before.frontier.subrange(k + 1, before.frontier.len() as int),
                visited: before.visited.insert(u@),
                in_flight: before.in_flight + 1,
                ..before
            }),
        Claim::Wait => all_visited(before.frontier, before.visited) && before.in_flight > 0
            && after == (CrawlState { frontier: Seq::empty(), ..before }),
        Claim::Finished => all_visited(before.frontier, before.visited) && before.in_flight == 0
            && after == (CrawlState { frontier: Seq::empty(), closed: true, ..before }),
    }
}

/// One offer of `link`: a visited link is dropped, a fresh one is appended
/// when there is room, and otherwise nothing changes.
pub open spec fn offer_step(before: CrawlState, link: Seq<char>, r: Offer, after: CrawlState) -> bool {
    match r {
        Offer::AlreadyVisited => before.visited.contains(link) && after == before,
        Offer::Full => !before.visited.contains(link) && before.frontier.len() >= before.capacity
            && after == before,
        Offer::Enqueued => !before.visited.contains(link) && before.frontier.len() < before.capacity
            && after == (CrawlState { frontier: before.frontier.push(link), ..before }),
    }
}

/// One completion: a URL in flight is done with; when that leaves nothing in
/// flight and nothing queued, the crawl is over and `r` says so.
pub open spec fn complete_step(before: CrawlState, r: bool, after: CrawlState) -> bool {
    &&& r == (before.in_flight == 1 && before.frontier.len() == 0)
    &&& after == (CrawlState {
        in_flight: (before.in_flight - 1) as nat,
        closed: before.closed || r,
        ..before
    })
}

/// The shared state of one crawl. Every operation is one atomic step: a
/// caller holds it under a single lock.
pub struct Crawler {
    base_domain: String,
    visited: VisitedSet,
    frontier: Vec<String>,
    capacity: usize,
    in_flight: usize,
    closed: bool,
}

impl View for Crawler {
    type V = CrawlState;

    closed spec fn view(&self) -> CrawlState {
        CrawlState {
            domain: self.base_domain@,
            visited: self.visited@,
            frontier: texts(self.frontier@),
            capacity: self.capacity as nat,
            in_flight: self.in_flight as nat,
            closed: self.closed,
        }
    }
}

impl Crawler {
    pub closed spec fn wf(&self) -> bool {
        self@.wf() && self.in_flight <= self.visited.size()
    }

    /// The state in which a crawl from `seed` with a frontier bound of
    /// `capacity` starts.
    pub open spec fn initial(seed: Seq<char>, capacity: nat) -> CrawlState {
        CrawlState {
            domain: seed_domain(seed).unwrap(),
            visited: Set::empty(),
            frontier: seq![seed],
            capacity,
            in_flight: 0,
            closed: false,
        }
    }

    /// Starts a crawl from `base_url` with the default frontier bound.
    pub fn new(base_url: &str) -> (r: Result<Crawler, CrawlError>)
        ensures
            match r {
                Ok(c) => seed_domain(base_url@).is_some() && c.wf() && c@ == Self::initial(
                    base_url@,
                    DEFAULT_CAPACITY as nat,
                ),
                Err(e) => e == CrawlError::InvalidSeed && seed_domain(base_url@).is_none(),
            },
    {
        Self::with_capacity(base_url, DEFAULT_CAPACITY)
    }

    /// Starts a crawl from `base_url`: the domain filter is the seed's
    /// domain, and the frontier, bounded by `capacity`, holds the seed.
    pub fn with_capacity(base_url: &str, capacity: usize) -> (r: Result<Crawler, CrawlError>)
        ensures
            match r {
                Ok(c) => seed_domain(base_url@).is_some() && capacity >= 1 && c.wf() && c@
                    == Self::initial(base_url@, capacity as nat),
                Err(CrawlError::InvalidSeed) => seed_domain(base_url@).is_none(),
                Err(CrawlError::ZeroCapacity) => seed_domain(base_url@).is_some() && capacity == 0,
            },
    {
        let base_domain = match domain_of_seed(base_url) {
            Some(d) => d,
            None => {
                return Err(CrawlError::InvalidSeed);
            },
        };
        if capacity == 0 {
            return Err(CrawlError::ZeroCapacity);
        }
        let mut frontier: Vec<String> = Vec::new();
        frontier.push(String::from_str(base_url));
        let c = Crawler {
            base_domain,
            visited: VisitedSet::new(),
            frontier,
            capacity,
            in_flight: 0,
            closed: false,
        };
        assert(c@.frontier =~= seq![base_url@]);
        Ok(c)
    }

    /// Hands out the next URL to fetch, in frontier order, skipping and
    /// dropping those already visited. Taking a URL and recording it as
    /// visited is one step, so no URL is ever handed out twice. When nothing
    /// is left and nothing is in flight, closes the crawl.
    pub fn claim_next(&mut self) -> (r: Claim)
        requires
            old(self).wf(),
        ensures
            final(self).wf(),
            claim_step(old(self)@, r, final(self)@),
    {
        let ghost start = self@;
        let ghost mut k: int = 0;
        while self.frontier.len() > 0
            invariant
                self.wf(),
                start == old(self)@,
                0 <= k <= start.frontier.len(),
                self@.frontier == start.frontier.subrange(k, start.frontier.len() as int),
                all_visited(start.frontier.subrange(0, k), start.visited),
                self@ == (CrawlState { frontier: self@.frontier, ..start }),
            decreases self.frontier.len(),
        {
            let ghost before = self.frontier@;
            let url = self.frontier.remove(0);
            assert(texts(self.frontier@) =~= texts(before).subrange(1, before.len() as int));
            assert(texts(before)[0] == before[0]@);
            assert(start.frontier.subrange(k, start.frontier.len() as int)[0] == start.frontier[k]);
            assert(url@ == start.frontier[k]);
            let ghost seen = self@.visited;
            if self.visited.mark_visited(url.as_str()) {
                assert(seen == start.visited);
                assert(!start.visited.contains(url@));
                assert(0 <= k < start.frontier.len());
                let _recorded = self.visited.len();
                self.in_flight = self.in_flight + 1;
                assert(self@.frontier =~= start.frontier.subrange(k + 1, start.frontier.len() as int));
                assert(start.frontier[k] == url@);
                assert(all_visited(start.frontier.subrange(0, k), start.visited));
                assert(self@ == (CrawlState {
                    frontier: start.frontier.subrange(k + 1, start.frontier.len() as int),
                    visited: start.visited.insert(url@),
                    in_flight: start.in_flight + 1,
                    ..start
                }));
                return Claim::Fetch(url);
            }
            proof {
                assert(self@.visited =~= start.visited);
                assert(start.frontier.subrange(0, k + 1) =~= start.frontier.subrange(0, k).push(url@));
                k = k + 1;
            }
        }
        assert(start.frontier.subrange(0, k) =~= start.frontier);
        assert(self@.frontier =~= Seq::<Seq<char>>::empty());
        if self.in_flight == 0 {
            self.closed = true;
            Claim::Finished
        } else {
            Claim::Wait
        }
    }

    /// Offers one discovered link: a visited one is dropped, a fresh one is
    /// queued, and a full frontier changes nothing, so that the caller blocks
    /// and offers it again rather than lose it. Only a worker that holds a
    /// claim offers links.
    pub fn offer(&mut self, link: &str) -> (r: Offer)
        requires
            old(self).wf(),
            old(self)@.in_flight > 0,
        ensures
            final(self).wf(),
            offer_step(old(self)@, link@, r, final(self)@),
    {
        if self.visited.contains(link) {
            Offer::AlreadyVisited
        } else if self.frontier.len() >= self.capacity {
            Offer::Full
        } else {
            let ghost before = self.frontier@;
            self.frontier.push(String::from_str(link));
            assert(texts(self.frontier@) =~= texts(before).push(link@));
            Offer::Enqueued
        }
    }

    /// Reports that a claimed URL is done with, whether its fetch failed or
    /// its links were all offered. Returns whether this left the crawl with
    /// nothing queued and nothing in flight, which closes it.
    pub fn complete(&mut self) -> (r: bool)
        requires
            old(self).wf(),
            old(self)@.in_flight > 0,
        ensures
            final(self).wf(),
            complete_step(old(self)@, r, final(self)@),
    {
        self.in_flight = self.in_flight - 1;
        if self.in_flight == 0 && self.frontier.len() == 0 {
            self.closed = true;
            true
        } else {
            false
        }
    }

    /// Title and in-domain links of a fetched page, resolved against its URL.
    pub fn extract_links(&self, html: &str, current_url: &str) -> (p: Page)
        ensures
            p.title@ == title_or_default(title_of(html@)),
            texts(p.links@) == page_links(html@, current_url@, self@.domain),
    {
        extract_page(html, current_url, self.base_domain.as_str())
    }

    /// The domain filter of this crawl.
    pub fn domain(&self) -> (r: &str)
        ensures
            r@ == self@.domain,
    {
        self.base_domain.as_str()
    }

    pub fn is_visited(&self, url: &str) -> (r: bool)
        ensures
            r == self@.visited.contains(url@),
    {
        self.visited.contains(url)
    }

    pub fn in_flight(&self) -> (r: usize)
        ensures
            r == self@.in_flight,
    {
        self.in_flight
    }

    pub fn pending(&self) -> (r: usize)
        ensures
            r == self@.frontier.len(),
    {
        self.frontier.len()
    }

    pub fn is_closed(&self) -> (r: bool)
        ensures
            r == self@.closed,
    {
        self.closed
    }
}

/// A claim never hands out a URL that the ledger already holds, and no step
/// ever removes a URL from the ledger: once handed out, a URL is never handed
/// out again, whatever steps other workers take in between.
pub proof fn lemma_no_duplicate_fetch(
    before: CrawlState,
    r: Claim,
    after: CrawlState,
    claimed: Set<Seq<char>>,
)
    requires
        claimed.subset_of(before.visited),
        claim_step(before, r, after),
    ensures
        match r {
            Claim::Fetch(u) => !claimed.contains(u@) && after.visited.contains(u@),
            _ => true,
        },
        claimed.subset_of(after.visited),
{
}

/// Offers and completions keep every URL of the ledger.
pub proof fn lemma_ledger_grows(before: CrawlState, link: Seq<char>, o: Offer, done: bool, after_offer: CrawlState, after_complete: CrawlState)
    requires
        offer_step(before, link, o, after_offer),
        complete_step(before, done, after_complete),
    ensures
        before.visited.subset_of(after_offer.visited),
        before.visited.subset_of(after_complete.visited),
{
}

/// An offered link is never lost: afterwards it is in the ledger or at the
/// back of the frontier, or the frontier was full, nothing changed, and the
/// link is still the caller's to offer again. The frontier never grows past
/// its bound.
pub proof fn lemma_offer_keeps_link(before: CrawlState, link: Seq<char>, r: Offer, after: CrawlState)
    requires
        before.wf(),
        before.in_flight > 0,
        offer_step(before, link, r, after),
    ensures
        after.wf(),
        match r {
            Offer::AlreadyVisited => after.visited.contains(link),
            Offer::Enqueued => after.frontier.last() == link,
            Offer::Full => after == before && before.frontier.len() == before.capacity,
        },
{
}

/// The crawl closes only when nothing is queued and nothing is in flight,
/// and once closed it stays so: every later claim reports it finished and
/// changes nothing.
pub proof fn lemma_finish_is_final(before: CrawlState, r: Claim, after: CrawlState, next: Claim, last: CrawlState)
    requires
        before.wf(),
        claim_step(before, r, after),
        !before.closed && after.closed,
        claim_step(after, next, last),
    ensures
        r == Claim::Finished,
        after.frontier.len() == 0 && after.in_flight == 0,
        next == Claim::Finished,
        last == after,
{
    assert(after.frontier =~= Seq::<Seq<char>>::empty());
    assert(last =~= after);
}

/// A completion closes the crawl only when it leaves nothing queued and
/// nothing in flight.
pub proof fn lemma_complete_closes_when_drained(before: CrawlState, done: bool, after: CrawlState)
    requires
        before.wf(),
        before.in_flight > 0,
        complete_step(before, done, after),
    ensures
        after.wf(),
        after.closed == (before.closed || (after.frontier.len() == 0 && after.in_flight == 0)),
{
}

/// A fetch that fails touches nothing but its own URL: after its claim and
/// its completion the URL stays in the ledger, so it is never retried, and
/// the frontier that other workers draw from is as the claim left it.
pub proof fn lemma_failure_isolated(
    start: CrawlState,
    r: Claim,
    claimed: CrawlState,
    done: bool,
    end: CrawlState,
)
    requires
        claim_step(start, r, claimed),
        r is Fetch,
        complete_step(claimed, done, end),
    ensures
        end.visited.contains(r->Fetch_0@),
        end.visited == claimed.visited,
        end.frontier == claimed.frontier,
        end.in_flight == start.in_flight,
{
}

/// Where every URL ever queued lies in a finite set `universe` (the
/// same-domain pages reachable from the seed), each claim that hands out a URL
/// grows the ledger by one URL of `universe`, so a crawl fetches at most as
/// many pages as `universe` holds.
pub proof fn lemma_fetches_bounded(universe: Set<Seq<char>>, before: CrawlState, r: Claim, after: CrawlState)
    requires
        universe.finite(),
        before.visited.subset_of(universe),
        forall|j: int| 0 <= j < before.frontier.len() ==> universe.contains(#[trigger] before.frontier[j]),
        claim_step(before, r, after),
        r is Fetch,
    ensures
        after.visited.finite(),
        after.visited.subset_of(universe),
        after.visited.len() == before.visited.len() + 1,
        after.visited.len() <= universe.len(),
{
    vstd::set_lib::lemma_len_subset(before.visited, universe);
    vstd::set_lib::lemma_len_subset(after.visited, universe);
}

} // verus!
