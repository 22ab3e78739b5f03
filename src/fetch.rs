//! The bounded fetch of detail pages, as a state machine. The caller starts a
//! fetch whenever `can_dispatch` allows, hands each outcome back to
//! `complete` as it arrives, and calls `finish` once `is_done`.
use vstd::prelude::*;
use crate::errors::ZbbError;
use crate::models::{strings_view, DepartureDetail, StationDetail};
use crate::pipeline::{all_notices, station_detail_from};
use crate::sorted::strictly_sorted;

verus! {

/// How many detail pages are fetched at once at most.
pub const DETAIL_CONCURRENCY: usize = 2;

/// Progress of fetching `total` detail pages, at most `ceiling` at a time.
pub struct DetailFetch {
    total: usize,
    ceiling: usize,
    dispatched: usize,
    completed: usize,
    details: Vec<DepartureDetail>,
    failure: Option<ZbbError>,
}

impl DetailFetch {
    pub closed spec fn total(&self) -> nat {
        self.total as nat
    }

    pub closed spec fn ceiling(&self) -> nat {
        self.ceiling as nat
    }

    /// Fetches started so far; the next one gets this index.
    pub closed spec fn dispatched(&self) -> nat {
        self.dispatched as nat
    }

    /// Fetches whose outcome has been handed back.
    pub closed spec fn completed(&self) -> nat {
        self.completed as nat
    }

    pub open spec fn in_flight(&self) -> int {
        self.dispatched() - self.completed()
    }

    /// The details received while no fetch had failed, in order of arrival.
    pub closed spec fn received(&self) -> Seq<DepartureDetail> {
        self.details@
    }

    /// The first failure handed back, if any.
    pub closed spec fn failure(&self) -> Option<ZbbError> {
        self.failure
    }

    pub closed spec fn wf(&self) -> bool {
        &&& self.ceiling > 0
        &&& self.completed <= self.dispatched <= self.total
        &&& self.dispatched - self.completed <= self.ceiling
        &&& self.failure is None ==> self.details@.len() == self.completed
    }

    /// Whether another fetch may start: none has failed, some remain, and
    /// fewer than `ceiling` are running.
    pub open spec fn may_dispatch(&self) -> bool {
        &&& self.failure() is None
        &&& self.dispatched() < self.total()
        &&& self.in_flight() < self.ceiling()
    }

    /// Whether nothing runs and nothing more will start.
    pub open spec fn done(&self) -> bool {
        &&& self.in_flight() == 0
        &&& (self.failure() is Some || self.dispatched() == self.total())
    }

    /// Nothing started yet, for `total` fetches at most `ceiling` at a time.
    pub fn new(total: usize, ceiling: usize) -> (r: DetailFetch)
        requires
            ceiling > 0,
        ensures
            r.wf(),
            r.total() == total,
            r.ceiling() == ceiling,
            r.dispatched() == 0,
            r.completed() == 0,
            r.received() == Seq::<DepartureDetail>::empty(),
            r.failure() is None,
    {
        DetailFetch { total, ceiling, dispatched: 0, completed: 0, details: Vec::new(), failure: None }
    }

    pub fn can_dispatch(&self) -> (r: bool)
        requires
            self.wf(),
        ensures
            r == self.may_dispatch(),
    {
        self.failure.is_none() && self.dispatched < self.total && self.dispatched - self.completed < self.ceiling
    }

    /// Starts the next fetch and returns the index of the departure it is for.
    pub fn dispatch(&mut self) -> (r: usize)
        requires
            old(self).wf(),
            old(self).may_dispatch(),
        ensures
            final(self).wf(),
            r == old(self).dispatched(),
            final(self).dispatched() == old(self).dispatched() + 1,
            final(self).completed() == old(self).completed(),
            final(self).total() == old(self).total(),
            final(self).ceiling() == old(self).ceiling(),
            final(self).received() == old(self).received(),
            final(self).failure() == old(self).failure(),
    {
        let r = self.dispatched;
        self.dispatched = self.dispatched + 1;
        r
    }

    /// Records the outcome of a running fetch. After a failure the first
    /// failure is kept and later outcomes are dropped.
    pub fn complete(&mut self, outcome: Result<DepartureDetail, ZbbError>)
        requires
            old(self).wf(),
            old(self).in_flight() > 0,
        ensures
            final(self).wf(),
            final(self).completed() == old(self).completed() + 1,
            final(self).dispatched() == old(self).dispatched(),
            final(self).total() == old(self).total(),
            final(self).ceiling() == old(self).ceiling(),
            old(self).failure() is Some ==> final(self).failure() == old(self).failure()
                && final(self).received() == old(self).received(),
            old(self).failure() is None ==> match outcome {
                Ok(d) => final(self).failure() is None && final(self).received() == old(self).received().push(d),
                Err(e) => final(self).failure() == Some(e) && final(self).received() == old(self).received(),
            },
    {
        self.completed = self.completed + 1;
        if self.failure.is_none() {
            match outcome {
                Ok(d) => self.details.push(d),
                Err(e) => self.failure = Some(e),
            }
        }
    }

    pub fn is_done(&self) -> (r: bool)
        requires
            self.wf(),
        ensures
            r == self.done(),
    {
        self.dispatched == self.completed && (self.failure.is_some() || self.dispatched == self.total)
    }

    /// The first failure, or else every detail in order of arrival with
    /// their notices merged.
    pub fn finish(self) -> (r: Result<StationDetail, ZbbError>)
        requires
            self.wf(),
            self.done(),
        ensures
            r is Err <==> self.failure() is Some,
            r matches Err(e) ==> self.failure() == Some(e),
            r matches Ok(sd) ==> sd.departures@ == self.received()
                && sd.departures@.len() == self.total()
                && strictly_sorted(strings_view(sd.disruptions@))
                && forall|x: Seq<char>| strings_view(sd.disruptions@).contains(x)
                    <==> all_notices(self.received()).contains(x),
    {
        match self.failure {
            Some(e) => Err(e),
            None => Ok(station_detail_from(self.details)),
        }
    }

    /// However the outcomes arrive, no more than `ceiling` fetches run at
    /// once, and once done the fetch holds either a failure or one detail for
    /// each departure.
    pub proof fn lemma_bounded_and_complete(&self)
        requires
            self.wf(),
        ensures
            0 <= self.in_flight() <= self.ceiling(),
            self.done() && self.failure() is None ==> self.received().len() == self.total(),
    {
    }
}

} // verus!
