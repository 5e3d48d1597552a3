use crate::domain::{
    entries_view, LeaderboardResponse, LevelInfo, LevelView, Timestamp, WorkshopResponse,
    WorkshopView, levels_view,
};
use crate::mode::GameMode;
use vstd::prelude::*;

verus! {

/// A leaderboard to fetch: the level it belongs to.
#[derive(Debug)]
pub struct FetchTarget {
    pub name: String,
    pub mode: GameMode,
    pub leaderboard_name: String,
    pub workshop_response: Option<WorkshopResponse>,
}

pub open spec fn workshop_view(w: Option<WorkshopResponse>) -> Option<WorkshopView> {
    match w {
        Some(x) => Some(x@),
        None => None,
    }
}

/// The level that fetching `t` at `timestamp` gave, with `response`.
pub open spec fn level_of(t: FetchTarget, response: LeaderboardResponse, timestamp: Timestamp) -> LevelView {
    LevelView {
        name: t.name@,
        mode: t.mode,
        leaderboard_name: t.leaderboard_name@,
        workshop: workshop_view(t.workshop_response),
        entries: entries_view(response.entries@),
        timestamp,
    }
}

/// One batch of leaderboard queries: at most `max_in_flight` at a time,
/// handed out in the order of `targets`. A failed query is skipped; once the
/// batch is closed (its watchdog fired) no query is handed out and no result
/// is taken any more.
#[derive(Debug)]
pub struct FetchBatch {
    pub targets: Vec<FetchTarget>,
    pub started: usize,
    pub running: Vec<usize>,
    pub max_in_flight: usize,
    pub results: Vec<LevelInfo>,
    pub closed: bool,
}

impl FetchBatch {
    pub open spec fn wf(&self) -> bool {
        &&& self.started <= self.targets.len()
        &&& self.running.len() <= self.max_in_flight
        &&& forall|k: int| 0 <= k < self.running.len() ==> #[trigger] self.running@[k] < self.started
    }

    pub fn new(targets: Vec<FetchTarget>, max_in_flight: usize) -> (r: Self)
        ensures
            r.wf(),
            r.targets@ == targets@,
            r.started == 0,
            r.running.len() == 0,
            r.max_in_flight == max_in_flight,
            r.results.len() == 0,
            !r.closed,
    {
        FetchBatch {
            targets,
            started: 0,
            running: Vec::new(),
            max_in_flight,
            results: Vec::new(),
            closed: false,
        }
    }

    /// The next target to query, if the batch is open, has targets left and
    /// has fewer than `max_in_flight` queries running.
    pub fn start_next(&mut self) -> (r: Option<usize>)
        requires
            old(self).wf(),
        ensures
            final(self).wf(),
            final(self).targets@ == old(self).targets@,
            final(self).results@ == old(self).results@,
            final(self).closed == old(self).closed,
            final(self).max_in_flight == old(self).max_in_flight,
            (!old(self).closed && old(self).started < old(self).targets.len()
                && old(self).running.len() < old(self).max_in_flight) ==> {
                &&& r == Some(old(self).started)
                &&& final(self).started == old(self).started + 1
                &&& final(self).running@ == old(self).running@.push(old(self).started)
            },
            !(!old(self).closed && old(self).started < old(self).targets.len()
                && old(self).running.len() < old(self).max_in_flight) ==> {
                &&& r is None
                &&& final(self).started == old(self).started
                &&& final(self).running@ == old(self).running@
            },
    {
        if !self.closed && self.started < self.targets.len() && self.running.len() < self.max_in_flight {
            let i = self.started;
            self.running.push(i);
            self.started = i + 1;
            Some(i)
        } else {
            None
        }
    }

    /// Records that the query of target `index` ended, with the leaderboard
    /// or with `None` when it failed. Only a running query of an open batch
    /// is recorded; a leaderboard then joins the results as a level.
    pub fn finish(&mut self, index: usize, outcome: Option<LeaderboardResponse>, timestamp: Timestamp) -> (r: bool)
        requires
            old(self).wf(),
        ensures
            final(self).wf(),
            final(self).targets@ == old(self).targets@,
            final(self).started == old(self).started,
            final(self).closed == old(self).closed,
            final(self).max_in_flight == old(self).max_in_flight,
            r == (!old(self).closed && old(self).running@.contains(index)),
            r ==> exists|k: int|
                0 <= k < old(self).running.len() && old(self).running@[k] == index
                    && final(self).running@ == old(self).running@.remove(k),
            !r ==> final(self).running@ == old(self).running@,
            match outcome {
                Some(resp) => r ==> levels_view(final(self).results@) == levels_view(old(self).results@).push(
                    level_of(old(self).targets@[index as int], resp, timestamp),
                ),
                None => true,
            },
            (outcome is None || !r) ==> final(self).results@ == old(self).results@,
    {
        if self.closed {
            return false;
        }
        let mut k: usize = 0;
        while k < self.running.len() && self.running[k] != index
            invariant
                k <= self.running.len(),
                forall|m: int| 0 <= m < k ==> self.running@[m] != index,
            decreases self.running.len() - k,
        {
            k = k + 1;
        }
        if k == self.running.len() {
            return false;
        }
        assert(self.running@[k as int] == index);
        self.running.remove(k);
        match outcome {
            Some(resp) => {
                let t = &self.targets[index];
                let workshop_response = match &t.workshop_response {
                    Some(w) => Some(w.duplicate()),
                    None => None,
                };
                let level = LevelInfo {
                    name: t.name.clone(),
                    mode: t.mode,
                    leaderboard_name: t.leaderboard_name.clone(),
                    workshop_response,
                    leaderboard_response: resp,
                    timestamp,
                };
                let ghost before = levels_view(self.results@);
                self.results.push(level);
                assert(levels_view(self.results@) =~= before.push(level@));
            },
            None => {},
        }
        true
    }

    /// The watchdog fired: the queries still running are abandoned.
    pub fn time_out(&mut self)
        requires
            old(self).wf(),
        ensures
            final(self).wf(),
            final(self).closed,
            final(self).results@ == old(self).results@,
            final(self).targets@ == old(self).targets@,
    {
        self.closed = true;
    }

    /// Whether nothing more is to come: the batch is closed, or every target
    /// was queried and no query is running.
    pub fn is_finished(&self) -> (r: bool)
        ensures
            r == (self.closed || (self.started == self.targets.len() && self.running.len() == 0)),
    {
        self.closed || (self.started == self.targets.len() && self.running.len() == 0)
    }

    /// The levels fetched so far, in the order the queries ended.
    pub fn into_results(self) -> (r: Vec<LevelInfo>)
        ensures
            r@ == self.results@,
    {
        self.results
    }
}

} // verus!
