//! Which worker to use when the one in use does not answer.

use crate::utils::text::same;
#[allow(unused_imports)]
use crate::utils::words;
use crate::utils::http::succeeded;
#[allow(unused_imports)]
use crate::utils::http;
use crate::utils::{PhantomError, PhantomResult};
use vstd::prelude::*;
use vstd::string::StringExecFns;

verus! {

pub const HEALTH_CHECK_INTERVAL_SECS: u64 = 30;

pub const HEALTH_CHECK_TIMEOUT_SECS: u64 = 5;

/// What a search for a worker does next.
#[derive(Debug, Clone, Copy, PartialEq, Eq, Structural)]
pub enum FailoverStep {
    /// Check the worker with this index.
    Check(usize),
    /// Use the worker with this index.
    Use(usize),
    /// Keep the worker in use.
    Keep,
}

/// The first healthy worker from `from` on.
pub open spec fn first_healthy(healthy: Seq<bool>, from: int) -> Option<int>
    decreases healthy.len() - from,
{
    if from < 0 || from >= healthy.len() {
        None
    } else if healthy[from] {
        Some(from)
    } else {
        first_healthy(healthy, from + 1)
    }
}

/// The worker that a full search uses: the first healthy one, and the first at all where
/// none is healthy.
pub open spec fn switch_choice(healthy: Seq<bool>) -> int {
    match first_healthy(healthy, 0) {
        Some(index) => index,
        None => 0,
    }
}

/// What a full search does next after checking the worker `index` of `count`.
pub open spec fn switch_step(count: int, index: int, healthy: bool) -> FailoverStep {
    if healthy {
        FailoverStep::Use(index as usize)
    } else if index + 1 < count {
        FailoverStep::Check((index + 1) as usize)
    } else {
        FailoverStep::Use(0)
    }
}

/// Where a search that checks the worker `index` next ends, where `healthy` tells of each
/// worker how its check comes out.
pub open spec fn switch_end(healthy: Seq<bool>, index: int) -> FailoverStep
    decreases healthy.len() - index,
{
    if index < 0 || index >= healthy.len() {
        FailoverStep::Keep
    } else {
        match switch_step(healthy.len() as int, index, healthy[index]) {
            FailoverStep::Check(_) => switch_end(healthy, index + 1),
            step => step,
        }
    }
}

/// A full search, checked worker by worker, uses the first healthy worker, and the first at
/// all where none is.
pub proof fn law_switch_uses_the_first_healthy(healthy: Seq<bool>)
    requires
        healthy.len() > 0,
        healthy.len() <= usize::MAX,
    ensures
        switch_end(healthy, 0) == FailoverStep::Use(switch_choice(healthy) as usize),
{
    lemma_switch_from(healthy, 0);
}

proof fn lemma_switch_from(healthy: Seq<bool>, index: int)
    requires
        0 <= index < healthy.len() <= usize::MAX,
    ensures
        switch_end(healthy, index) == FailoverStep::Use(
            (match first_healthy(healthy, index) {
                Some(found) => found,
                None => 0,
            }) as usize,
        ),
    decreases healthy.len() - index,
{
    if !healthy[index] && index + 1 < healthy.len() {
        lemma_switch_from(healthy, index + 1);
    } else if !healthy[index] {
        assert(first_healthy(healthy, index + 1) is None);
    }
}

/// The first worker from `from` on that is not the one in use.
pub open spec fn next_other(workers: Seq<Seq<char>>, current: Seq<char>, from: int) -> Option<int>
    decreases workers.len() - from,
{
    if from < 0 || from >= workers.len() {
        None
    } else if workers[from] != current {
        Some(from)
    } else {
        next_other(workers, current, from + 1)
    }
}

/// The step that goes to the first other worker from `from` on, or keeps the one in use
/// where there is none.
pub open spec fn step_to_other(
    workers: Seq<Seq<char>>,
    current: Seq<char>,
    from: int,
) -> FailoverStep {
    match next_other(workers, current, from) {
        Some(index) => FailoverStep::Check(index as usize),
        None => FailoverStep::Keep,
    }
}

#[derive(Debug)]
pub struct FailoverManager {
    pub active_worker: String,
    pub health_check_interval_secs: u64,
}

impl FailoverManager {
    /// Nothing is in use yet, and checks come every half minute.
    pub fn new() -> (m: Self)
        ensures
            m.active_worker@ == Seq::<char>::empty(),
            m.health_check_interval_secs == HEALTH_CHECK_INTERVAL_SECS,
    {
        FailoverManager {
            active_worker: String::new(),
            health_check_interval_secs: HEALTH_CHECK_INTERVAL_SECS,
        }
    }

    /// Whether a worker can be asked at all: one without an address is not healthy.
    pub fn can_check(worker_url: &str) -> (b: bool)
        ensures
            b == (worker_url@.len() > 0),
    {
        !worker_url.is_empty()
    }

    /// Whether a worker is healthy: it can be asked, and the answer reports success.
    pub fn check_health(worker_url: &str, status: Option<u16>) -> (b: bool)
        ensures
            b == (worker_url@.len() > 0 && (status matches Some(code) && http::is_success(code))),
    {
        if !FailoverManager::can_check(worker_url) {
            return false;
        }
        match status {
            Some(code) => succeeded(code),
            None => false,
        }
    }

    /// Begins a full search. Without workers there is none.
    pub fn switch_worker(&self, workers: &Vec<String>) -> (r: PhantomResult<FailoverStep>)
        ensures
            workers@.len() == 0 ==> (r matches Err(e) && e.is_signaling(
                "No workers available for failover"@,
            )),
            workers@.len() > 0 ==> (r matches Ok(step) && step == FailoverStep::Check(0)),
    {
        if workers.len() == 0 {
            return Err(
                PhantomError::SignalingError(
                    String::from_str("No workers available for failover"),
                ),
            );
        }
        Ok(FailoverStep::Check(0))
    }

    /// Goes on with a full search once the worker `index` has been checked.
    pub fn after_switch_check(
        &self,
        workers: &Vec<String>,
        index: usize,
        healthy: bool,
    ) -> (step: FailoverStep)
        requires
            index < workers@.len(),
        ensures
            step == switch_step(workers@.len() as int, index as int, healthy),
    {
        if healthy {
            FailoverStep::Use(index)
        } else if index < workers.len() - 1 {
            FailoverStep::Check(index + 1)
        } else {
            FailoverStep::Use(0)
        }
    }

    /// The first worker from `from` on that is not in use.
    fn other_from(&self, workers: &Vec<String>, from: usize) -> (step: FailoverStep)
        requires
            from <= workers@.len(),
        ensures
            step == step_to_other(words::texts(workers@), self.active_worker@, from as int),
        decreases workers@.len() - from,
    {
        if from >= workers.len() {
            FailoverStep::Keep
        } else if !same(workers[from].as_str(), self.active_worker.as_str()) {
            FailoverStep::Check(from)
        } else {
            self.other_from(workers, from + 1)
        }
    }

    /// What follows the regular check of the worker in use: it is kept while it is healthy,
    /// and else the other workers are checked in turn.
    pub fn after_health_check(&self, workers: &Vec<String>, healthy: bool) -> (step: FailoverStep)
        ensures
            step == (if healthy {
                FailoverStep::Keep
            } else {
                step_to_other(words::texts(workers@), self.active_worker@, 0)
            }),
    {
        if healthy {
            FailoverStep::Keep
        } else {
            self.other_from(workers, 0)
        }
    }

    /// Goes on with the other workers once the worker `index` has been checked: a healthy
    /// one is used, and where none is left the one in use is kept.
    pub fn after_other_check(
        &self,
        workers: &Vec<String>,
        index: usize,
        healthy: bool,
    ) -> (step: FailoverStep)
        requires
            index < workers@.len(),
        ensures
            step == (if healthy {
                FailoverStep::Use(index)
            } else {
                step_to_other(words::texts(workers@), self.active_worker@, index + 1)
            }),
    {
        if healthy {
            FailoverStep::Use(index)
        } else {
            let count: usize = workers.len();
            if index + 1 >= count {
                FailoverStep::Keep
            } else {
                self.other_from(workers, index + 1)
            }
        }
    }

    /// Puts a worker to use.
    pub fn use_worker(&mut self, workers: &Vec<String>, index: usize)
        requires
            index < workers@.len(),
        ensures
            final(self).active_worker@ == workers@[index as int]@,
            final(self).health_check_interval_secs == old(self).health_check_interval_secs,
    {
        self.active_worker = workers[index].clone();
    }

    pub fn get_active_worker(&self) -> (w: String)
        ensures
            w@ == self.active_worker@,
    {
        self.active_worker.clone()
    }
}

/// The worker that a search ends with is healthy and every one before it is not; only where none
/// is healthy at all does it end with the first.
pub proof fn law_search_ends_with_a_healthy_worker(healthy: Seq<bool>)
    requires
        0 < healthy.len() <= usize::MAX,
    ensures
        ({
            let end = switch_end(healthy, 0);
            &&& end is Use
            &&& end->Use_0 < healthy.len()
            &&& healthy[end->Use_0 as int] || (end->Use_0 == 0 && forall|i: int|
                0 <= i < healthy.len() ==> !#[trigger] healthy[i])
            &&& forall|i: int| 0 <= i < end->Use_0 ==> !#[trigger] healthy[i]
        }),
{
    law_switch_uses_the_first_healthy(healthy);
    lemma_first_healthy(healthy, 0);
}

proof fn lemma_first_healthy(healthy: Seq<bool>, from: int)
    requires
        0 <= from <= healthy.len(),
    ensures
        first_healthy(healthy, from) matches Some(k) ==> from <= k < healthy.len() && healthy[k]
            && forall|i: int| from <= i < k ==> !#[trigger] healthy[i],
        first_healthy(healthy, from) is None ==> forall|i: int|
            from <= i < healthy.len() ==> !#[trigger] healthy[i],
    decreases healthy.len() - from,
{
    if from < healthy.len() && !healthy[from] {
        lemma_first_healthy(healthy, from + 1);
    }
}

/// A search for another worker goes to the first that is not the one in use, and keeps the one
/// in use where there is no other.
pub proof fn law_another_worker_is_another(workers: Seq<Seq<char>>, current: Seq<char>, from: int)
    requires
        0 <= from <= workers.len() <= usize::MAX,
    ensures
        step_to_other(workers, current, from) matches FailoverStep::Check(k) ==> from <= k
            < workers.len() && workers[k as int] != current && forall|i: int|
            from <= i < k ==> #[trigger] workers[i] == current,
        step_to_other(workers, current, from) is Keep <==> forall|i: int|
            from <= i < workers.len() ==> #[trigger] workers[i] == current,
        !(step_to_other(workers, current, from) is Use),
{
    lemma_next_other(workers, current, from);
    if let Some(k) = next_other(workers, current, from) {
        assert(workers[k] != current);
    }
}

proof fn lemma_next_other(workers: Seq<Seq<char>>, current: Seq<char>, from: int)
    requires
        0 <= from <= workers.len(),
    ensures
        next_other(workers, current, from) matches Some(k) ==> from <= k < workers.len()
            && workers[k] != current && forall|i: int|
            from <= i < k ==> #[trigger] workers[i] == current,
        next_other(workers, current, from) is None ==> forall|i: int|
            from <= i < workers.len() ==> #[trigger] workers[i] == current,
    decreases workers.len() - from,
{
    if from < workers.len() && workers[from] == current {
        lemma_next_other(workers, current, from + 1);
    }
}

} // verus!
