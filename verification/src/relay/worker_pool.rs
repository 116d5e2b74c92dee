//! A pool of workers that are tried in turn.

use crate::relay::worker_client::WorkerClient;
use crate::utils::text::same;
use crate::utils::{PhantomError, PhantomResult};
use vstd::prelude::*;
use vstd::string::StringExecFns;

verus! {

/// The workers' addresses.
pub open spec fn urls(workers: Seq<WorkerClient>) -> Seq<Seq<char>> {
    workers.map_values(|w: WorkerClient| w.worker_url@)
}

/// Which of `count` workers is tried `offset` tries after the first, which is `start`.
pub open spec fn turn(start: int, offset: int, count: int) -> int {
    (start + offset) % count
}

/// A round of tries: where it began and how many have failed.
#[derive(Debug, Clone, Copy, PartialEq, Eq, Structural)]
pub struct PoolRound {
    pub start: usize,
    pub offset: usize,
}

/// What follows a try.
#[derive(Debug)]
pub enum PoolStep {
    /// The next worker is to be tried.
    Next(PoolRound),
    /// The round is over.
    Done(PhantomResult<Vec<u8>>),
}

#[derive(Debug)]
pub struct WorkerPool {
    pub workers: Vec<WorkerClient>,
    pub active_index: usize,
}

/// Whether a round that begins at `start` comes to the worker `index`.
pub open spec fn is_tried(start: int, count: int, index: int) -> bool {
    exists|offset: int| 0 <= offset < count && #[trigger] turn(start, offset, count) == index
}

/// Which worker serves a round that has made `offset` tries, where `serves` tells of each
/// worker whether it answers.
pub open spec fn served_by(serves: Seq<bool>, start: int, offset: int) -> Option<int>
    decreases serves.len() - offset,
{
    let index = turn(start, offset, serves.len() as int);
    if offset >= serves.len() {
        None
    } else if serves[index] {
        Some(index)
    } else {
        served_by(serves, start, offset + 1)
    }
}

/// A round is served by a worker that answers, and fails only where no worker does.
pub proof fn law_round_fails_only_if_all_fail(serves: Seq<bool>, start: int)
    requires
        start >= 0,
        serves.len() > 0,
    ensures
        match served_by(serves, start, 0) {
            Some(index) => 0 <= index < serves.len() && serves[index],
            None => forall|i: int| 0 <= i < serves.len() ==> !#[trigger] serves[i],
        },
{
    lemma_served_from(serves, start, 0);
    if served_by(serves, start, 0) is None {
        law_round_tries_every_worker(start, serves.len() as int);
        assert forall|i: int| 0 <= i < serves.len() implies !#[trigger] serves[i] by {
            assert(is_tried(start, serves.len() as int, i));
            let offset = choose|offset: int|
                0 <= offset < serves.len() && #[trigger] turn(start, offset, serves.len() as int)
                    == i;
            assert(!serves[turn(start, offset, serves.len() as int)]);
        }
    }
}

proof fn lemma_served_from(serves: Seq<bool>, start: int, offset: int)
    requires
        start >= 0,
        0 <= offset <= serves.len(),
        serves.len() > 0,
    ensures
        match served_by(serves, start, offset) {
            Some(index) => 0 <= index < serves.len() && serves[index],
            None => forall|k: int|
                offset <= k < serves.len() ==> !serves[#[trigger] turn(
                    start,
                    k,
                    serves.len() as int,
                )],
        },
    decreases serves.len() - offset,
{
    if offset < serves.len() {
        lemma_turn(start, offset, serves.len() as int);
        lemma_served_from(serves, start, offset + 1);
    }
}

/// One round tries every worker exactly once.
pub proof fn law_round_tries_every_worker(start: int, count: int)
    requires
        start >= 0,
        count > 0,
    ensures
        forall|index: int| 0 <= index < count ==> #[trigger] is_tried(start, count, index),
        forall|i: int, j: int|
            0 <= i < j < count ==> #[trigger] turn(start, i, count) != #[trigger] turn(
                start,
                j,
                count,
            ),
{
    let r = start % count;
    assert forall|offset: int| 0 <= offset < count implies #[trigger] turn(start, offset, count)
        == (if r + offset < count {
        r + offset
    } else {
        r + offset - count
    }) by {
        lemma_turn(start, offset, count);
    }
    assert forall|index: int| 0 <= index < count implies #[trigger] is_tried(
        start,
        count,
        index,
    ) by {
        let offset = if index >= r {
            index - r
        } else {
            index - r + count
        };
        assert(turn(start, offset, count) == index);
    }
}

/// Turns go up from where a round begins and wrap once.
proof fn lemma_turn(start: int, offset: int, count: int)
    requires
        start >= 0,
        0 <= offset < count,
    ensures
        0 <= start % count < count,
        turn(start, offset, count) == (if start % count + offset < count {
            start % count + offset
        } else {
            start % count + offset - count
        }),
{
    let r = start % count;
    let q = start / count;
    vstd::arithmetic::div_mod::lemma_fundamental_div_mod(start, count);
    vstd::arithmetic::div_mod::lemma_mod_bound(start, count);
    assert(start == count * q + r);
    if r + offset < count {
        vstd::arithmetic::div_mod::lemma_fundamental_div_mod_converse(
            start + offset,
            count,
            q,
            r + offset,
        );
    } else {
        assert(count * (q + 1) == count * q + count) by (nonlinear_arith);
        vstd::arithmetic::div_mod::lemma_fundamental_div_mod_converse(
            start + offset,
            count,
            q + 1,
            r + offset - count,
        );
    }
}

impl WorkerPool {
    /// A pool that tries the first worker first.
    pub fn new(worker_urls: Vec<String>) -> (p: Self)
        ensures
            urls(p.workers@) == worker_urls@.map_values(|u: String| u@),
            p.active_index == 0,
    {
        let ghost all = worker_urls@.map_values(|u: String| u@);
        let mut workers: Vec<WorkerClient> = Vec::new();
        let mut i: usize = 0;
        while i < worker_urls.len()
            invariant
                i <= worker_urls@.len(),
                all == worker_urls@.map_values(|u: String| u@),
                urls(workers@) == all.take(i as int),
            decreases worker_urls@.len() - i,
        {
            let ghost had = urls(workers@);
            let url = worker_urls[i].clone();
            workers.push(WorkerClient::new(url));
            i += 1;
            assert(urls(workers@) =~= had.push(url@));
            assert(urls(workers@) =~= all.take(i as int));
        }
        assert(all.take(i as int) =~= all);
        WorkerPool { workers, active_index: 0 }
    }

    /// Begins a round with the worker that served last. An empty pool is refused.
    pub fn begin(&self) -> (r: PhantomResult<PoolRound>)
        ensures
            self.workers@.len() == 0 ==> (r matches Err(e) && e.is_relay(
                "No workers available in pool"@,
            )),
            self.workers@.len() > 0 ==> (r matches Ok(round) && round == (PoolRound {
                start: self.active_index,
                offset: 0,
            })),
    {
        if self.workers.len() == 0 {
            return Err(
                PhantomError::RelayError(String::from_str("No workers available in pool")),
            );
        }
        Ok(PoolRound { start: self.active_index, offset: 0 })
    }

    /// Which worker a round tries next.
    pub fn index(&self, round: &PoolRound) -> (i: usize)
        requires
            self.workers@.len() > 0,
        ensures
            i == turn(round.start as int, round.offset as int, self.workers@.len() as int),
            i < self.workers@.len(),
    {
        let sum: u128 = round.start as u128 + round.offset as u128;
        let count: u128 = self.workers.len() as u128;
        (sum % count) as usize
    }

    /// What a try comes to: an answer ends the round and makes the worker the first of the
    /// next one; a failure goes on to the next worker, and after the last one fails the
    /// round.
    pub fn after(&mut self, round: PoolRound, reply: PhantomResult<Vec<u8>>) -> (step: PoolStep)
        requires
            old(self).workers@.len() > 0,
            round.offset < old(self).workers@.len(),
        ensures
            final(self).workers == old(self).workers,
            match reply {
                Ok(data) => {
                    &&& step matches PoolStep::Done(Ok(answer)) && answer == data
                    &&& final(self).active_index == turn(
                        round.start as int,
                        round.offset as int,
                        old(self).workers@.len() as int,
                    )
                },
                Err(_) => {
                    &&& final(self).active_index == old(self).active_index
                    &&& if round.offset + 1 < old(self).workers@.len() {
                        step matches PoolStep::Next(next) && next == (PoolRound {
                            start: round.start,
                            offset: (round.offset + 1) as usize,
                        })
                    } else {
                        step matches PoolStep::Done(Err(e)) && e.is_relay(
                            "All workers in pool failed"@,
                        )
                    }
                },
            },
    {
        match reply {
            Ok(data) => {
                self.active_index = self.index(&round);
                PoolStep::Done(Ok(data))
            },
            Err(_) => {
                if round.offset < self.workers.len() - 1 {
                    PoolStep::Next(PoolRound { start: round.start, offset: round.offset + 1 })
                } else {
                    PoolStep::Done(
                        Err(
                            PhantomError::RelayError(
                                String::from_str("All workers in pool failed"),
                            ),
                        ),
                    )
                }
            },
        }
    }

    pub fn add_worker(&mut self, url: String)
        ensures
            urls(final(self).workers@) == urls(old(self).workers@).push(url@),
            final(self).active_index == old(self).active_index,
    {
        let ghost word = url@;
        self.workers.push(WorkerClient::new(url));
        assert(urls(self.workers@) =~= urls(old(self).workers@).push(word));
    }

    /// Takes every worker with this address out. Where one was, and the active one is no
    /// longer there but others are, the last becomes active.
    pub fn remove_worker(&mut self, url: &str)
        ensures
            urls(final(self).workers@) == urls(old(self).workers@).filter(
                |u: Seq<char>| u != url@,
            ),
            final(self).active_index == ({
                let left = final(self).workers@.len();
                if left < old(self).workers@.len() && old(self).active_index >= left && left > 0 {
                    (left - 1) as usize
                } else {
                    old(self).active_index
                }
            }),
    {
        let ghost all = urls(self.workers@);
        let ghost other = |u: Seq<char>| u != url@;
        let mut kept: Vec<WorkerClient> = Vec::new();
        let mut i: usize = 0;
        let count: usize = self.workers.len();
        proof {
            assert(all.take(0) =~= Seq::empty());
            reveal(Seq::filter);
            assert(urls(kept@) =~= all.take(0).filter(other));
        }
        while i < count
            invariant
                i <= count,
                count == self.workers@.len(),
                self.active_index == old(self).active_index,
                all == urls(self.workers@),
                other == (|u: Seq<char>| u != url@),
                urls(kept@) == all.take(i as int).filter(other),
                kept@.len() <= i,
            decreases count - i,
        {
            let ghost had = urls(kept@);
            let ghost one = self.workers@[i as int].worker_url@;
            proof {
                assert(all.take(i + 1).drop_last() =~= all.take(i as int));
                assert(all.take(i + 1).last() == one);
                reveal(Seq::filter);
            }
            if !same(self.workers[i].url(), url) {
                let copy = self.workers[i].worker_url.clone();
                kept.push(WorkerClient::new(copy));
                assert(urls(kept@) =~= had.push(one));
            }
            i += 1;
        }
        assert(all.take(i as int) =~= all);
        self.workers = kept;
        if self.workers.len() < count && self.active_index >= self.workers.len()
            && self.workers.len() > 0 {
            self.active_index = self.workers.len() - 1;
        }
    }

    /// The active worker's address, the last one's where the active one is gone, and
    /// nothing in an empty pool.
    pub fn get_active_worker(&self) -> (u: String)
        ensures
            u@ == ({
                let all = urls(self.workers@);
                if all.len() == 0 {
                    Seq::empty()
                } else if self.active_index < all.len() {
                    all[self.active_index as int]
                } else {
                    all.last()
                }
            }),
    {
        if self.workers.len() == 0 {
            return String::new();
        }
        let last: usize = self.workers.len() - 1;
        let index: usize = if self.active_index < last {
            self.active_index
        } else {
            last
        };
        self.workers[index].worker_url.clone()
    }

    pub fn worker_count(&self) -> (n: usize)
        ensures
            n == self.workers@.len(),
    {
        self.workers.len()
    }
}

/// A round begins with its first worker and goes on to the next, from the last to the first.
pub proof fn law_rounds_go_on_to_the_next(start: int, offset: int, count: int)
    requires
        0 <= start < count,
        0 <= offset,
    ensures
        turn(start, 0, count) == start,
        0 <= turn(start, offset, count) < count,
        turn(start, offset + 1, count) == if turn(start, offset, count) == count - 1 {
            0
        } else {
            turn(start, offset, count) + 1
        },
{
    let x = start + offset;
    vstd::arithmetic::div_mod::lemma_small_mod(start as nat, count as nat);
    vstd::arithmetic::div_mod::lemma_fundamental_div_mod(x, count);
    vstd::arithmetic::div_mod::lemma_mod_bound(x, count);
    let (q, r) = (x / count, x % count);
    if r == count - 1 {
        assert(x + 1 == (q + 1) * count + 0) by (nonlinear_arith)
            requires
                x == count * q + r,
                r == count - 1,
        ;
        vstd::arithmetic::div_mod::lemma_fundamental_div_mod_converse(x + 1, count, q + 1, 0);
    } else {
        assert(x + 1 == q * count + (r + 1)) by (nonlinear_arith)
            requires
                x == count * q + r,
        ;
        vstd::arithmetic::div_mod::lemma_fundamental_div_mod_converse(x + 1, count, q, r + 1);
    }
}

/// A round that begins with a worker that answers is served by that one; otherwise the rest of the
/// round decides.
pub proof fn law_rounds_are_served_by_the_first_that_answers(serves: Seq<bool>, start: int)
    requires
        0 <= start < serves.len(),
    ensures
        serves[start] ==> served_by(serves, start, 0) == Some(start),
        served_by(serves, start, 0) matches Some(k) ==> 0 <= k < serves.len() && serves[k],
{
    law_rounds_go_on_to_the_next(start, 0, serves.len() as int);
    lemma_served(serves, start, 0);
}

proof fn lemma_served(serves: Seq<bool>, start: int, offset: int)
    requires
        0 <= start < serves.len(),
        0 <= offset,
    ensures
        served_by(serves, start, offset) matches Some(k) ==> 0 <= k < serves.len() && serves[k],
    decreases serves.len() - offset,
{
    law_rounds_go_on_to_the_next(start, offset, serves.len() as int);
    if offset < serves.len() && !serves[turn(start, offset, serves.len() as int)] {
        lemma_served(serves, start, offset + 1);
    }
}

} // verus!
