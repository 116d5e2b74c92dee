//! The list of known workers and where the search for them stands.

use crate::utils::words::{copy_texts, insert_text};
#[allow(unused_imports)]
use crate::utils::words;
use crate::utils::{PhantomError, PhantomResult};
use vstd::prelude::*;
use vstd::string::StringExecFns;

verus! {

#[derive(Debug, Clone, Copy, PartialEq, Eq, Structural)]
pub enum ConnectionState {
    Disconnected,
    Connecting,
    Connected,
    Failed,
}

/// The workers that a source found: none where it failed.
pub open spec fn found_by(source: PhantomResult<Vec<String>>) -> Set<Seq<char>> {
    match source {
        Ok(list) => words::texts(list@).to_set(),
        Err(_) => Set::empty(),
    }
}

#[derive(Debug)]
pub struct WorkerDiscovery {
    pub workers: Vec<String>,
    pub state: ConnectionState,
}

/// Adds the texts of `source` to an ascending list.
fn gather(list: &mut Vec<String>, source: &Vec<String>)
    requires
        words::ascending(words::texts(old(list)@)),
    ensures
        words::ascending(words::texts(final(list)@)),
        words::texts(final(list)@).to_set() == words::texts(old(list)@).to_set().union(
            words::texts(source@).to_set(),
        ),
{
    let ghost had = words::texts(list@).to_set();
    let ghost more = words::texts(source@);
    let mut i: usize = 0;
    assert(had.union(more.take(0).to_set()) =~= had);
    while i < source.len()
        invariant
            i <= source@.len(),
            more == words::texts(source@),
            words::ascending(words::texts(list@)),
            words::texts(list@).to_set() == had.union(more.take(i as int).to_set()),
        decreases source@.len() - i,
    {
        let word = source[i].clone();
        proof {
            let now = more.take(i + 1);
            let then_set = more.take(i as int).to_set();
            assert(now =~= more.take(i as int).push(word@));
            assert forall|t: Seq<char>| now.to_set().contains(t) == then_set.insert(
                word@,
            ).contains(t) by {
                if now.contains(t) {
                    let k = choose|k: int| 0 <= k < now.len() && now[k] == t;
                    if k < i {
                        assert(more.take(i as int)[k] == t);
                    }
                }
                if more.take(i as int).contains(t) {
                    let k = choose|k: int| 0 <= k < i && more.take(i as int)[k] == t;
                    assert(now[k] == t);
                }
                assert(now[i as int] == word@);
            }
            assert(had.union(then_set).insert(word@) =~= had.union(now.to_set()));
        }
        insert_text(list, word);
        i += 1;
    }
    assert(more.take(i as int) =~= more);
}

impl WorkerDiscovery {
    pub fn new(state: ConnectionState) -> (d: Self)
        ensures
            d.workers@.len() == 0,
            d.state == state,
    {
        WorkerDiscovery { workers: Vec::new(), state }
    }

    /// Begins a search.
    pub fn start(&mut self)
        ensures
            final(self).workers == old(self).workers,
            final(self).state == ConnectionState::Connecting,
    {
        self.state = ConnectionState::Connecting;
    }

    /// Takes a published list as it is.
    pub fn on_published(&mut self, new_workers: Vec<String>)
        ensures
            final(self).workers == new_workers,
            final(self).state == ConnectionState::Connected,
    {
        self.workers = new_workers;
        self.state = ConnectionState::Connected;
    }

    /// Takes what both sources found, in order and each worker once. Where neither found
    /// any, the search has failed and the list stays as it was.
    pub fn refresh(
        &mut self,
        published: PhantomResult<Vec<String>>,
        resolved: PhantomResult<Vec<String>>,
    ) -> (r: PhantomResult<()>)
        ensures
            ({
                let found = found_by(published).union(found_by(resolved));
                if found == Set::<Seq<char>>::empty() {
                    &&& r matches Err(e) && e.is_signaling("No workers discovered from any source"@)
                    &&& final(self).state == ConnectionState::Failed
                    &&& final(self).workers == old(self).workers
                } else {
                    &&& r is Ok
                    &&& final(self).state == ConnectionState::Connected
                    &&& words::ascending(words::texts(final(self).workers@))
                    &&& words::texts(final(self).workers@).to_set() == found
                }
            }),
    {
        let mut all: Vec<String> = Vec::new();
        let ghost found = found_by(published).union(found_by(resolved));
        assert(words::texts(all@).to_set() =~= Set::empty());
        if let Ok(list) = &published {
            gather(&mut all, list);
        }
        assert(words::texts(all@).to_set() =~= found_by(published));
        if let Ok(list) = &resolved {
            gather(&mut all, list);
        }
        assert(words::texts(all@).to_set() =~= found);
        if all.len() == 0 {
            assert(found =~= Set::empty());
            self.state = ConnectionState::Failed;
            return Err(
                PhantomError::SignalingError(
                    String::from_str("No workers discovered from any source"),
                ),
            );
        }
        proof {
            let first = words::texts(all@)[0];
            assert(words::texts(all@).contains(first));
            assert(found.contains(first));
        }
        self.workers = all;
        self.state = ConnectionState::Connected;
        Ok(())
    }

    pub fn get_workers(&self) -> (list: Vec<String>)
        ensures
            words::texts(list@) == words::texts(self.workers@),
    {
        copy_texts(&self.workers)
    }

    pub fn get_state(&self) -> (s: ConnectionState)
        ensures
            s == self.state,
    {
        self.state
    }
}

/// What a refresh keeps does not depend on which source found what, nor on order or
/// repeats: ascending lists of the same workers are the same.
pub proof fn law_refresh_depends_on_the_workers_only(
    a: Seq<Seq<char>>,
    b: Seq<Seq<char>>,
    left: Set<Seq<char>>,
    right: Set<Seq<char>>,
)
    requires
        words::ascending(a),
        words::ascending(b),
        a.to_set() == left.union(right),
        b.to_set() == right.union(left),
    ensures
        a == b,
{
    assert(left.union(right) =~= right.union(left));
    words::law_ascending_list_is_unique(a, b);
}

/// A source that failed found nothing; any other found just what it lists.
pub proof fn law_sources_find_what_they_list(source: PhantomResult<Vec<String>>, worker: Seq<char>)
    ensures
        source is Err ==> !found_by(source).contains(worker),
        source matches Ok(list) ==> (found_by(source).contains(worker) <==> words::texts(
            list@,
        ).contains(worker)),
{
}

} // verus!
