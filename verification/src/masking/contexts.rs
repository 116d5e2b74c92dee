//! What is learned about traffic, one record for each kind of traffic.

use crate::masking::burst_learning::{detect_burst_patterns, BurstObservation, LearnedBurstPattern};
#[allow(unused_imports)]
use crate::masking::burst_learning;
use crate::masking::burst_learning::PatternView;
use crate::masking::empirical::{DistributionView, EmpiricalDistribution, Moments};
#[allow(unused_imports)]
use crate::masking::empirical;
use crate::utils::text::same;
use vstd::prelude::*;

verus! {

/// Bins of a learned distribution.
pub const DEFAULT_BIN_COUNT: usize = 64;

/// What is learned of one kind of traffic. Times are in microseconds for gaps and in
/// milliseconds for sessions and idle periods; fractions are in millionths.
#[derive(Debug)]
pub struct UserProfile {
    pub name: String,
    pub size_distribution: EmpiricalDistribution,
    pub timing_distribution: EmpiricalDistribution,
    pub burst_patterns: Vec<LearnedBurstPattern>,
    pub session_duration_dist: EmpiricalDistribution,
    pub idle_period_dist: EmpiricalDistribution,
    pub up_down_ratio_micro: u64,
    pub payload_entropy_micro: u64,
    pub sample_count: usize,
    pub confidence_micro: u64,
}

/// A profile as plain data.
pub struct UserProfileView {
    pub name: Seq<char>,
    pub sizes: DistributionView,
    pub timings: DistributionView,
    pub patterns: Seq<PatternView>,
    pub sessions: DistributionView,
    pub idles: DistributionView,
    pub up_down_ratio: int,
    pub payload_entropy: int,
    pub sample_count: int,
    pub confidence: int,
}

impl View for UserProfile {
    type V = UserProfileView;

    open spec fn view(&self) -> UserProfileView {
        UserProfileView {
            name: self.name@,
            sizes: self.size_distribution@,
            timings: self.timing_distribution@,
            patterns: burst_learning::pattern_views(self.burst_patterns@),
            sessions: self.session_duration_dist@,
            idles: self.idle_period_dist@,
            up_down_ratio: self.up_down_ratio_micro as int,
            payload_entropy: self.payload_entropy_micro as int,
            sample_count: self.sample_count as int,
            confidence: self.confidence_micro as int,
        }
    }
}

impl UserProfileView {
    pub open spec fn wf(self) -> bool {
        &&& self.sizes.wf()
        &&& self.timings.wf()
        &&& self.sessions.wf()
        &&& self.idles.wf()
        &&& 0 <= self.confidence <= 1_000_000
    }
}

/// What was seen of one kind of traffic, and what has been learned from it.
#[derive(Debug)]
pub struct ContextData {
    pub name: String,
    pub sizes: Vec<u64>,
    pub timings: Vec<u64>,
    pub bursts: Vec<BurstObservation>,
    pub sessions: Vec<u64>,
    pub idles: Vec<u64>,
    /// Entropies of all packets together, in millionths of a bit.
    pub entropy_total: u128,
    pub up: u32,
    pub down: u32,
    pub profile: Option<UserProfile>,
}

/// A record as plain data.
pub struct ContextView {
    pub sizes: Seq<u64>,
    pub timings: Seq<u64>,
    pub bursts: Seq<BurstObservation>,
    pub sessions: Seq<u64>,
    pub idles: Seq<u64>,
    pub entropy_total: int,
    pub up: int,
    pub down: int,
    pub profile: Option<UserProfileView>,
}

impl View for ContextData {
    type V = ContextView;

    open spec fn view(&self) -> ContextView {
        ContextView {
            sizes: self.sizes@,
            timings: self.timings@,
            bursts: self.bursts@,
            sessions: self.sessions@,
            idles: self.idles@,
            entropy_total: self.entropy_total as int,
            up: self.up as int,
            down: self.down as int,
            profile: match self.profile {
                Some(p) => Some(p@),
                None => None,
            },
        }
    }
}

/// The part that samples make of ten times the least number, in millionths; one at most.
pub open spec fn sample_factor(count: int, min_samples: int) -> int {
    let f = 1_000_000 * count / (10 * min_samples);
    if f > 1_000_000 {
        1_000_000
    } else {
        f
    }
}

/// How steady samples are: one, less a third of their spread in parts of their mean.
pub open spec fn stability(m: Moments) -> int {
    if m.count > 1 {
        let mean = if m.mean_law() < 1 {
            1
        } else {
            m.mean_law()
        };
        let third = 1_000_000_000 * m.deviation_law() / mean / 3;
        if third > 1_000_000 {
            0
        } else {
            1_000_000 - third
        }
    } else {
        0
    }
}

/// How far a profile can be trusted.
pub open spec fn confidence_of(count: int, min_samples: int, sizes: Moments, timings: Moments) -> int {
    (4 * sample_factor(count, min_samples) + 3 * stability(sizes) + 3 * stability(timings)) / 10
}

/// A millisecond, in the unit of gaps.
pub const GAP_UNIT: u64 = 1000;

/// The distribution of some samples.
pub open spec fn learned(s: Seq<u64>, unit: u64) -> DistributionView {
    DistributionView::fresh(DEFAULT_BIN_COUNT as int, unit).with_all(s, s.len() as int)
}

impl ContextView {
    /// Nothing seen.
    pub open spec fn blank() -> ContextView {
        ContextView {
            sizes: Seq::empty(),
            timings: Seq::empty(),
            bursts: Seq::empty(),
            sessions: Seq::empty(),
            idles: Seq::empty(),
            entropy_total: 0,
            up: 0,
            down: 0,
            profile: None,
        }
    }

    pub open spec fn wf(self) -> bool {
        &&& self.sizes.len() <= u32::MAX
        &&& self.timings.len() <= u32::MAX
        &&& self.sessions.len() <= u32::MAX
        &&& self.idles.len() <= u32::MAX
        &&& burst_learning::all_sound(self.bursts)
        &&& 0 <= self.entropy_total <= self.sizes.len() * u64::MAX
        &&& 0 <= self.up <= self.sizes.len()
        &&& 0 <= self.down <= self.sizes.len()
        &&& (self.profile matches Some(p) ==> p.wf())
    }

    /// How far the profile so far is trusted.
    pub open spec fn trust(self) -> int {
        match self.profile {
            Some(p) => p.confidence,
            None => 0,
        }
    }

    /// The profile that is learned from what was seen.
    pub open spec fn profile_of(self, name: Seq<char>, min_samples: int) -> UserProfileView {
        let n = self.sizes.len() as int;
        let (sizes, timings) = (learned(self.sizes, 1), learned(self.timings, GAP_UNIT));
        let fresh = confidence_of(n, min_samples, sizes.moments, timings.moments);
        UserProfileView {
            name,
            sizes,
            timings,
            patterns: burst_learning::patterns_of(self.bursts),
            sessions: learned(self.sessions, 1),
            idles: learned(self.idles, 1),
            up_down_ratio: if self.down > 0 {
                1_000_000 * self.up / self.down
            } else {
                1_000_000
            },
            payload_entropy: if n > 0 {
                self.entropy_total / n
            } else {
                7_000_000
            },
            sample_count: n,
            confidence: if self.trust() > 0 {
                (999 * self.trust() + fresh) / 1000
            } else {
                fresh
            },
        }
    }
}

fn learn(s: &Vec<u64>, unit: u64) -> (d: EmpiricalDistribution)
    requires
        s@.len() <= u32::MAX,
        unit > 0,
    ensures
        d@ == learned(s@, unit),
        d.wf(),
        d.moments.count == s@.len(),
{
    let mut d = EmpiricalDistribution::with_unit(DEFAULT_BIN_COUNT, unit);
    d.merge_samples(s);
    proof {
        empirical::law_distribution_of_samples(
            DEFAULT_BIN_COUNT as int,
            unit,
            s@,
            s@.len() as int,
        );
    }
    d
}

fn steadiness(m: &Moments) -> (s: u64)
    requires
        m.wf(),
    ensures
        s == stability(*m),
        s <= 1_000_000,
{
    if m.count > 1 {
        let mean: u128 = m.mean_micro();
        let base: u128 = if mean < 1 {
            1
        } else {
            mean
        };
        let deviation: u128 = m.std_dev_milli();
        let third: u128 = 1_000_000_000 * deviation / base / 3;
        if third > 1_000_000 {
            0
        } else {
            1_000_000 - third as u64
        }
    } else {
        0
    }
}

fn compute_confidence(count: usize, min_samples: usize, sizes: &Moments, timings: &Moments) -> (c:
    u64)
    requires
        min_samples > 0,
        sizes.wf(),
        timings.wf(),
    ensures
        c == confidence_of(count as int, min_samples as int, *sizes, *timings),
        c <= 1_000_000,
{
    let f: u128 = 1_000_000 * (count as u128) / (10 * (min_samples as u128));
    let factor: u64 = if f > 1_000_000 { 1_000_000 } else { f as u64 };
    (4 * factor + 3 * steadiness(sizes) + 3 * steadiness(timings)) / 10
}

impl ContextData {
    pub fn new(name: &str) -> (c: Self)
        ensures
            c.name@ == name@,
            c@ == ContextView::blank(),
            c@.wf(),
    {
        ContextData {
            name: name.to_string(),
            sizes: Vec::new(),
            timings: Vec::new(),
            bursts: Vec::new(),
            sessions: Vec::new(),
            idles: Vec::new(),
            entropy_total: 0,
            up: 0,
            down: 0,
            profile: None,
        }
    }

    /// Learns a profile from what was seen.
    pub fn learn_profile(&mut self, min_samples: usize)
        requires
            old(self)@.wf(),
            min_samples > 0,
        ensures
            final(self).name == old(self).name,
            final(self)@ == (ContextView {
                profile: Some(old(self)@.profile_of(old(self).name@, min_samples as int)),
                ..old(self)@
            }),
            final(self)@.wf(),
    {
        let n: usize = self.sizes.len();
        let size_distribution = learn(&self.sizes, 1);
        let timing_distribution = learn(&self.timings, GAP_UNIT);
        let burst_patterns = detect_burst_patterns(&self.bursts);
        let session_duration_dist = learn(&self.sessions, 1);
        let idle_period_dist = learn(&self.idles, 1);
        let up_down_ratio_micro: u64 = if self.down > 0 {
            let part: u64 = 1_000_000 * (self.up as u64) / (self.down as u64);
            part
        } else {
            1_000_000
        };
        let payload_entropy_micro: u64 = if n > 0 {
            proof {
                let (t, m) = (self.entropy_total as int, n as int);
                assert(t / m <= u64::MAX) by (nonlinear_arith)
                    requires
                        0 <= t <= m * u64::MAX,
                        m > 0,
                ;
            }
            (self.entropy_total / (n as u128)) as u64
        } else {
            7_000_000
        };
        let trust: u64 = match &self.profile {
            Some(p) => p.confidence_micro,
            None => 0,
        };
        let fresh: u64 = compute_confidence(
            n,
            min_samples,
            &size_distribution.moments,
            &timing_distribution.moments,
        );
        let confidence_micro: u64 = if trust > 0 { (999 * trust + fresh) / 1000 } else { fresh };
        self.profile = Some(
            UserProfile {
                name: self.name.clone(),
                size_distribution,
                timing_distribution,
                burst_patterns,
                session_duration_dist,
                idle_period_dist,
                up_down_ratio_micro,
                payload_entropy_micro,
                sample_count: n,
                confidence_micro,
            },
        );
    }
}

/// Records by name.
#[derive(Debug)]
pub struct ContextTable {
    entries: Vec<ContextData>,
}

/// From entry `i` on, where the name stands.
pub open spec fn index_of(entries: Seq<ContextData>, name: Seq<char>, i: int) -> int
    decreases entries.len() - i,
{
    if i >= entries.len() {
        entries.len() as int
    } else if entries[i].name@ == name {
        i
    } else {
        index_of(entries, name, i + 1)
    }
}

/// Whether the name stands in the table.
pub open spec fn is_listed(entries: Seq<ContextData>, name: Seq<char>) -> bool {
    exists|i: int| 0 <= i < entries.len() && (#[trigger] entries[i]).name@ == name
}

impl View for ContextTable {
    type V = Map<Seq<char>, ContextView>;

    closed spec fn view(&self) -> Map<Seq<char>, ContextView> {
        Map::new(
            |n: Seq<char>| is_listed(self.entries@, n),
            |n: Seq<char>| self.entries@[index_of(self.entries@, n, 0)]@,
        )
    }
}

proof fn lemma_index(entries: Seq<ContextData>, name: Seq<char>, i: int)
    requires
        0 <= i <= entries.len(),
        forall|k: int| 0 <= k < i ==> (#[trigger] entries[k]).name@ != name,
    ensures
        i <= index_of(entries, name, i) <= entries.len(),
        index_of(entries, name, i) < entries.len() <==> is_listed(entries, name),
        index_of(entries, name, i) < entries.len() ==> entries[index_of(
            entries,
            name,
            i,
        )].name@ == name,
    decreases entries.len() - i,
{
    if i < entries.len() && entries[i].name@ != name {
        lemma_index(entries, name, i + 1);
    }
}

impl ContextTable {
    /// No name stands twice, and all records are sound.
    pub closed spec fn wf(&self) -> bool {
        &&& forall|i: int, j: int|
            0 <= i < j < self.entries@.len() ==> (#[trigger] self.entries@[i]).name@ != (
            #[trigger] self.entries@[j]).name@
        &&& forall|i: int| 0 <= i < self.entries@.len() ==> (#[trigger] self.entries@[i])@.wf()
    }

    /// The index of a name that stands at `i` is `i`.
    proof fn lemma_at(&self, i: int)
        requires
            self.wf(),
            0 <= i < self.entries@.len(),
        ensures
            self@.contains_key(self.entries@[i].name@),
            self@[self.entries@[i].name@] == self.entries@[i]@,
    {
        let name = self.entries@[i].name@;
        lemma_index(self.entries@, name, 0);
        let k = index_of(self.entries@, name, 0);
        if k < i {
            assert(self.entries@[k].name@ != self.entries@[i].name@);
        } else if k > i {
            assert(self.entries@[i].name@ != self.entries@[k].name@);
        }
    }

    pub fn new() -> (t: Self)
        ensures
            t.wf(),
            t@ == Map::<Seq<char>, ContextView>::empty(),
    {
        let t = ContextTable { entries: Vec::new() };
        assert(t@ =~= Map::<Seq<char>, ContextView>::empty());
        t
    }

    fn find(&self, name: &str) -> (i: usize)
        ensures
            i == index_of(self.entries@, name@, 0),
    {
        let mut i: usize = 0;
        while i < self.entries.len()
            invariant
                i <= self.entries@.len(),
                index_of(self.entries@, name@, 0) == index_of(self.entries@, name@, i as int),
            decreases self.entries@.len() - i,
        {
            if same(self.entries[i].name.as_str(), name) {
                return i;
            }
            i = i + 1;
        }
        i
    }

    pub fn get(&self, name: &str) -> (c: Option<&ContextData>)
        requires
            self.wf(),
        ensures
            match c {
                Some(d) => self@.contains_key(name@) && d@ == self@[name@] && d.name@ == name@
                    && d@.wf(),
                None => !self@.contains_key(name@),
            },
    {
        let i: usize = self.find(name);
        proof {
            lemma_index(self.entries@, name@, 0);
        }
        if i < self.entries.len() {
            proof {
                self.lemma_at(i as int);
            }
            Some(&self.entries[i])
        } else {
            None
        }
    }

    /// Takes a record out; a blank one where there is none of the name.
    pub fn take(&mut self, name: &str) -> (c: ContextData)
        requires
            old(self).wf(),
        ensures
            c.name@ == name@,
            c@ == if old(self)@.contains_key(name@) {
                old(self)@[name@]
            } else {
                ContextView::blank()
            },
            c@.wf(),
            final(self)@ == old(self)@.remove(name@),
            final(self).wf(),
    {
        let ghost before = *self;
        let i: usize = self.find(name);
        proof {
            lemma_index(self.entries@, name@, 0);
        }
        if i < self.entries.len() {
            proof {
                self.lemma_at(i as int);
            }
            let c = self.entries.remove(i);
            proof {
                let (a, b) = (before.entries@, self.entries@);
                assert forall|x: int, y: int| 0 <= x < y < b.len() implies (
                #[trigger] b[x]).name@ != (#[trigger] b[y]).name@ by {
                    let px = if x < i {
                        x
                    } else {
                        x + 1
                    };
                    let py = if y < i {
                        y
                    } else {
                        y + 1
                    };
                    assert(a[px].name@ != a[py].name@);
                }
                assert forall|x: int| 0 <= x < b.len() implies (#[trigger] b[x])@.wf() by {
                    let px = if x < i {
                        x
                    } else {
                        x + 1
                    };
                    assert(a[px]@.wf());
                }
                assert forall|n: Seq<char>| #[trigger]
                    self@.contains_key(n) == before@.remove(name@).contains_key(n) && (
                    self@.contains_key(n) ==> self@[n] == before@[n]) by {
                    if self@.contains_key(n) {
                        let x = choose|x: int| 0 <= x < b.len() && (#[trigger] b[x]).name@ == n;
                        let px = if x < i {
                            x
                        } else {
                            x + 1
                        };
                        assert(a[px] == b[x]);
                        self.lemma_at(x);
                        before.lemma_at(px);
                        if n == name@ {
                            if px < i {
                                assert(a[px].name@ != a[i as int].name@);
                            } else {
                                assert(a[i as int].name@ != a[px].name@);
                            }
                        }
                    } else if before@.contains_key(n) && n != name@ {
                        let x = choose|x: int| 0 <= x < a.len() && (#[trigger] a[x]).name@ == n;
                        let px = if x < i {
                            x
                        } else {
                            x - 1
                        };
                        assert(b[px] == a[x]);
                    }
                }
                assert(self@ =~= before@.remove(name@));
            }
            c
        } else {
            assert(self@ =~= before@.remove(name@));
            ContextData::new(name)
        }
    }

    /// Puts a record in.
    pub fn put(&mut self, c: ContextData)
        requires
            old(self).wf(),
            !old(self)@.contains_key(c.name@),
            c@.wf(),
        ensures
            final(self)@ == old(self)@.insert(c.name@, c@),
            final(self).wf(),
    {
        let ghost before = *self;
        let ghost (name, view) = (c.name@, c@);
        self.entries.push(c);
        proof {
            let (a, b) = (before.entries@, self.entries@);
            assert forall|x: int, y: int| 0 <= x < y < b.len() implies (#[trigger] b[x]).name@ != (
            #[trigger] b[y]).name@ by {
                if y < a.len() {
                    assert(a[x].name@ != a[y].name@);
                } else {
                    assert(is_listed(a, a[x].name@));
                }
            }
            assert forall|x: int| 0 <= x < b.len() implies (#[trigger] b[x])@.wf() by {
                if x < a.len() {
                    assert(a[x]@.wf());
                }
            }
            assert forall|n: Seq<char>| #[trigger]
                self@.contains_key(n) == before@.insert(name, view).contains_key(n) && (
                self@.contains_key(n) ==> self@[n] == before@.insert(name, view)[n]) by {
                if self@.contains_key(n) {
                    let x = choose|x: int| 0 <= x < b.len() && (#[trigger] b[x]).name@ == n;
                    self.lemma_at(x);
                    if x < a.len() {
                        assert(a[x] == b[x]);
                        before.lemma_at(x);
                    }
                } else {
                    assert(b[a.len() as int].name@ == name);
                    if before@.contains_key(n) {
                        let x = choose|x: int| 0 <= x < a.len() && (#[trigger] a[x]).name@ == n;
                        assert(b[x].name@ == n);
                    }
                }
            }
            assert(self@ =~= before@.insert(name, view));
        }
    }

    /// Takes a record out for good.
    pub fn drop_entry(&mut self, name: &str)
        requires
            old(self).wf(),
        ensures
            final(self)@ == old(self)@.remove(name@),
            final(self).wf(),
    {
        let _gone = self.take(name);
    }

    pub fn len(&self) -> (n: usize)
        ensures
            n == self.size(),
    {
        self.entries.len()
    }

    /// How many records there are.
    pub closed spec fn size(&self) -> int {
        self.entries@.len() as int
    }

    /// The name of the `i`-th record.
    pub closed spec fn name_at(&self, i: int) -> Seq<char> {
        self.entries@[i].name@
    }

    /// The `i`-th record.
    pub fn at(&self, i: usize) -> (c: &ContextData)
        requires
            self.wf(),
            i < self.size(),
        ensures
            c.name@ == self.name_at(i as int),
            self@.contains_key(c.name@),
            self@[c.name@] == c@,
            c@.wf(),
    {
        proof {
            self.lemma_at(i as int);
        }
        &self.entries[i]
    }

    /// Every name stands once.
    pub proof fn lemma_names(&self)
        requires
            self.wf(),
        ensures
            forall|n: Seq<char>| #[trigger]
                self@.contains_key(n) <==> exists|i: int|
                    0 <= i < self.size() && #[trigger] self.name_at(i) == n,
            forall|i: int, j: int|
                0 <= i < j < self.size() ==> #[trigger] self.name_at(i) != #[trigger] self.name_at(
                    j,
                ),
    {
        assert forall|n: Seq<char>| #[trigger] self@.contains_key(n) implies exists|i: int|
            0 <= i < self.size() && #[trigger] self.name_at(i) == n by {
            let i = choose|i: int|
                0 <= i < self.entries@.len() && (#[trigger] self.entries@[i]).name@ == n;
            assert(self.name_at(i) == n);
        }
        assert forall|n: Seq<char>|
            (exists|i: int| 0 <= i < self.size() && #[trigger] self.name_at(i) == n) implies
            #[trigger] self@.contains_key(n) by {
            let i = choose|i: int| 0 <= i < self.size() && #[trigger] self.name_at(i) == n;
            assert(self.entries@[i].name@ == n);
        }
        assert forall|i: int, j: int| 0 <= i < j < self.size() implies #[trigger] self.name_at(i)
            != #[trigger] self.name_at(j) by {
            assert(self.entries@[i].name@ != self.entries@[j].name@);
        }
    }
}

// ---- What profiles keep to ----

/// How many samples there are counts in full from ten times the least number on, and in proportion
/// before.
pub proof fn law_samples_count_up_to_ten_times(count: int, min_samples: int)
    requires
        count >= 0,
        min_samples > 0,
    ensures
        0 <= sample_factor(count, min_samples) <= 1_000_000,
        count >= 10 * min_samples ==> sample_factor(count, min_samples) == 1_000_000,
        count == min_samples ==> sample_factor(count, min_samples) == 100_000,
        count < 10 * min_samples ==> sample_factor(count, min_samples) * (10 * min_samples)
            <= 1_000_000 * count < (sample_factor(count, min_samples) + 1) * (10 * min_samples),
{
    let (m, q) = (10 * min_samples, 1_000_000 * count / (10 * min_samples));
    assert(0 <= q && q * m <= 1_000_000 * count < (q + 1) * m) by (nonlinear_arith)
        requires
            q == 1_000_000 * count / m,
            m > 0,
            count >= 0,
    ;
    assert(count >= m ==> q >= 1_000_000) by (nonlinear_arith)
        requires
            1_000_000 * count < (q + 1) * m,
            m > 0,
    ;
    assert(count < m ==> q < 1_000_000) by (nonlinear_arith)
        requires
            q * m <= 1_000_000 * count,
            m > 0,
    ;
    assert(10 * count == m ==> q == 100_000) by (nonlinear_arith)
        requires
            q * m <= 1_000_000 * count < (q + 1) * m,
            m > 0,
    ;
}

/// Samples that do not spread are fully steady, a single one is not steady at all, and ones that
/// spread by four times their mean are not either.
pub proof fn law_steadiness_falls_with_spread(m: Moments)
    requires
        m.wf(),
    ensures
        0 <= stability(m) <= 1_000_000,
        m.count <= 1 ==> stability(m) == 0,
        m.count > 1 && m.deviation_law() == 0 ==> stability(m) == 1_000_000,
        m.count > 1 && m.mean_law() >= 1 && 1000 * m.deviation_law() >= 4 * m.mean_law()
            ==> stability(m) == 0,
        m.count > 1 && m.mean_law() >= 1 && 1000 * m.deviation_law() == m.mean_law() ==> stability(
            m,
        ) == 666_667,
{
    if m.count > 1 {
        let (t, n) = (m.total as int, m.count as int);
        assert(1_000_000 * t / n >= 0) by (nonlinear_arith)
            requires
                t >= 0,
                n > 0,
        ;
        empirical::lemma_deviation_fits(m);
        let mean = if m.mean_law() < 1 {
            1
        } else {
            m.mean_law()
        };
        let x = 1_000_000_000 * m.deviation_law();
        let q = x / mean;
        assert(q * mean <= x < (q + 1) * mean && q >= 0) by (nonlinear_arith)
            requires
                q == x / mean,
                mean >= 1,
                x >= 0,
        ;
        assert(x == 0 ==> q == 0) by (nonlinear_arith)
            requires
                q * mean <= x,
                q >= 0,
                mean >= 1,
        ;
        assert(x >= 4_000_000 * mean ==> q >= 4_000_000) by (nonlinear_arith)
            requires
                x < (q + 1) * mean,
                mean >= 1,
        ;
        assert(x == 1_000_000 * mean ==> q == 1_000_000) by (nonlinear_arith)
            requires
                q == x / mean,
                mean >= 1,
        ;
    }
}

/// Two fifths of trust come from how many samples there are, and three tenths each from how steady
/// sizes and gaps are; a profile with enough steady samples is trusted fully.
pub proof fn law_trust_is_shared(count: int, min_samples: int, sizes: Moments, timings: Moments)
    requires
        count >= 0,
        min_samples > 0,
        sizes.wf(),
        timings.wf(),
    ensures
        0 <= confidence_of(count, min_samples, sizes, timings) <= 1_000_000,
        count >= 10 * min_samples && sizes.count > 1 && timings.count > 1 && sizes.deviation_law()
            == 0 && timings.deviation_law() == 0 ==> confidence_of(
            count,
            min_samples,
            sizes,
            timings,
        ) == 1_000_000,
        count >= 10 * min_samples && sizes.count <= 1 && timings.count <= 1 ==> confidence_of(
            count,
            min_samples,
            sizes,
            timings,
        ) == 400_000,
        count >= 10 * min_samples && sizes.count > 1 && sizes.deviation_law() == 0 && timings.count
            <= 1 ==> confidence_of(count, min_samples, sizes, timings) == 700_000,
        count >= 10 * min_samples && timings.count > 1 && timings.deviation_law() == 0
            && sizes.count <= 1 ==> confidence_of(count, min_samples, sizes, timings) == 700_000,
{
    law_samples_count_up_to_ten_times(count, min_samples);
    law_steadiness_falls_with_spread(sizes);
    law_steadiness_falls_with_spread(timings);
}

/// What a profile says of its traffic: how many packets it was learned from, how many go up for each
/// that goes down, and how much entropy a packet has on average.
pub proof fn law_profiles_describe_their_traffic(c: ContextView, name: Seq<char>, min_samples: int, k: int)
    requires
        c.sizes.len() > 0,
        k >= 0,
    ensures
        ({
            let p = c.profile_of(name, min_samples);
            &&& p.name == name
            &&& p.sample_count == c.sizes.len()
            &&& c.down > 0 && c.up == k * c.down ==> p.up_down_ratio == 1_000_000 * k
            &&& c.down == 0 ==> p.up_down_ratio == 1_000_000
            &&& c.entropy_total == k * c.sizes.len() ==> p.payload_entropy == k
        }),
{
    let (d, n) = (c.down, c.sizes.len() as int);
    if d > 0 && c.up == k * d {
        assert(1_000_000 * (k * d) / d == 1_000_000 * k) by (nonlinear_arith)
            requires
                d > 0,
        ;
    }
    assert((k * n) / n == k) by (nonlinear_arith)
        requires
            n > 0,
    ;
}

/// Trust in a profile that is learned anew moves by a thousandth to that in the new one, and stays
/// between the two; a profile that was not trusted takes that of the new one.
pub proof fn law_trust_moves_slowly(c: ContextView, name: Seq<char>, min_samples: int)
    requires
        c.trust() >= 0,
    ensures
        ({
            let p = c.profile_of(name, min_samples);
            let fresh = confidence_of(
                c.sizes.len() as int,
                min_samples,
                learned(c.sizes, 1).moments,
                learned(c.timings, GAP_UNIT).moments,
            );
            &&& c.trust() == 0 ==> p.confidence == fresh
            &&& c.trust() > 0 && fresh <= c.trust() ==> fresh <= p.confidence <= c.trust()
            &&& c.trust() > 0 && c.trust() <= fresh ==> c.trust() <= p.confidence <= fresh
            &&& c.trust() > 0 && fresh == c.trust() + 1000 ==> p.confidence == c.trust() + 1
        }),
{
}

} // verus!
