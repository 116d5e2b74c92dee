//! Learns what traffic looks like from packets that are seen, and makes packets like it.
//!
//! Fractions are held in millionths. Times of packets are in microseconds since some start
//! that the caller keeps to.

pub use crate::masking::burst_learning::{BurstObservation, LearnedBurstPattern};
pub use crate::masking::contexts::UserProfile;
pub use crate::masking::empirical::{EmpiricalDistribution, OnlineStatisticsUpdater};
pub use crate::masking::similarity::{AnomalyDetector, ProfileSimilarityChecker};

use crate::masking::adversarial::{PacketDirection, PacketRecord};
use crate::masking::burst_learning::BURST_GAP_US;
use crate::masking::contexts::{ContextData, ContextTable, ContextView, UserProfileView};
#[allow(unused_imports)]
use crate::masking::contexts;
use crate::masking::empirical::Moments;
#[allow(unused_imports)]
use crate::masking::empirical;
#[allow(unused_imports)]
use crate::masking::similarity;
use crate::masking::statistical_model::ROLL_RANGE;
use crate::utils::random::{random_between, random_bytes};
#[allow(unused_imports)]
use crate::utils::window;
use vstd::prelude::*;

verus! {

/// Three deviations, in thousandths.
pub const DEFAULT_ANOMALY_THRESHOLD: u32 = 3000;

pub const DEFAULT_ANOMALY_WINDOW: usize = 64;

/// Between a thousandth and a half.
pub open spec fn rate_of(rate: int) -> int {
    OnlineStatisticsUpdater::alpha_of(rate)
}

/// The time from `then` to `now`; none where it ran backwards.
pub open spec fn elapsed(then: u64, now: u64) -> int {
    if now > then {
        now - then
    } else {
        0
    }
}

fn elapsed_us(then: u64, now: u64) -> (d: u64)
    ensures
        d == elapsed(then, now),
{
    if now > then {
        now - then
    } else {
        0
    }
}

/// The burst in progress after a packet, and the one that the packet ended, if it had at
/// least two packets. A packet after a pause starts a burst; one after a shorter gap
/// belongs to the burst in progress, if there is one.
pub open spec fn burst_after(
    burst: Option<BurstObservation>,
    gap_us: u64,
    size: u64,
) -> (Option<BurstObservation>, Option<BurstObservation>) {
    if gap_us > BURST_GAP_US {
        (
            Some(BurstObservation::first(size)),
            match burst {
                Some(b) => if b.packet_count >= 2 {
                    Some(b)
                } else {
                    None
                },
                None => None,
            },
        )
    } else {
        match burst {
            Some(b) => (Some(b.with(gap_us, size)), None),
            None => (None, None),
        }
    }
}

/// A learner as plain data.
pub struct LearnerView {
    pub contexts: Map<Seq<char>, ContextView>,
    pub active: Option<Seq<char>>,
    pub learning_rate: int,
    pub min_samples: int,
    pub updater: OnlineStatisticsUpdater,
    pub scores: Seq<u64>,
    pub score_limit: int,
    pub threshold: int,
    pub burst: Option<BurstObservation>,
    pub last_us: Option<u64>,
    pub session_us: Option<u64>,
    pub observations: int,
    pub anomalies: u32,
}

impl LearnerView {
    /// What was seen under a name.
    pub open spec fn context(self, name: Seq<char>) -> ContextView {
        if self.contexts.contains_key(name) {
            self.contexts[name]
        } else {
            ContextView::blank()
        }
    }

    pub open spec fn with_context(self, name: Seq<char>, c: ContextView) -> LearnerView {
        LearnerView { contexts: self.contexts.insert(name, c), ..self }
    }

    /// The profile of a name.
    pub open spec fn profile(self, name: Seq<char>) -> Option<UserProfileView> {
        self.context(name).profile
    }

    /// After a packet was seen, before anything is learned from it.
    pub open spec fn seen(self, p: PacketRecord, name: Seq<char>, now_us: u64) -> LearnerView {
        let size = p.size as u64;
        let c = self.context(name);
        let (timings, burst, bursts) = match self.last_us {
            Some(last) => {
                let gap = elapsed(last, now_us) as u64;
                let (burst, ended) = burst_after(self.burst, gap, size);
                (
                    c.timings.push(gap),
                    burst,
                    match ended {
                        Some(b) => c.bursts.push(b),
                        None => c.bursts,
                    },
                )
            },
            None => (c.timings, self.burst, c.bursts),
        };
        LearnerView {
            contexts: self.contexts.insert(
                name,
                ContextView {
                    sizes: c.sizes.push(size),
                    timings,
                    bursts,
                    entropy_total: c.entropy_total + p.payload_entropy_micro,
                    up: c.up + if p.direction == PacketDirection::Up {
                        1int
                    } else {
                        0
                    },
                    down: c.down + if p.direction == PacketDirection::Up {
                        0int
                    } else {
                        1
                    },
                    ..c
                },
            ),
            updater: self.updater.with(size),
            burst,
            last_us: Some(now_us),
            session_us: match self.session_us {
                Some(s) => Some(s),
                None => Some(now_us),
            },
            observations: self.observations + 1,
            ..self
        }
    }

    /// After a profile was learned, where there are enough samples.
    pub open spec fn learned(self, name: Seq<char>) -> LearnerView {
        let c = self.context(name);
        if c.sizes.len() < self.min_samples {
            self
        } else {
            LearnerView {
                contexts: self.contexts.insert(
                    name,
                    ContextView { profile: Some(c.profile_of(name, self.min_samples)), ..c },
                ),
                active: Some(name),
                ..self
            }
        }
    }

    /// After a packet was seen: each time the least number of samples has been seen, the
    /// profile is learned anew.
    pub open spec fn observed(self, p: PacketRecord, name: Seq<char>, now_us: u64) -> LearnerView {
        let next = self.seen(p, name, now_us);
        if next.observations % self.min_samples == 0 {
            next.learned(name)
        } else {
            next
        }
    }

    /// How alike what was seen and what was learned are: nothing without a profile or enough
    /// samples; by size and, with enough gaps, by timing.
    pub open spec fn similarity(self, name: Seq<char>) -> int {
        let c = self.context(name);
        match c.profile {
            None => 0,
            Some(p) => if c.sizes.len() < self.min_samples {
                0
            } else {
                (6 * similarity::likeness(Moments::of(c.sizes), p.sizes.moments) + 4 * if c.timings.len()
                    >= self.min_samples {
                    similarity::likeness(Moments::of(c.timings), p.timings.moments)
                } else {
                    500_000
                }) / 10
            },
        }
    }

    /// The scores after the active profile has been compared.
    pub open spec fn compared(self, name: Seq<char>) -> Seq<u64> {
        window::slid(
            self.scores,
            (1_000_000 - self.similarity(name)) as u64,
            self.score_limit,
        )
    }

    /// After a session has ended: its length, and how long nothing was sent where that was
    /// longer than a pause, both in milliseconds.
    pub open spec fn ended(self, name: Seq<char>, now_us: u64) -> LearnerView {
        let a = match self.session_us {
            Some(start) => {
                let c = self.context(name);
                self.with_context(
                    name,
                    ContextView {
                        sessions: c.sessions.push((elapsed(start, now_us) / 1000) as u64),
                        ..c
                    },
                )
            },
            None => self,
        };
        let b = match self.last_us {
            Some(last) => if elapsed(last, now_us) > BURST_GAP_US {
                let c = a.context(name);
                a.with_context(
                    name,
                    ContextView {
                        idles: c.idles.push((elapsed(last, now_us) / 1000) as u64),
                        ..c
                    },
                )
            } else {
                a
            },
            None => a,
        };
        LearnerView { session_us: None, ..b }
    }
}

/// Learns traffic.
#[derive(Debug)]
pub struct AdaptiveTrafficLearner {
    contexts: ContextTable,
    active_profile: Option<String>,
    learning_rate_micro: u64,
    min_samples: usize,
    online_updater: OnlineStatisticsUpdater,
    similarity_checker: ProfileSimilarityChecker,
    anomaly_detector: AnomalyDetector,
    current_burst: Option<BurstObservation>,
    last_packet_us: Option<u64>,
    session_start_us: Option<u64>,
    total_observations: u32,
    anomaly_count: u32,
}

impl View for AdaptiveTrafficLearner {
    type V = LearnerView;

    closed spec fn view(&self) -> LearnerView {
        LearnerView {
            contexts: self.contexts@,
            active: match self.active_profile {
                Some(s) => Some(s@),
                None => None,
            },
            learning_rate: self.learning_rate_micro as int,
            min_samples: self.min_samples as int,
            updater: self.online_updater,
            scores: self.anomaly_detector.scores(),
            score_limit: self.anomaly_detector.limit(),
            threshold: self.anomaly_detector.level(),
            burst: self.current_burst,
            last_us: self.last_packet_us,
            session_us: self.session_start_us,
            observations: self.total_observations as int,
            anomalies: self.anomaly_count,
        }
    }
}

/// A packet that looks like learned traffic.
#[derive(Debug)]
pub struct MaskedPacket {
    pub data: Vec<u8>,
    pub delay_ms: u64,
    pub context: String,
}

#[derive(Debug)]
pub struct ProfileDetail {
    pub name: String,
    pub sample_count: usize,
    pub confidence_micro: u64,
    pub size_mean_micro: u128,
    pub size_std_milli: u128,
    pub timing_mean_micro: u128,
    pub timing_std_milli: u128,
}

#[derive(Debug)]
pub struct LearningStats {
    pub total_observations: usize,
    pub profiles_learned: usize,
    pub average_confidence_micro: u64,
    pub anomaly_rate_micro: u64,
    pub profile_details: Vec<ProfileDetail>,
}

/// Whether a detail sums up a profile.
pub open spec fn sums_up(d: ProfileDetail, p: UserProfileView) -> bool {
    &&& d.name@ == p.name
    &&& d.sample_count == p.sample_count
    &&& d.confidence_micro == p.confidence
    &&& d.size_mean_micro == p.sizes.moments.mean_law()
    &&& d.size_std_milli == p.sizes.moments.deviation_law()
    &&& d.timing_mean_micro == p.timings.moments.mean_law()
    &&& d.timing_std_milli == p.timings.moments.deviation_law()
}

/// Confidences of the first `n` details, added up.
pub open spec fn confidences(d: Seq<ProfileDetail>, n: int) -> int
    decreases n,
{
    if n <= 0 {
        0
    } else {
        confidences(d, n - 1) + d[n - 1].confidence_micro
    }
}

fn moments_of(s: &Vec<u64>) -> (m: Moments)
    requires
        s@.len() <= u32::MAX,
    ensures
        m == Moments::of(s@),
        m.wf(),
{
    let mut m = Moments::new();
    let mut i: usize = 0;
    assert(s@.subrange(0, 0) =~= Seq::<u64>::empty());
    while i < s.len()
        invariant
            i <= s@.len() <= u32::MAX,
            m == Moments::of(s@.subrange(0, i as int)),
            m.wf(),
        decreases s@.len() - i,
    {
        proof {
            empirical::lemma_sums(s@.subrange(0, i as int));
            let upto = s@.subrange(0, i + 1);
            assert(upto.drop_last() =~= s@.subrange(0, i as int));
        }
        m.update(s[i]);
        i = i + 1;
    }
    assert(s@.subrange(0, i as int) =~= s@);
    m
}

impl AdaptiveTrafficLearner {
    pub closed spec fn wf(&self) -> bool {
        &&& self.contexts.wf()
        &&& self.min_samples >= 10
        &&& self.online_updater.wf()
        &&& self.online_updater.moments.count <= self.total_observations
        &&& self.anomaly_detector.wf()
        &&& (self.current_burst matches Some(b) ==> b.wf() && b.packet_count
            <= self.total_observations)
        &&& forall|n: Seq<char>| #[trigger]
            self.contexts@.contains_key(n) ==> self.contexts@[n].sizes.len()
                <= self.total_observations && self.contexts@[n].timings.len()
                <= self.total_observations
        &&& 1_000 <= self.learning_rate_micro <= 500_000
    }

    /// Learns from at least ten samples, at a rate between a thousandth and a half.
    pub fn new(learning_rate_micro: u64, min_samples: usize) -> (l: Self)
        ensures
            l.wf(),
            l@.contexts == Map::<Seq<char>, ContextView>::empty(),
            l@.active is None,
            l@.learning_rate == rate_of(learning_rate_micro as int),
            l@.min_samples == if min_samples < 10 {
                10
            } else {
                min_samples as int
            },
            l@.updater.alpha_micro == rate_of(learning_rate_micro as int),
            l@.updater.moments == Moments::of(Seq::empty()),
            l@.updater.ema_mean_micro == 0,
            l@.updater.ema_variance@ == 0,
            l@.scores == Seq::<u64>::empty(),
            l@.score_limit == DEFAULT_ANOMALY_WINDOW,
            l@.threshold == DEFAULT_ANOMALY_THRESHOLD,
            l@.burst is None,
            l@.last_us is None,
            l@.session_us is None,
            l@.observations == 0,
            l@.anomalies == 0,
    {
        let online_updater = OnlineStatisticsUpdater::new(learning_rate_micro);
        AdaptiveTrafficLearner {
            contexts: ContextTable::new(),
            active_profile: None,
            learning_rate_micro: online_updater.alpha_micro,
            min_samples: if min_samples < 10 { 10 } else { min_samples },
            online_updater,
            similarity_checker: ProfileSimilarityChecker::new(),
            anomaly_detector: AnomalyDetector::new(
                DEFAULT_ANOMALY_THRESHOLD,
                DEFAULT_ANOMALY_WINDOW,
            ),
            current_burst: None,
            last_packet_us: None,
            session_start_us: None,
            total_observations: 0,
            anomaly_count: 0,
        }
    }

    /// Sees a packet of the named traffic.
    pub fn observe_packet(&mut self, packet: &PacketRecord, context: &str, now_us: u64)
        requires
            old(self).wf(),
            old(self)@.observations < u32::MAX,
        ensures
            final(self)@ == old(self)@.observed(*packet, context@, now_us),
            final(self).wf(),
    {
        let ghost before = self@;
        self.record_packet(packet, context, now_us);
        if (self.total_observations as usize) % self.min_samples == 0 {
            self.update_profile(context);
        }
    }

    fn record_packet(&mut self, packet: &PacketRecord, context: &str, now_us: u64)
        requires
            old(self).wf(),
            old(self)@.observations < u32::MAX,
        ensures
            final(self)@ == old(self)@.seen(*packet, context@, now_us),
            final(self).wf(),
    {
        let ghost before = *self;
        self.total_observations = self.total_observations + 1;
        if self.session_start_us.is_none() {
            self.session_start_us = Some(now_us);
        }
        let size: u64 = packet.size as u64;
        self.online_updater.update(size);
        let mut c = self.contexts.take(context);
        let ghost old_c = c@;
        c.sizes.push(size);
        match self.last_packet_us {
            Some(last) => {
                let gap: u64 = elapsed_us(last, now_us);
                c.timings.push(gap);
                if gap > BURST_GAP_US {
                    match self.current_burst {
                        Some(b) => {
                            if b.packet_count >= 2 {
                                c.bursts.push(b);
                            }
                        },
                        None => {},
                    }
                    self.current_burst = Some(BurstObservation::new(size));
                } else {
                    match self.current_burst {
                        Some(b) => {
                            let mut longer_burst: BurstObservation = b;
                            longer_burst.push(gap, size);
                            self.current_burst = Some(longer_burst);
                        },
                        None => {},
                    }
                }
            },
            None => {},
        }
        proof {
            let (t, n) = (old_c.entropy_total, old_c.sizes.len() as int);
            assert(t <= 0xFFFF_FFFF * 0xFFFF_FFFF_FFFF_FFFF) by (nonlinear_arith)
                requires
                    t <= n * 0xFFFF_FFFF_FFFF_FFFF,
                    n <= 0xFFFF_FFFF,
            ;
            assert((n + 1) * u64::MAX == n * u64::MAX + u64::MAX) by (nonlinear_arith);
        }
        c.entropy_total = c.entropy_total + packet.payload_entropy_micro as u128;
        match packet.direction {
            PacketDirection::Up => {
                c.up = c.up + 1;
            },
            PacketDirection::Down => {
                c.down = c.down + 1;
            },
        }
        let ghost view = c@;
        assert(view.wf());
        self.contexts.put(c);
        self.last_packet_us = Some(now_us);
        proof {
            assert(self.contexts@ =~= before.contexts@.insert(context@, view));
        }
    }

    /// What was seen of the named traffic.
    pub fn observed_context(&self, context: &str) -> (c: Option<&ContextData>)
        requires
            self.wf(),
        ensures
            match c {
                Some(d) => self@.contexts.contains_key(context@) && d@ == self@.contexts[context@],
                None => !self@.contexts.contains_key(context@),
            },
    {
        self.contexts.get(context)
    }

    pub fn get_profile(&self, context: &str) -> (p: Option<&UserProfile>)
        requires
            self.wf(),
        ensures
            match p {
                Some(q) => self@.profile(context@) == Some(q@) && q@.wf(),
                None => self@.profile(context@) is None,
            },
    {
        match self.contexts.get(context) {
            Some(c) => match &c.profile {
                Some(p) => Some(p),
                None => None,
            },
            None => None,
        }
    }

    /// A profile that is trusted as far as any.
    pub fn get_best_profile(&self) -> (p: Option<&UserProfile>)
        requires
            self.wf(),
        ensures
            match p {
                Some(q) => {
                    &&& exists|n: Seq<char>| #[trigger] self@.profile(n) == Some(q@)
                    &&& forall|n: Seq<char>|
                        #[trigger] self@.profile(n) matches Some(r) ==> r.confidence
                            <= q.confidence_micro
                },
                None => forall|n: Seq<char>| #[trigger] self@.profile(n) is None,
            },
    {
        let mut best: Option<&UserProfile> = None;
        let n: usize = self.contexts.len();
        let mut i: usize = 0;
        while i < n
            invariant
                i <= n,
                n == self.contexts.size(),
                self.wf(),
                match best {
                    Some(q) => {
                        &&& exists|n: Seq<char>| #[trigger] self@.profile(n) == Some(q@)
                        &&& forall|k: int|
                            0 <= k < i ==> (self@.profile(#[trigger] self.contexts.name_at(k)) matches Some(r)
                                ==> r.confidence <= q.confidence_micro)
                    },
                    None => forall|k: int|
                        0 <= k < i ==> self@.profile(#[trigger] self.contexts.name_at(k)) is None,
                },
            decreases n - i,
        {
            let c = self.contexts.at(i);
            match &c.profile {
                Some(p) => {
                    assert(self@.profile(c.name@) == Some(p@));
                    let better = match best {
                        Some(q) => q.confidence_micro <= p.confidence_micro,
                        None => true,
                    };
                    if better {
                        best = Some(p);
                    }
                },
                None => {},
            }
            i = i + 1;
        }
        proof {
            self.contexts.lemma_names();
            assert forall|m: Seq<char>| #[trigger] self@.profile(m) is Some implies exists|k: int|
                0 <= k < n && #[trigger] self.contexts.name_at(k) == m by {
                assert(self.contexts@.contains_key(m));
            }
        }
        best
    }

    /// Learns the profile of the named traffic anew, where there are enough samples.
    pub fn update_profile(&mut self, context: &str)
        requires
            old(self).wf(),
        ensures
            final(self)@ == old(self)@.learned(context@),
            final(self).wf(),
    {
        let ghost before = *self;
        let enough = match self.contexts.get(context) {
            Some(c) => c.sizes.len() >= self.min_samples,
            None => false,
        };
        if !enough {
            return;
        }
        let mut c = self.contexts.take(context);
        c.learn_profile(self.min_samples);
        let ghost view = c@;
        self.contexts.put(c);
        self.active_profile = Some(context.to_string());
        proof {
            assert(self.contexts@ =~= before.contexts@.insert(context@, view));
        }
    }

    /// How alike what was seen and what was learned are, in millionths.
    pub fn check_similarity(&self, context: &str) -> (s: u64)
        requires
            self.wf(),
        ensures
            s == self@.similarity(context@),
            s <= 1_000_000,
    {
        match self.contexts.get(context) {
            None => 0,
            Some(c) => match &c.profile {
                None => 0,
                Some(p) => {
                    if c.sizes.len() < self.min_samples {
                        return 0;
                    }
                    let size: u64 = self.similarity_checker.distribution_similarity(
                        &moments_of(&c.sizes),
                        &p.size_distribution.moments,
                    );
                    let timing: u64 = if c.timings.len() >= self.min_samples {
                        self.similarity_checker.distribution_similarity(
                            &moments_of(&c.timings),
                            &p.timing_distribution.moments,
                        )
                    } else {
                        500_000
                    };
                    (6 * size + 4 * timing) / 10
                },
            },
        }
    }

    /// Whether the active traffic stands out from what was learned of it.
    pub fn detect_anomaly(&mut self) -> (anomalous: bool)
        requires
            old(self).wf(),
        ensures
            final(self).wf(),
            match old(self)@.active {
                None => !anomalous && final(self)@ == old(self)@,
                Some(name) => {
                    let scores = old(self)@.compared(name);
                    &&& anomalous == similarity::stands_out(scores, old(self)@.threshold)
                    &&& final(self)@ == (LearnerView {
                        scores,
                        anomalies: if anomalous {
                            old(self)@.anomalies.wrapping_add(1)
                        } else {
                            old(self)@.anomalies
                        },
                        ..old(self)@
                    })
                },
            },
    {
        let similarity: u64 = match &self.active_profile {
            None => {
                return false;
            },
            Some(name) => self.check_similarity(name.as_str()),
        };
        self.anomaly_detector.add_score((1_000_000 - similarity) as u32);
        if self.anomaly_detector.is_anomalous() {
            self.anomaly_count = self.anomaly_count.wrapping_add(1);
            true
        } else {
            false
        }
    }

    pub fn active_profile(&self) -> (name: Option<&String>)
        ensures
            match name {
                Some(n) => self@.active == Some(n@),
                None => self@.active is None,
            },
    {
        match &self.active_profile {
            Some(n) => Some(n),
            None => None,
        }
    }

    pub fn set_active_profile(&mut self, context: &str)
        requires
            old(self).wf(),
        ensures
            final(self)@ == (LearnerView { active: Some(context@), ..old(self)@ }),
            final(self).wf(),
    {
        self.active_profile = Some(context.to_string());
    }

    /// Forgets the named traffic, and the burst in progress.
    pub fn reset_context(&mut self, context: &str)
        requires
            old(self).wf(),
        ensures
            final(self)@ == (LearnerView {
                contexts: old(self)@.contexts.remove(context@),
                burst: None,
                ..old(self)@
            }),
            final(self).wf(),
    {
        self.contexts.drop_entry(context);
        self.current_burst = None;
    }

    /// Notes that a session of the named traffic has ended.
    pub fn record_session_end(&mut self, context: &str, now_us: u64)
        requires
            old(self).wf(),
            old(self)@.context(context@).sessions.len() < u32::MAX,
            old(self)@.context(context@).idles.len() < u32::MAX,
        ensures
            final(self)@ == old(self)@.ended(context@, now_us),
            final(self).wf(),
    {
        let ghost before = *self;
        match self.session_start_us {
            Some(start) => {
                let mut c = self.contexts.take(context);
                c.sessions.push(elapsed_us(start, now_us) / 1000);
                let ghost view = c@;
                self.contexts.put(c);
                assert(self.contexts@ =~= before.contexts@.insert(context@, view));
            },
            None => {},
        }
        self.session_start_us = None;
        let ghost middle = *self;
        match self.last_packet_us {
            Some(last) => {
                let idle: u64 = elapsed_us(last, now_us);
                if idle > BURST_GAP_US {
                    let mut c = self.contexts.take(context);
                    c.idles.push(idle / 1000);
                    let ghost view = c@;
                    self.contexts.put(c);
                    assert(self.contexts@ =~= middle.contexts@.insert(context@, view));
                }
            },
            None => {},
        }
    }

    pub fn learning_rate(&self) -> (r: u64)
        ensures
            r == self@.learning_rate,
    {
        self.learning_rate_micro
    }

    /// Sets the rate; running statistics start again.
    pub fn set_learning_rate(&mut self, rate_micro: u64)
        requires
            old(self).wf(),
        ensures
            final(self)@ == (LearnerView {
                learning_rate: rate_of(rate_micro as int),
                updater: final(self)@.updater,
                ..old(self)@
            }),
            final(self)@.updater.alpha_micro == rate_of(rate_micro as int),
            final(self)@.updater.moments == Moments::of(Seq::empty()),
            final(self)@.updater.ema_mean_micro == 0,
            final(self)@.updater.ema_variance@ == 0,
            final(self).wf(),
    {
        self.online_updater = OnlineStatisticsUpdater::new(rate_micro);
        self.learning_rate_micro = self.online_updater.alpha_micro;
    }

    pub fn min_samples(&self) -> (n: usize)
        ensures
            n == self@.min_samples,
    {
        self.min_samples
    }

    pub fn set_anomaly_threshold(&mut self, threshold_milli: u32)
        requires
            old(self).wf(),
        ensures
            final(self)@ == (LearnerView {
                threshold: similarity::longer(threshold_milli as int, 1000),
                ..old(self)@
            }),
            final(self).wf(),
    {
        self.anomaly_detector.set_threshold(threshold_milli);
    }

    /// Takes over a profile that was learned elsewhere.
    pub fn import_profile(&mut self, context: &str, profile: UserProfile)
        requires
            old(self).wf(),
            profile@.wf(),
        ensures
            final(self)@ == old(self)@.with_context(
                context@,
                ContextView { profile: Some(profile@), ..old(self)@.context(context@) },
            ),
            final(self).wf(),
    {
        let ghost before = *self;
        let mut c = self.contexts.take(context);
        c.profile = Some(profile);
        let ghost view = c@;
        self.contexts.put(c);
        assert(self.contexts@ =~= before.contexts@.insert(context@, view));
    }
}

/// A length that a packet can have: no buffer is longer than `isize::MAX`.
pub open spec fn packet_len(bytes: int) -> int {
    if bytes > isize::MAX {
        isize::MAX as int
    } else {
        bytes
    }
}

fn len_of(bytes: u128) -> (len: usize)
    ensures
        len == packet_len(bytes as int),
        len <= isize::MAX,
{
    if bytes > isize::MAX as u128 {
        isize::MAX as usize
    } else {
        bytes as usize
    }
}

/// Whether a packet of the size was seen.
pub open spec fn size_seen(v: LearnerView, size: int) -> bool {
    exists|n: Seq<char>, i: int|
        #![trigger v.contexts.contains_key(n), v.contexts[n].sizes[i]]
        v.contexts.contains_key(n) && 0 <= i < v.contexts[n].sizes.len() && v.contexts[n].sizes[i]
            == size
}

/// Whether a gap was seen.
pub open spec fn gap_seen(v: LearnerView, gap_us: int) -> bool {
    exists|n: Seq<char>, i: int|
        #![trigger v.contexts.contains_key(n), v.contexts[n].timings[i]]
        v.contexts.contains_key(n) && 0 <= i < v.contexts[n].timings.len()
            && v.contexts[n].timings[i] == gap_us
}

/// Whether no packet was seen.
pub open spec fn no_size_seen(v: LearnerView) -> bool {
    forall|n: Seq<char>| #[trigger]
        v.contexts.contains_key(n) ==> v.contexts[n].sizes.len() == 0
}

/// Whether no gap was seen.
pub open spec fn no_gap_seen(v: LearnerView) -> bool {
    forall|n: Seq<char>| #[trigger]
        v.contexts.contains_key(n) ==> v.contexts[n].timings.len() == 0
}

/// The length and delay in milliseconds that draws give for a profile: at least one byte.
pub open spec fn drawn_shape(p: UserProfileView, a: int, b: int, c: int, d: int) -> (int, int) {
    let size = p.sizes.drawn(a, b) / 1_000_000;
    (
        packet_len(
            if size < 1 {
                1
            } else {
                size
            },
        ),
        p.timings.drawn(c, d) / 1_000_000_000,
    )
}

/// Whether a packet of this length and delay looks like the named traffic: as the profile
/// draws it, or else like any packet and gap that was seen, or else 128 bytes and 50
/// milliseconds.
pub open spec fn looks_like(v: LearnerView, name: Seq<char>, len: int, delay_ms: int) -> bool {
    match v.profile(name) {
        Some(p) => exists|a: int, b: int, c: int, d: int|
            0 <= a < ROLL_RANGE && 0 <= b < ROLL_RANGE && 0 <= c < ROLL_RANGE && 0 <= d
                < ROLL_RANGE && (len, delay_ms) == #[trigger] drawn_shape(p, a, b, c, d),
        None => if no_size_seen(v) {
            len == 128 && delay_ms == 50
        } else {
            &&& exists|size: int| #[trigger] size_seen(v, size) && len == packet_len(size)
            &&& if no_gap_seen(v) {
                delay_ms == 50
            } else {
                exists|gap: int| #[trigger] gap_seen(v, gap) && delay_ms == gap / 1000
            }
        },
    }
}

impl AdaptiveTrafficLearner {
    /// The length and delay that rolls draw for a profile.
    pub fn shape_for_rolls(profile: &UserProfile, a: u64, b: u64, c: u64, d: u64) -> (r: (
        usize,
        u64,
    ))
        requires
            profile@.wf(),
            a < ROLL_RANGE,
            b < ROLL_RANGE,
            c < ROLL_RANGE,
            d < ROLL_RANGE,
        ensures
            (r.0 as int, r.1 as int) == drawn_shape(
                profile@,
                a as int,
                b as int,
                c as int,
                d as int,
            ),
            1 <= r.0 <= isize::MAX,
    {
        let raw: u128 = profile.size_distribution.sample_for_rolls(a, b) / 1_000_000;
        let size: u128 = if raw < 1 {
            1
        } else {
            raw
        };
        let delay: u128 = profile.timing_distribution.sample_for_rolls(c, d) / 1_000_000_000;
        (len_of(size), delay as u64)
    }

    /// All sizes that were seen.
    fn all_sizes(&self) -> (v: Vec<u64>)
        requires
            self.wf(),
        ensures
            forall|i: int| 0 <= i < v@.len() ==> size_seen(self@, (#[trigger] v@[i]) as int),
            v@.len() == 0 <==> no_size_seen(self@),
    {
        let mut v: Vec<u64> = Vec::new();
        let n: usize = self.contexts.len();
        let mut i: usize = 0;
        while i < n
            invariant
                i <= n,
                n == self.contexts.size(),
                self.wf(),
                forall|k: int| 0 <= k < v@.len() ==> size_seen(self@, (#[trigger] v@[k]) as int),
                v@.len() == 0 <==> forall|k: int|
                    0 <= k < i ==> self@.contexts[#[trigger] self.contexts.name_at(k)].sizes.len()
                        == 0,
            decreases n - i,
        {
            let c = self.contexts.at(i);
            let ghost start = v@.len();
            let mut j: usize = 0;
            while j < c.sizes.len()
                invariant
                    j <= c.sizes@.len(),
                    v@.len() == start + j,
                    self@.contexts.contains_key(c.name@),
                    self@.contexts[c.name@] == c@,
                    forall|k: int|
                        0 <= k < v@.len() ==> size_seen(self@, (#[trigger] v@[k]) as int),
                decreases c.sizes@.len() - j,
            {
                proof {
                    assert(self@.contexts[c.name@].sizes[j as int] == c.sizes@[j as int]);
                    assert(size_seen(self@, c.sizes@[j as int] as int));
                }
                v.push(c.sizes[j]);
                j = j + 1;
            }
            assert(self@.contexts[self.contexts.name_at(i as int)].sizes.len() == c.sizes@.len());
            i = i + 1;
        }
        proof {
            self.contexts.lemma_names();
            if v@.len() == 0 {
                assert forall|m: Seq<char>| #[trigger]
                    self@.contexts.contains_key(m) implies self@.contexts[m].sizes.len() == 0 by {
                    let k = choose|k: int|
                        0 <= k < self.contexts.size() && #[trigger] self.contexts.name_at(k) == m;
                    assert(self@.contexts[self.contexts.name_at(k)].sizes.len() == 0);
                }
            }
            if no_size_seen(self@) {
                assert forall|k: int| 0 <= k < n implies self@.contexts[#[trigger] self.contexts.name_at(
                    k,
                )].sizes.len() == 0 by {
                    assert(self@.contexts.contains_key(self.contexts.name_at(k)));
                }
            }
        }
        v
    }

    /// All gaps that were seen.
    fn all_gaps(&self) -> (v: Vec<u64>)
        requires
            self.wf(),
        ensures
            forall|i: int| 0 <= i < v@.len() ==> gap_seen(self@, (#[trigger] v@[i]) as int),
            v@.len() == 0 <==> no_gap_seen(self@),
    {
        let mut v: Vec<u64> = Vec::new();
        let n: usize = self.contexts.len();
        let mut i: usize = 0;
        while i < n
            invariant
                i <= n,
                n == self.contexts.size(),
                self.wf(),
                forall|k: int| 0 <= k < v@.len() ==> gap_seen(self@, (#[trigger] v@[k]) as int),
                v@.len() == 0 <==> forall|k: int|
                    0 <= k < i ==> self@.contexts[#[trigger] self.contexts.name_at(
                        k,
                    )].timings.len() == 0,
            decreases n - i,
        {
            let c = self.contexts.at(i);
            let ghost start = v@.len();
            let mut j: usize = 0;
            while j < c.timings.len()
                invariant
                    j <= c.timings@.len(),
                    v@.len() == start + j,
                    self@.contexts.contains_key(c.name@),
                    self@.contexts[c.name@] == c@,
                    forall|k: int|
                        0 <= k < v@.len() ==> gap_seen(self@, (#[trigger] v@[k]) as int),
                decreases c.timings@.len() - j,
            {
                proof {
                    assert(self@.contexts[c.name@].timings[j as int] == c.timings@[j as int]);
                    assert(gap_seen(self@, c.timings@[j as int] as int));
                }
                v.push(c.timings[j]);
                j = j + 1;
            }
            assert(self@.contexts[self.contexts.name_at(i as int)].timings.len()
                == c.timings@.len());
            i = i + 1;
        }
        proof {
            self.contexts.lemma_names();
            if v@.len() == 0 {
                assert forall|m: Seq<char>| #[trigger]
                    self@.contexts.contains_key(m) implies self@.contexts[m].timings.len() == 0 by {
                    let k = choose|k: int|
                        0 <= k < self.contexts.size() && #[trigger] self.contexts.name_at(k) == m;
                    assert(self@.contexts[self.contexts.name_at(k)].timings.len() == 0);
                }
            }
            if no_gap_seen(self@) {
                assert forall|k: int| 0 <= k < n implies self@.contexts[#[trigger] self.contexts.name_at(
                    k,
                )].timings.len() == 0 by {
                    assert(self@.contexts.contains_key(self.contexts.name_at(k)));
                }
            }
        }
        v
    }

    /// A random packet that looks like the named traffic.
    pub fn generate_masked_packet(&self, context: &str) -> (p: MaskedPacket)
        requires
            self.wf(),
        ensures
            looks_like(self@, context@, p.data@.len() as int, p.delay_ms as int),
            p.context@ == context@,
    {
        let (len, delay_ms): (usize, u64) = match self.get_profile(context) {
            Some(profile) => {
                let a: u64 = random_between(0, ROLL_RANGE - 1);
                let b: u64 = random_between(0, ROLL_RANGE - 1);
                let c: u64 = random_between(0, ROLL_RANGE - 1);
                let d: u64 = random_between(0, ROLL_RANGE - 1);
                let shape: (usize, u64) = Self::shape_for_rolls(profile, a, b, c, d);
                assert((shape.0 as int, shape.1 as int) == drawn_shape(
                    profile@,
                    a as int,
                    b as int,
                    c as int,
                    d as int,
                ));
                shape
            },
            None => {
                let sizes = self.all_sizes();
                if sizes.len() == 0 {
                    (128, 50)
                } else {
                    let pick: u64 = random_between(0, sizes.len() as u64 - 1);
                    let size: u64 = sizes[pick as usize];
                    assert(size_seen(self@, sizes@[pick as int] as int));
                    let gaps = self.all_gaps();
                    let delay: u64 = if gaps.len() == 0 {
                        50
                    } else {
                        let pick: u64 = random_between(0, gaps.len() as u64 - 1);
                        assert(gap_seen(self@, gaps@[pick as int] as int));
                        gaps[pick as usize] / 1000
                    };
                    (len_of(size as u128), delay)
                }
            },
        };
        MaskedPacket { data: random_bytes(len), delay_ms, context: context.to_string() }
    }

    /// One detail for each profile.
    fn profile_details(&self) -> (details: Vec<ProfileDetail>)
        requires
            self.wf(),
        ensures
            are_details(self@, details@),
    {
        let mut details: Vec<ProfileDetail> = Vec::new();
        let n: usize = self.contexts.len();
        let mut i: usize = 0;
        let ghost mut names = Set::<Seq<char>>::empty();
        proof {
            self.contexts.lemma_names();
        }
        while i < n
            invariant
                i <= n,
                n == self.contexts.size(),
                self.wf(),
                forall|a: int, b: int|
                    0 <= a < b < n ==> #[trigger] self.contexts.name_at(a)
                        != #[trigger] self.contexts.name_at(b),
                names.finite(),
                names.len() == details@.len(),
                forall|m: Seq<char>| #[trigger]
                    names.contains(m) <==> self@.profile(m) is Some && exists|j: int|
                        0 <= j < i && #[trigger] self.contexts.name_at(j) == m,
                forall|k: int| 0 <= k < details@.len() ==> stems(self@, #[trigger] details@[k]),
                forall|j: int|
                    0 <= j < i ==> is_summed(
                        details@,
                        self@.profile(#[trigger] self.contexts.name_at(j)),
                    ),
            decreases n - i,
        {
            let c = self.contexts.at(i);
            let ghost before = details@;
            match &c.profile {
                Some(p) => {
                    let d = ProfileDetail {
                        name: p.name.clone(),
                        sample_count: p.sample_count,
                        confidence_micro: p.confidence_micro,
                        size_mean_micro: p.size_distribution.moments.mean_micro(),
                        size_std_milli: p.size_distribution.std_dev(),
                        timing_mean_micro: p.timing_distribution.moments.mean_micro(),
                        timing_std_milli: p.timing_distribution.std_dev(),
                    };
                    details.push(d);
                    proof {
                        assert(self@.profile(c.name@) == Some(p@));
                        assert(stems(self@, d));
                        assert forall|k: int| 0 <= k < details@.len() implies stems(
                            self@,
                            #[trigger] details@[k],
                        ) by {
                            if k < before.len() {
                                assert(details@[k] == before[k]);
                            }
                        }
                        assert forall|j: int| 0 <= j < i implies is_summed(
                            details@,
                            self@.profile(#[trigger] self.contexts.name_at(j)),
                        ) by {
                            lemma_still_summed(
                                before,
                                d,
                                self@.profile(self.contexts.name_at(j)),
                            );
                        }
                        assert(details@[before.len() as int] == d);
                        assert(self.contexts.name_at(i as int) == c.name@);
                        if names.contains(c.name@) {
                            let j = choose|j: int|
                                0 <= j < i && #[trigger] self.contexts.name_at(j) == c.name@;
                            assert(self.contexts.name_at(j) != self.contexts.name_at(i as int));
                        }
                        names = names.insert(c.name@);
                    }
                },
                None => {},
            }
            i = i + 1;
        }
        proof {
            self.contexts.lemma_names();
            assert forall|m: Seq<char>| is_summed(details@, #[trigger] self@.profile(m)) by {
                if self@.profile(m) is Some {
                    assert(self.contexts@.contains_key(m));
                    let j = choose|j: int|
                        0 <= j < self.contexts.size() && #[trigger] self.contexts.name_at(j) == m;
                    assert(is_summed(details@, self@.profile(self.contexts.name_at(j))));
                }
            }
            assert forall|m: Seq<char>| names.contains(m) == #[trigger] learned_names(
                self@,
            ).contains(m) by {
                if self@.profile(m) is Some {
                    assert(self.contexts@.contains_key(m));
                }
            }
            assert(names =~= learned_names(self@));
        }
        details
    }

    /// The names of which there is a profile.
    pub fn learned_contexts(&self) -> (v: Vec<String>)
        requires
            self.wf(),
        ensures
            forall|i: int|
                0 <= i < v@.len() ==> learned_names(self@).contains((#[trigger] v@[i])@),
            forall|n: Seq<char>| #[trigger]
                learned_names(self@).contains(n) ==> exists|i: int|
                    0 <= i < v@.len() && (#[trigger] v@[i])@ == n,
            forall|i: int, j: int|
                0 <= i < j < v@.len() ==> (#[trigger] v@[i])@ != (#[trigger] v@[j])@,
    {
        let mut v: Vec<String> = Vec::new();
        let n: usize = self.contexts.len();
        let mut i: usize = 0;
        proof {
            self.contexts.lemma_names();
        }
        while i < n
            invariant
                i <= n,
                n == self.contexts.size(),
                self.wf(),
                forall|a: int, b: int|
                    0 <= a < b < n ==> #[trigger] self.contexts.name_at(a)
                        != #[trigger] self.contexts.name_at(b),
                forall|k: int|
                    0 <= k < v@.len() ==> learned_names(self@).contains((#[trigger] v@[k])@)
                        && is_name_before(self.contexts, i as int, v@[k]@),
                forall|j: int|
                    0 <= j < i && self@.profile(#[trigger] self.contexts.name_at(j)) is Some
                        ==> is_in(v@, self.contexts.name_at(j)),
                forall|a: int, b: int|
                    0 <= a < b < v@.len() ==> (#[trigger] v@[a])@ != (#[trigger] v@[b])@,
            decreases n - i,
        {
            let c = self.contexts.at(i);
            let ghost before = v@;
            if c.profile.is_some() {
                v.push(c.name.clone());
                proof {
                    assert(self@.profile(c.name@) is Some);
                    assert forall|a: int| 0 <= a < before.len() implies (#[trigger] before[a])@
                        != c.name@ by {
                        let j = choose|j: int|
                            0 <= j < i && #[trigger] self.contexts.name_at(j) == before[a]@;
                        assert(self.contexts.name_at(j) != self.contexts.name_at(i as int));
                    }
                    assert(v@[before.len() as int]@ == c.name@);
                }
            }
            proof {
                assert forall|k: int| 0 <= k < v@.len() implies learned_names(self@).contains(
                    (#[trigger] v@[k])@,
                ) && is_name_before(self.contexts, i + 1, v@[k]@) by {
                    if k < before.len() {
                        assert(v@[k] == before[k]);
                        let j = choose|j: int|
                            0 <= j < i && #[trigger] self.contexts.name_at(j) == before[k]@;
                        assert(self.contexts.name_at(j) == v@[k]@);
                    } else {
                        assert(self.contexts.name_at(i as int) == v@[k]@);
                    }
                }
                assert forall|j: int|
                    0 <= j < i + 1 && self@.profile(
                        #[trigger] self.contexts.name_at(j),
                    ) is Some implies is_in(v@, self.contexts.name_at(j)) by {
                    if j < i {
                        let k = choose|k: int|
                            0 <= k < before.len() && (#[trigger] before[k])@
                                == self.contexts.name_at(j);
                        assert(v@[k] == before[k]);
                    }
                }
            }
            i = i + 1;
        }
        proof {
            assert forall|m: Seq<char>| #[trigger]
                learned_names(self@).contains(m) implies exists|k: int|
                0 <= k < v@.len() && (#[trigger] v@[k])@ == m by {
                assert(self.contexts@.contains_key(m));
                let j = choose|j: int|
                    0 <= j < self.contexts.size() && #[trigger] self.contexts.name_at(j) == m;
                assert(is_in(v@, self.contexts.name_at(j)));
            }
        }
        v
    }

    /// A summary of what has been learned: one detail for each profile.
    pub fn get_learning_stats(&self) -> (s: LearningStats)
        requires
            self.wf(),
        ensures
            s.total_observations == self@.observations,
            s.profiles_learned == s.profile_details@.len(),
            are_details(self@, s.profile_details@),
            s.average_confidence_micro == if s.profile_details@.len() == 0 {
                0
            } else {
                confidences(s.profile_details@, s.profile_details@.len() as int)
                    / s.profile_details@.len() as int
            },
            s.anomaly_rate_micro == if self@.observations == 0 {
                0
            } else {
                1_000_000 * self@.anomalies / self@.observations
            },
    {
        let details = self.profile_details();
        let count: usize = details.len();
        let mut sum: u128 = 0;
        let mut i: usize = 0;
        while i < count
            invariant
                i <= count,
                count == details@.len(),
                sum == confidences(details@, i as int),
                sum <= i * 0xFFFF_FFFF_FFFF_FFFF,
            decreases count - i,
        {
            sum = sum + details[i].confidence_micro as u128;
            i = i + 1;
        }
        let average: u64 = if count == 0 {
            0
        } else {
            proof {
                let (t, m) = (sum as int, count as int);
                assert(t / m <= 0xFFFF_FFFF_FFFF_FFFF) by (nonlinear_arith)
                    requires
                        0 <= t <= m * 0xFFFF_FFFF_FFFF_FFFF,
                        m > 0,
                ;
            }
            (sum / (count as u128)) as u64
        };
        let rate: u64 = if self.total_observations == 0 {
            0
        } else {
            1_000_000 * (self.anomaly_count as u64) / (self.total_observations as u64)
        };
        LearningStats {
            total_observations: self.total_observations as usize,
            profiles_learned: count,
            average_confidence_micro: average,
            anomaly_rate_micro: rate,
            profile_details: details,
        }
    }
}

/// Whether a detail sums up some profile.
pub open spec fn stems(v: LearnerView, d: ProfileDetail) -> bool {
    exists|n: Seq<char>| (#[trigger] v.profile(n)) matches Some(p) && sums_up(d, p)
}

/// Whether some detail sums up the profile, if there is one.
pub open spec fn is_summed(details: Seq<ProfileDetail>, p: Option<UserProfileView>) -> bool {
    match p {
        Some(q) => exists|k: int| 0 <= k < details.len() && sums_up(#[trigger] details[k], q),
        None => true,
    }
}

/// Whether one of the texts is `n`.
pub open spec fn is_in(v: Seq<String>, n: Seq<char>) -> bool {
    exists|k: int| 0 <= k < v.len() && (#[trigger] v[k])@ == n
}

/// Whether a name stands before place `i`.
pub open spec fn is_name_before(t: ContextTable, i: int, n: Seq<char>) -> bool {
    exists|j: int| 0 <= j < i && #[trigger] t.name_at(j) == n
}

/// The names of which there is a profile.
pub open spec fn learned_names(v: LearnerView) -> Set<Seq<char>> {
    Set::new(|n: Seq<char>| v.profile(n) is Some)
}

/// Whether the details sum up what was learned: all of it and nothing else.
pub open spec fn are_details(v: LearnerView, details: Seq<ProfileDetail>) -> bool {
    &&& learned_names(v).finite()
    &&& details.len() == learned_names(v).len()
    &&& forall|k: int| 0 <= k < details.len() ==> stems(v, #[trigger] details[k])
    &&& forall|n: Seq<char>| is_summed(details, #[trigger] v.profile(n))
}

proof fn lemma_still_summed(
    details: Seq<ProfileDetail>,
    d: ProfileDetail,
    p: Option<UserProfileView>,
)
    requires
        is_summed(details, p),
    ensures
        is_summed(details.push(d), p),
{
    if p is Some {
        let q = p->Some_0;
        let k = choose|k: int| 0 <= k < details.len() && sums_up(#[trigger] details[k], q);
        assert(details.push(d)[k] == details[k]);
    }
}

/// What is forgotten leaves no profile, and nothing else changes.
pub proof fn law_reset_forgets(v: LearnerView, name: Seq<char>, other: Seq<char>)
    requires
        name != other,
    ensures
        ({
            let r = LearnerView { contexts: v.contexts.remove(name), burst: None, ..v };
            &&& r.profile(name) is None
            &&& r.context(other) == v.context(other)
        }),
{
}

/// Traffic of one name teaches nothing about another.
pub proof fn law_contexts_are_apart(
    v: LearnerView,
    p: PacketRecord,
    name: Seq<char>,
    other: Seq<char>,
    now_us: u64,
)
    requires
        name != other,
    ensures
        v.observed(p, name, now_us).context(other) == v.context(other),
        v.learned(name).context(other) == v.context(other),
        v.ended(name, now_us).context(other) == v.context(other),
{
}

/// From the least number of samples on there is a profile, and it is the active one.
pub proof fn law_enough_samples_make_a_profile(v: LearnerView, name: Seq<char>)
    requires
        v.min_samples >= 1,
        v.context(name).sizes.len() >= v.min_samples,
    ensures
        v.learned(name).profile(name) is Some,
        v.learned(name).active == Some(name),
        v.learned(name).profile(name)->Some_0.sample_count == v.context(name).sizes.len(),
{
}

// ---- What learned traffic keeps to ----

/// A packet drawn from a profile that was just learned has a delay between the least and the
/// greatest gap that was seen, in whole milliseconds, where the gaps reach farther than a millisecond
/// from the first; the greatest counts as at least a millisecond above the first.
pub proof fn law_masked_delays_lie_among_the_gaps(
    v: LearnerView,
    name: Seq<char>,
    least: int,
    most: int,
    len: int,
    delay_ms: int,
)
    requires
        v.context(name).wf(),
        v.min_samples >= 1,
        v.context(name).sizes.len() >= v.min_samples,
        v.context(name).timings.len() > 0,
        0 <= least,
        v.context(name).timings[0] + 1000 <= most,
        forall|i: int|
            0 <= i < v.context(name).timings.len() ==> least <= #[trigger] v.context(name).timings[i]
                <= most,
        exists|i: int|
            0 <= i < v.context(name).timings.len() && !(v.context(name).timings[0]
                <= #[trigger] v.context(name).timings[i] <= v.context(name).timings[0] + 1000),
        looks_like(v.learned(name), name, len, delay_ms),
    ensures
        least < 1000 * (delay_ms + 1),
        1000 * delay_ms <= most,
{
    let c = v.context(name);
    let p = c.profile_of(name, v.min_samples);
    let s = c.timings;
    assert(v.learned(name).profile(name) == Some(p));
    let (a, b, e, d) = choose|a: int, b: int, e: int, d: int|
        0 <= a < ROLL_RANGE && 0 <= b < ROLL_RANGE && 0 <= e < ROLL_RANGE && 0 <= d < ROLL_RANGE && (
        len,
        delay_ms,
    ) == #[trigger] drawn_shape(p, a, b, e, d);
    let far = choose|i: int|
        0 <= i < c.timings.len() && !(c.timings[0] <= #[trigger] c.timings[i] <= c.timings[0]
            + 1000);
    assert(!(s[0] <= s[far] <= s[0] + contexts::GAP_UNIT));
    empirical::law_draws_stay_among_the_samples(
        contexts::DEFAULT_BIN_COUNT as int,
        contexts::GAP_UNIT,
        s,
        least,
        most,
        e,
        d,
    );
}

/// Where all gaps that were seen are the same, a packet waits for that long, in whole milliseconds,
/// or for less than a millisecond longer.
pub proof fn law_masked_delays_keep_an_even_gap(
    v: LearnerView,
    name: Seq<char>,
    gap: u64,
    len: int,
    delay_ms: int,
)
    requires
        v.context(name).wf(),
        v.min_samples >= 1,
        v.context(name).sizes.len() >= v.min_samples,
        v.context(name).timings.len() > 0,
        forall|i: int|
            0 <= i < v.context(name).timings.len() ==> #[trigger] v.context(name).timings[i] == gap,
        looks_like(v.learned(name), name, len, delay_ms),
    ensures
        gap < 1000 * (delay_ms + 1),
        1000 * delay_ms <= gap + 1000,
{
    let c = v.context(name);
    let p = c.profile_of(name, v.min_samples);
    assert(v.learned(name).profile(name) == Some(p));
    let (a, b, e, d) = choose|a: int, b: int, e: int, d: int|
        0 <= a < ROLL_RANGE && 0 <= b < ROLL_RANGE && 0 <= e < ROLL_RANGE && 0 <= d < ROLL_RANGE && (
        len,
        delay_ms,
    ) == #[trigger] drawn_shape(p, a, b, e, d);
    empirical::law_draws_from_equal_samples(
        contexts::DEFAULT_BIN_COUNT as int,
        contexts::GAP_UNIT,
        c.timings,
        gap,
        e,
        d,
    );
}

/// A packet drawn from a profile that was just learned is as long as packets that were seen: between
/// the shortest and the longest, where they reach farther than a byte from the first, and at least
/// one byte.
pub proof fn law_masked_sizes_lie_among_the_sizes(
    v: LearnerView,
    name: Seq<char>,
    least: int,
    most: int,
    len: int,
    delay_ms: int,
)
    requires
        v.context(name).wf(),
        v.min_samples >= 1,
        v.context(name).sizes.len() >= v.min_samples,
        1 <= least,
        most <= isize::MAX,
        v.context(name).sizes[0] + 1 <= most,
        forall|i: int|
            0 <= i < v.context(name).sizes.len() ==> least <= #[trigger] v.context(name).sizes[i]
                <= most,
        exists|i: int|
            0 <= i < v.context(name).sizes.len() && !(v.context(name).sizes[0]
                <= #[trigger] v.context(name).sizes[i] <= v.context(name).sizes[0] + 1),
        looks_like(v.learned(name), name, len, delay_ms),
    ensures
        least <= len <= most,
{
    let c = v.context(name);
    let p = c.profile_of(name, v.min_samples);
    let s = c.sizes;
    assert(v.learned(name).profile(name) == Some(p));
    let (a, b, e, d) = choose|a: int, b: int, e: int, d: int|
        0 <= a < ROLL_RANGE && 0 <= b < ROLL_RANGE && 0 <= e < ROLL_RANGE && 0 <= d < ROLL_RANGE && (
        len,
        delay_ms,
    ) == #[trigger] drawn_shape(p, a, b, e, d);
    empirical::law_draws_stay_among_the_samples(
        contexts::DEFAULT_BIN_COUNT as int,
        1,
        s,
        least,
        most,
        a,
        b,
    );
}

/// Where all packets that were seen have the same size, a packet has that size or is one byte longer.
pub proof fn law_masked_sizes_keep_an_even_size(
    v: LearnerView,
    name: Seq<char>,
    size: u64,
    len: int,
    delay_ms: int,
)
    requires
        v.context(name).wf(),
        v.min_samples >= 1,
        v.context(name).sizes.len() >= v.min_samples,
        1 <= size < isize::MAX,
        forall|i: int|
            0 <= i < v.context(name).sizes.len() ==> #[trigger] v.context(name).sizes[i] == size,
        looks_like(v.learned(name), name, len, delay_ms),
    ensures
        size <= len <= size + 1,
{
    let c = v.context(name);
    let p = c.profile_of(name, v.min_samples);
    assert(v.learned(name).profile(name) == Some(p));
    let (a, b, e, d) = choose|a: int, b: int, e: int, d: int|
        0 <= a < ROLL_RANGE && 0 <= b < ROLL_RANGE && 0 <= e < ROLL_RANGE && 0 <= d < ROLL_RANGE && (
        len,
        delay_ms,
    ) == #[trigger] drawn_shape(p, a, b, e, d);
    empirical::law_draws_from_equal_samples(
        contexts::DEFAULT_BIN_COUNT as int,
        1,
        c.sizes,
        size,
        a,
        b,
    );
}

/// Without a profile a packet looks like one that was seen: its size is one of theirs and its delay
/// one of the gaps in whole milliseconds; without any packet it has 128 bytes and waits 50
/// milliseconds.
pub proof fn law_unlearned_traffic_looks_like_what_was_seen(
    v: LearnerView,
    name: Seq<char>,
    least: int,
    most: int,
    len: int,
    delay_ms: int,
)
    requires
        v.profile(name) is None,
        looks_like(v, name, len, delay_ms),
        forall|gap: int| #[trigger] gap_seen(v, gap) ==> least <= gap <= most,
    ensures
        no_size_seen(v) ==> len == 128 && delay_ms == 50,
        !no_size_seen(v) && len < isize::MAX ==> size_seen(v, len),
        !no_size_seen(v) && !no_gap_seen(v) ==> least < 1000 * (delay_ms + 1) && 1000 * delay_ms
            <= most,
        !no_size_seen(v) && no_gap_seen(v) ==> delay_ms == 50,
{
}

/// A packet that is seen is remembered under its name, with its size and the time since the packet
/// before it, and counted in its direction.
pub proof fn law_packets_are_remembered(v: LearnerView, p: PacketRecord, name: Seq<char>, now_us: u64)
    ensures
        ({
            let c = v.context(name);
            let e = v.seen(p, name, now_us).context(name);
            &&& e.sizes == c.sizes.push(p.size as u64)
            &&& v.last_us is Some && v.last_us->Some_0 <= now_us ==> e.timings == c.timings.push(
                (now_us - v.last_us->Some_0) as u64,
            )
            &&& v.last_us is None ==> e.timings == c.timings
            &&& e.up + e.down == c.up + c.down + 1
            &&& p.direction == PacketDirection::Up ==> e.up == c.up + 1
            &&& p.direction == PacketDirection::Down ==> e.down == c.down + 1
            &&& e.entropy_total - c.entropy_total == p.payload_entropy_micro
            &&& v.seen(p, name, now_us).last_us == Some(now_us)
            &&& v.seen(p, name, now_us).observations == v.observations + 1
        }),
{
}

/// A gap of more than 50 milliseconds ends a burst and starts another with its packet; after a
/// shorter one the burst in progress goes on with one more packet. A burst of one packet that ends is
/// forgotten.
pub proof fn law_pauses_end_bursts(b: BurstObservation, gap_us: u64, size: u64)
    requires
        b.wf(),
        b.packet_count < u32::MAX,
    ensures
        ({
            let r = burst_after(Some(b), gap_us, size);
            &&& gap_us > 50_000 ==> {
                &&& r.0 matches Some(n) && n.packet_count == 1 && n.size_total == size
                    && n.gap_total_us == 0
                &&& b.packet_count >= 2 ==> r.1 == Some(b)
                &&& b.packet_count == 1 ==> r.1 is None
            }
            &&& gap_us <= 50_000 ==> {
                &&& r.0 matches Some(n) && n.packet_count == b.packet_count + 1 && n.size_total
                    == b.size_total + size && n.gap_total_us == b.gap_total_us + gap_us
                &&& r.1 is None
            }
        }),
        burst_after(None, gap_us, size).0 is Some <==> gap_us > 50_000,
{
    let n = b.packet_count as int;
    assert(b.gap_total_us + gap_us <= u128::MAX && b.size_total + size <= u128::MAX) by {
        assert((n - 1) * u64::MAX <= 0xFFFF_FFFF * u64::MAX && n * u64::MAX <= 0xFFFF_FFFF
            * u64::MAX) by (nonlinear_arith)
            requires
                1 <= n <= 0xFFFF_FFFF,
        ;
    }
}

/// A session that ends is remembered with its length in whole milliseconds, and a pause of more than
/// 50 milliseconds with its own.
pub proof fn law_sessions_are_timed(v: LearnerView, name: Seq<char>, start: u64, last: u64, now_us: u64)
    requires
        v.session_us == Some(start),
        v.last_us == Some(last),
        start <= now_us,
        last <= now_us,
    ensures
        ({
            let (c, e) = (v.context(name), v.ended(name, now_us).context(name));
            &&& e.sessions.len() == c.sessions.len() + 1
            &&& 1000 * e.sessions.last() <= now_us - start < 1000 * (e.sessions.last() + 1)
            &&& now_us - last > 50_000 ==> e.idles.len() == c.idles.len() + 1 && 1000
                * e.idles.last() <= now_us - last < 1000 * (e.idles.last() + 1)
            &&& now_us - last <= 50_000 ==> e.idles == c.idles
            &&& v.ended(name, now_us).session_us is None
        }),
{
}

/// What was just learned is like what was seen: by size and gaps where there are enough of both, and
/// by four fifths where there are not enough gaps.
pub proof fn law_learned_traffic_is_like_what_was_seen(v: LearnerView, name: Seq<char>)
    requires
        v.context(name).wf(),
        v.min_samples >= 1,
        v.context(name).sizes.len() >= v.min_samples,
    ensures
        v.context(name).timings.len() >= v.min_samples ==> v.learned(name).similarity(name)
            == 1_000_000,
        v.context(name).timings.len() < v.min_samples ==> v.learned(name).similarity(name) == 800_000,
        v.profile(name) is None ==> v.similarity(name) == 0,
{
    let c = v.context(name);
    let bins = contexts::DEFAULT_BIN_COUNT as int;
    empirical::law_distribution_of_samples(bins, 1, c.sizes, c.sizes.len() as int);
    empirical::law_distribution_of_samples(
        bins,
        contexts::GAP_UNIT,
        c.timings,
        c.timings.len() as int,
    );
    assert(c.sizes.subrange(0, c.sizes.len() as int) =~= c.sizes);
    assert(c.timings.subrange(0, c.timings.len() as int) =~= c.timings);
    similarity::law_same_traffic_is_alike(Moments::of(c.sizes), c.sizes);
    if c.timings.len() > 0 {
        similarity::law_same_traffic_is_alike(Moments::of(c.timings), c.timings);
    }
}

/// A profile is learned anew each time as many packets have been seen as are needed, and at no other
/// time.
pub proof fn law_profiles_are_learned_every_so_often(
    v: LearnerView,
    p: PacketRecord,
    name: Seq<char>,
    now_us: u64,
)
    requires
        v.min_samples >= 1,
        v.observations >= 0,
    ensures
        (v.observations + 1) % v.min_samples != 0 ==> v.observed(p, name, now_us).profile(name)
            == v.profile(name) && v.observed(p, name, now_us).active == v.active,
        (v.observations + 1) % v.min_samples == 0 && v.context(name).sizes.len() + 1
            >= v.min_samples ==> v.observed(p, name, now_us).active == Some(name) && v.observed(
            p,
            name,
            now_us,
        ).profile(name) is Some,
{
}

} // verus!
