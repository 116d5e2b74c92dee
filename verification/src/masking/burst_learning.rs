//! Burst patterns learned from bursts that were seen.

use vstd::prelude::*;
use vstd::string::StringExecFns;

verus! {

/// Fewest bursts that make a pattern.
pub const MIN_BURST_CLUSTER_SIZE: usize = 5;

/// Most patterns that are kept.
pub const MAX_BURST_PATTERNS: usize = 16;

/// A pause longer than this ends a burst, in microseconds.
pub const BURST_GAP_US: u64 = 50_000;

/// A burst that was seen: how many packets it had, how many microseconds lay between them
/// and how many bytes they had together.
#[derive(Debug, Clone, Copy, PartialEq, Eq, Structural)]
pub struct BurstObservation {
    pub packet_count: u32,
    pub gap_total_us: u128,
    pub size_total: u128,
}

impl BurstObservation {
    pub open spec fn wf(self) -> bool {
        &&& self.packet_count >= 1
        &&& self.gap_total_us <= (self.packet_count - 1) * u64::MAX
        &&& self.size_total <= self.packet_count * u64::MAX
    }

    /// A burst of one packet.
    pub open spec fn first(size: u64) -> BurstObservation {
        BurstObservation { packet_count: 1, gap_total_us: 0, size_total: size as u128 }
    }

    /// With one more packet after a gap.
    pub open spec fn with(self, gap_us: u64, size: u64) -> BurstObservation {
        BurstObservation {
            packet_count: (self.packet_count + 1) as u32,
            gap_total_us: (self.gap_total_us + gap_us) as u128,
            size_total: (self.size_total + size) as u128,
        }
    }

    /// The mean gap, in millionths of a microsecond; zero where there is none.
    pub open spec fn mean_gap(self) -> int {
        if self.packet_count < 2 {
            0
        } else {
            1_000_000 * self.gap_total_us / (self.packet_count - 1)
        }
    }

    /// The mean size, in millionths of a byte.
    pub open spec fn mean_size(self) -> int {
        1_000_000 * self.size_total / self.packet_count as int
    }
}

/// Where a burst goes in a list ordered by packets: behind all that have no more.
pub open spec fn place_of(t: Seq<BurstObservation>, x: BurstObservation, i: int) -> int
    decreases t.len() - i,
{
    if i >= t.len() {
        t.len() as int
    } else if t[i].packet_count > x.packet_count {
        i
    } else {
        place_of(t, x, i + 1)
    }
}

/// Bursts ordered by packets; those with as many stay in their order.
pub open spec fn by_count(s: Seq<BurstObservation>) -> Seq<BurstObservation>
    decreases s.len(),
{
    if s.len() == 0 {
        Seq::empty()
    } else {
        let t = by_count(s.drop_last());
        t.insert(place_of(t, s.last(), 0), s.last())
    }
}

/// From burst `i` on, with the one at `c` the first of the current group: the groups of at
/// least five bursts. A group holds at most 32, and none with over three packets more than
/// its first.
pub open spec fn groups(t: Seq<BurstObservation>, c: int, i: int) -> Seq<(int, int)>
    decreases t.len() - i,
{
    let done = if i - c >= MIN_BURST_CLUSTER_SIZE {
        seq![(c, i)]
    } else {
        Seq::empty()
    };
    if i >= t.len() {
        done
    } else if t[i].packet_count - t[c].packet_count <= 3 && i - c < 2 * MAX_BURST_PATTERNS {
        groups(t, c, i + 1)
    } else {
        done + groups(t, i, i + 1)
    }
}

/// How many bursts a group holds.
pub open spec fn width(g: (int, int)) -> int {
    g.1 - g.0
}

/// Where a group goes in a list ordered by width: behind all that are no narrower.
pub open spec fn rank_of(t: Seq<(int, int)>, x: (int, int), i: int) -> int
    decreases t.len() - i,
{
    if i >= t.len() {
        t.len() as int
    } else if width(t[i]) < width(x) {
        i
    } else {
        rank_of(t, x, i + 1)
    }
}

/// Groups ordered by width, widest first; those as wide stay in their order.
pub open spec fn by_width(s: Seq<(int, int)>) -> Seq<(int, int)>
    decreases s.len(),
{
    if s.len() == 0 {
        Seq::empty()
    } else {
        let t = by_width(s.drop_last());
        t.insert(rank_of(t, s.last(), 0), s.last())
    }
}

/// The groups that become patterns: all, or the widest where there are too many.
pub open spec fn chosen(s: Seq<(int, int)>) -> Seq<(int, int)> {
    if s.len() > MAX_BURST_PATTERNS {
        by_width(s).subrange(0, MAX_BURST_PATTERNS as int)
    } else {
        s
    }
}

#[derive(Debug)]
pub struct LearnedBurstPattern {
    pub name: String,
    pub avg_packet_count_micro: u64,
    /// In millionths of a microsecond.
    pub avg_inter_packet_time_micro: u128,
    pub avg_packet_size_micro: u128,
    pub frequency_micro: u64,
    pub confidence_micro: u64,
}

/// A pattern as plain data.
pub struct PatternView {
    pub name: Seq<char>,
    pub packet_count: int,
    pub inter_packet_time: int,
    pub packet_size: int,
    pub frequency: int,
    pub confidence: int,
}

impl View for LearnedBurstPattern {
    type V = PatternView;

    open spec fn view(&self) -> PatternView {
        PatternView {
            name: self.name@,
            packet_count: self.avg_packet_count_micro as int,
            inter_packet_time: self.avg_inter_packet_time_micro as int,
            packet_size: self.avg_packet_size_micro as int,
            frequency: self.frequency_micro as int,
            confidence: self.confidence_micro as int,
        }
    }
}

/// The name of a pattern, by its mean packet count in millionths.
pub open spec fn pattern_name(count_micro: int) -> Seq<char> {
    if count_micro < 5_000_000 {
        "micro_burst"@
    } else if count_micro < 15_000_000 {
        "short_burst"@
    } else if count_micro < 50_000_000 {
        "medium_burst"@
    } else {
        "long_burst"@
    }
}

/// Packets of the bursts `c..i`, added up.
pub open spec fn packets(t: Seq<BurstObservation>, c: int, i: int) -> int
    decreases i - c,
{
    if i <= c {
        0
    } else {
        packets(t, c, i - 1) + t[i - 1].packet_count
    }
}

/// Mean gaps of the bursts `c..i`, added up.
pub open spec fn gaps(t: Seq<BurstObservation>, c: int, i: int) -> int
    decreases i - c,
{
    if i <= c {
        0
    } else {
        gaps(t, c, i - 1) + t[i - 1].mean_gap()
    }
}

/// Mean sizes of the bursts `c..i`, added up.
pub open spec fn sizes(t: Seq<BurstObservation>, c: int, i: int) -> int
    decreases i - c,
{
    if i <= c {
        0
    } else {
        sizes(t, c, i - 1) + t[i - 1].mean_size()
    }
}

/// The pattern of a group of bursts.
pub open spec fn pattern_of(t: Seq<BurstObservation>, g: (int, int)) -> PatternView {
    let n = width(g);
    let count = 1_000_000 * packets(t, g.0, g.1) / n;
    PatternView {
        name: pattern_name(count),
        packet_count: count,
        inter_packet_time: gaps(t, g.0, g.1) / n,
        packet_size: sizes(t, g.0, g.1) / n,
        frequency: 1_000_000 * n / t.len() as int,
        confidence: if n < MIN_BURST_CLUSTER_SIZE {
            1_000_000 * n / MIN_BURST_CLUSTER_SIZE as int
        } else {
            1_000_000
        },
    }
}

/// The patterns of bursts that were seen: none below five.
pub open spec fn patterns_of(s: Seq<BurstObservation>) -> Seq<PatternView> {
    if s.len() < MIN_BURST_CLUSTER_SIZE {
        Seq::empty()
    } else {
        let t = by_count(s);
        chosen(groups(t, 0, 1)).map_values(|g: (int, int)| pattern_of(t, g))
    }
}

/// Patterns as plain data.
pub open spec fn pattern_views(v: Seq<LearnedBurstPattern>) -> Seq<PatternView> {
    v.map_values(|p: LearnedBurstPattern| p@)
}

/// Whether bursts are ordered by packets.
pub open spec fn is_ordered(t: Seq<BurstObservation>) -> bool {
    forall|i: int, j: int|
        0 <= i <= j < t.len() ==> (#[trigger] t[i]).packet_count <= (
        #[trigger] t[j]).packet_count
}

proof fn lemma_place(t: Seq<BurstObservation>, x: BurstObservation, i: int)
    requires
        0 <= i <= t.len(),
    ensures
        i <= place_of(t, x, i) <= t.len(),
        forall|k: int| i <= k < place_of(t, x, i) ==> (#[trigger] t[k]).packet_count <= x.packet_count,
        place_of(t, x, i) < t.len() ==> t[place_of(t, x, i)].packet_count > x.packet_count,
    decreases t.len() - i,
{
    if i < t.len() && t[i].packet_count <= x.packet_count {
        lemma_place(t, x, i + 1);
    }
}

/// Ordering bursts keeps them all and puts none before one with fewer packets.
pub proof fn law_by_count_orders(s: Seq<BurstObservation>)
    ensures
        by_count(s).to_multiset() == s.to_multiset(),
        by_count(s).len() == s.len(),
        is_ordered(by_count(s)),
    decreases s.len(),
{
    broadcast use vstd::seq_lib::group_to_multiset_ensures;

    if s.len() > 0 {
        let rest = s.drop_last();
        law_by_count_orders(rest);
        let t = by_count(rest);
        let x = s.last();
        let at = place_of(t, x, 0);
        lemma_place(t, x, 0);
        vstd::seq_lib::to_multiset_insert(t, at, x);
        assert(s =~= rest.push(x));
        let r = t.insert(at, x);
        assert forall|i: int, j: int| 0 <= i <= j < r.len() implies (
        #[trigger] r[i]).packet_count <= (#[trigger] r[j]).packet_count by {
            let pi = if i <= at {
                i
            } else {
                i - 1
            };
            let pj = if j <= at {
                j
            } else {
                j - 1
            };
            if i != at && j != at {
                assert(t[pi].packet_count <= t[pj].packet_count);
            } else if i == at && j != at {
                assert(t[at].packet_count <= t[j - 1].packet_count);
            }
        }
    } else {
        assert(by_count(s) =~= s);
    }
}

fn sort_by_count(s: &Vec<BurstObservation>) -> (t: Vec<BurstObservation>)
    ensures
        t@ == by_count(s@),
        t@.len() == s@.len(),
{
    let mut t: Vec<BurstObservation> = Vec::new();
    let mut i: usize = 0;
    assert(s@.subrange(0, 0) =~= Seq::empty());
    while i < s.len()
        invariant
            i <= s@.len(),
            t@ == by_count(s@.subrange(0, i as int)),
            t@.len() == i,
        decreases s@.len() - i,
    {
        let x: BurstObservation = s[i];
        let mut at: usize = 0;
        while at < t.len() && t[at].packet_count <= x.packet_count
            invariant
                at <= t@.len(),
                place_of(t@, x, 0) == place_of(t@, x, at as int),
            decreases t@.len() - at,
        {
            at = at + 1;
        }
        t.insert(at, x);
        proof {
            assert(s@.subrange(0, i + 1).drop_last() =~= s@.subrange(0, i as int));
        }
        i = i + 1;
    }
    assert(s@.subrange(0, i as int) =~= s@);
    t
}

/// Ranges as pairs of whole numbers.
pub open spec fn ranges(v: Seq<(usize, usize)>) -> Seq<(int, int)> {
    v.map_values(|g: (usize, usize)| (g.0 as int, g.1 as int))
}

/// Whether ranges lie within `n` and hold at least five.
pub open spec fn within(v: Seq<(usize, usize)>, n: int) -> bool {
    forall|k: int|
        0 <= k < v.len() ==> (#[trigger] v[k]).0 + MIN_BURST_CLUSTER_SIZE <= v[k].1 <= n && v[k].1
            - v[k].0 <= 2 * MAX_BURST_PATTERNS
}

fn find_groups(t: &Vec<BurstObservation>) -> (v: Vec<(usize, usize)>)
    requires
        t@.len() >= 1,
        is_ordered(t@),
    ensures
        ranges(v@) == groups(t@, 0, 1),
        within(v@, t@.len() as int),
{
    let n: usize = t.len();
    let mut v: Vec<(usize, usize)> = Vec::new();
    let mut c: usize = 0;
    let mut i: usize = 1;
    assert(ranges(v@) + groups(t@, 0, 1) =~= groups(t@, 0, 1));
    while i < n
        invariant
            c < i <= n,
            i - c <= 2 * MAX_BURST_PATTERNS,
            n == t@.len(),
            is_ordered(t@),
            within(v@, n as int),
            ranges(v@) + groups(t@, c as int, i as int) == groups(t@, 0, 1),
        decreases n - i,
    {
        let ghost before = ranges(v@);
        assert(t@[c as int].packet_count <= t@[i as int].packet_count);
        if t[i].packet_count - t[c].packet_count <= 3 && i - c < 2 * MAX_BURST_PATTERNS {
            i = i + 1;
        } else {
            if i - c >= MIN_BURST_CLUSTER_SIZE {
                v.push((c, i));
                assert(ranges(v@) =~= before.push((c as int, i as int)));
                assert(before.push((c as int, i as int)) + groups(t@, i as int, i + 1) =~= before
                    + (seq![(c as int, i as int)] + groups(t@, i as int, i + 1)));
            } else {
                assert(Seq::<(int, int)>::empty() + groups(t@, i as int, i + 1) =~= groups(
                    t@,
                    i as int,
                    i + 1,
                ));
            }
            c = i;
            i = i + 1;
        }
    }
    if n - c >= MIN_BURST_CLUSTER_SIZE {
        let ghost before = ranges(v@);
        v.push((c, n));
        assert(ranges(v@) =~= before + seq![(c as int, n as int)]);
    } else {
        assert(ranges(v@) =~= ranges(v@) + Seq::<(int, int)>::empty());
    }
    v
}

fn sort_by_width(s: &Vec<(usize, usize)>, n: usize) -> (t: Vec<(usize, usize)>)
    requires
        within(s@, n as int),
    ensures
        ranges(t@) == by_width(ranges(s@)),
        within(t@, n as int),
        t@.len() == s@.len(),
{
    let mut t: Vec<(usize, usize)> = Vec::new();
    let mut i: usize = 0;
    assert(ranges(s@).subrange(0, 0) =~= Seq::empty());
    assert(ranges(t@) =~= Seq::empty());
    while i < s.len()
        invariant
            i <= s@.len(),
            within(s@, n as int),
            within(t@, n as int),
            t@.len() == i,
            ranges(t@) == by_width(ranges(s@).subrange(0, i as int)),
        decreases s@.len() - i,
    {
        let x: (usize, usize) = s[i];
        let ghost y = (x.0 as int, x.1 as int);
        let mut at: usize = 0;
        while at < t.len() && t[at].1 - t[at].0 >= x.1 - x.0
            invariant
                at <= t@.len(),
                within(t@, n as int),
                x.0 <= x.1,
                y == (x.0 as int, x.1 as int),
                rank_of(ranges(t@), y, 0) == rank_of(ranges(t@), y, at as int),
            decreases t@.len() - at,
        {
            at = at + 1;
        }
        let ghost before = t@;
        t.insert(at, x);
        proof {
            assert(ranges(t@) =~= ranges(before).insert(at as int, y));
            assert(ranges(s@).subrange(0, i + 1).drop_last() =~= ranges(s@).subrange(0, i as int));
            assert(ranges(s@)[i as int] == y);
            assert forall|k: int| 0 <= k < t@.len() implies (#[trigger] t@[k]).0
                + MIN_BURST_CLUSTER_SIZE <= t@[k].1 <= n && t@[k].1 - t@[k].0 <= 2
                * MAX_BURST_PATTERNS by {
                if k < at {
                    assert(t@[k] == before[k]);
                } else if k > at {
                    assert(t@[k] == before[k - 1]);
                } else {
                    assert(t@[k] == s@[i as int]);
                }
            }
        }
        i = i + 1;
    }
    assert(ranges(s@).subrange(0, i as int) =~= ranges(s@));
    t
}

/// Bounds of what a burst adds to the sums.
proof fn lemma_means(b: BurstObservation)
    requires
        b.wf(),
    ensures
        0 <= b.mean_gap() <= 1_000_000 * u64::MAX,
        0 <= b.mean_size() <= 1_000_000 * u64::MAX,
{
    let (g, s, n) = (b.gap_total_us as int, b.size_total as int, b.packet_count as int);
    if n >= 2 {
        assert(0 <= 1_000_000 * g / (n - 1) <= 1_000_000 * 0xFFFF_FFFF_FFFF_FFFF) by (nonlinear_arith)
            requires
                0 <= g <= (n - 1) * 0xFFFF_FFFF_FFFF_FFFF,
                n >= 2,
        ;
    }
    assert(0 <= 1_000_000 * s / n <= 1_000_000 * 0xFFFF_FFFF_FFFF_FFFF) by (nonlinear_arith)
        requires
            0 <= s <= n * 0xFFFF_FFFF_FFFF_FFFF,
            n >= 1,
    ;
}

/// Whether all bursts are sound.
pub open spec fn all_sound(t: Seq<BurstObservation>) -> bool {
    forall|i: int| 0 <= i < t.len() ==> (#[trigger] t[i]).wf()
}

fn build_burst_pattern(t: &Vec<BurstObservation>, g: (usize, usize)) -> (p: LearnedBurstPattern)
    requires
        g.0 + MIN_BURST_CLUSTER_SIZE <= g.1 <= t@.len(),
        g.1 - g.0 <= 2 * MAX_BURST_PATTERNS,
        all_sound(t@),
    ensures
        p@ == pattern_of(t@, (g.0 as int, g.1 as int)),
{
    let n: u64 = (g.1 - g.0) as u64;
    let mut count: u64 = 0;
    let mut gap: u128 = 0;
    let mut size: u128 = 0;
    let mut i: usize = g.0;
    while i < g.1
        invariant
            g.0 <= i <= g.1 <= t@.len(),
            g.1 - g.0 <= 32,
            all_sound(t@),
            count == packets(t@, g.0 as int, i as int),
            gap == gaps(t@, g.0 as int, i as int),
            size == sizes(t@, g.0 as int, i as int),
            count <= (i - g.0) * 0xFFFF_FFFF,
            gap <= (i - g.0) * 18_446_744_073_709_551_615_000_000,
            size <= (i - g.0) * 18_446_744_073_709_551_615_000_000,
        decreases g.1 - i,
    {
        let b: BurstObservation = t[i];
        proof {
            assert(t@[i as int].wf());
            lemma_means(b);
        }
        count = count + b.packet_count as u64;
        if b.packet_count >= 2 {
            let part: u128 = 1_000_000 * b.gap_total_us / (b.packet_count as u128 - 1);
            gap = gap + part;
        }
        let part: u128 = 1_000_000 * b.size_total / (b.packet_count as u128);
        size = size + part;
        i = i + 1;
    }
    let avg: u64 = 1_000_000 * count / n;
    let name = if avg < 5_000_000 {
        String::from_str("micro_burst")
    } else if avg < 15_000_000 {
        String::from_str("short_burst")
    } else if avg < 50_000_000 {
        String::from_str("medium_burst")
    } else {
        String::from_str("long_burst")
    };
    LearnedBurstPattern {
        name,
        avg_packet_count_micro: avg,
        avg_inter_packet_time_micro: gap / (n as u128),
        avg_packet_size_micro: size / (n as u128),
        frequency_micro: 1_000_000 * n / (t.len() as u64),
        confidence_micro: 1_000_000,
    }
}

/// The patterns of bursts that were seen.
pub fn detect_burst_patterns(s: &Vec<BurstObservation>) -> (patterns: Vec<LearnedBurstPattern>)
    requires
        all_sound(s@),
    ensures
        pattern_views(patterns@) == patterns_of(s@),
        patterns@.len() <= MAX_BURST_PATTERNS,
{
    let mut patterns: Vec<LearnedBurstPattern> = Vec::new();
    if s.len() < MIN_BURST_CLUSTER_SIZE {
        assert(pattern_views(patterns@) =~= patterns_of(s@));
        return patterns;
    }
    let t = sort_by_count(s);
    proof {
        law_by_count_orders(s@);
        lemma_sound_after_sort(s@);
    }
    let mut v = find_groups(&t);
    let ghost all = ranges(v@);
    if v.len() > MAX_BURST_PATTERNS {
        v = sort_by_width(&v, t.len());
        let ghost wide = v@;
        v.truncate(MAX_BURST_PATTERNS);
        assert(ranges(v@) =~= ranges(wide).subrange(0, MAX_BURST_PATTERNS as int));
        assert forall|k: int| 0 <= k < v@.len() implies (#[trigger] v@[k]).0
            + MIN_BURST_CLUSTER_SIZE <= v@[k].1 <= t@.len() && v@[k].1 - v@[k].0 <= 2
            * MAX_BURST_PATTERNS by {
            assert(v@[k] == wide[k]);
        }
    }
    assert(ranges(v@) == chosen(groups(t@, 0, 1)));
    let ghost want = patterns_of(s@);
    let mut i: usize = 0;
    while i < v.len()
        invariant
            i <= v@.len(),
            v@.len() <= MAX_BURST_PATTERNS,
            within(v@, t@.len() as int),
            all_sound(t@),
            want.len() == v@.len(),
            want == ranges(v@).map_values(|g: (int, int)| pattern_of(t@, g)),
            pattern_views(patterns@) == want.subrange(0, i as int),
        decreases v@.len() - i,
    {
        let ghost before = pattern_views(patterns@);
        assert(v@[i as int].0 + MIN_BURST_CLUSTER_SIZE <= v@[i as int].1);
        let p = build_burst_pattern(&t, v[i]);
        patterns.push(p);
        assert(pattern_views(patterns@) =~= before.push(p@));
        i = i + 1;
        assert(pattern_views(patterns@) =~= want.subrange(0, i as int));
    }
    assert(pattern_views(patterns@) =~= want);
    patterns
}

/// Ordering keeps bursts sound.
proof fn lemma_sound_after_sort(s: Seq<BurstObservation>)
    requires
        all_sound(s),
    ensures
        all_sound(by_count(s)),
{
    broadcast use vstd::seq_lib::group_to_multiset_ensures;

    law_by_count_orders(s);
    let t = by_count(s);
    assert forall|i: int| 0 <= i < t.len() implies (#[trigger] t[i]).wf() by {
        assert(t.contains(t[i]));
        assert(t.to_multiset().count(t[i]) > 0);
        assert(s.to_multiset().count(t[i]) > 0);
        assert(s.contains(t[i]));
        let k = choose|k: int| 0 <= k < s.len() && s[k] == t[i];
        assert(s[k].wf());
    }
}

impl BurstObservation {
    pub fn new(size: u64) -> (b: Self)
        ensures
            b == Self::first(size),
            b.wf(),
    {
        BurstObservation { packet_count: 1, gap_total_us: 0, size_total: size as u128 }
    }

    pub fn push(&mut self, gap_us: u64, size: u64)
        requires
            old(self).wf(),
            old(self).packet_count < u32::MAX,
        ensures
            *final(self) == old(self).with(gap_us, size),
            final(self).wf(),
    {
        proof {
            let n = self.packet_count as int;
            assert(n * u64::MAX <= 0xFFFF_FFFE * u64::MAX) by (nonlinear_arith)
                requires
                    n <= 0xFFFF_FFFE,
            ;
        }
        self.packet_count = self.packet_count + 1;
        self.gap_total_us = self.gap_total_us + gap_us as u128;
        self.size_total = self.size_total + size as u128;
    }
}

// ---- What patterns keep to ----

/// The bursts of a group are alike: there are between five and 32 of them, one after the other, and
/// none has over three packets more than the first.
pub proof fn law_groups_hold_like_bursts(t: Seq<BurstObservation>, c: int, i: int, k: int)
    requires
        0 <= c < i <= t.len(),
        i - c <= 32,
        t[i - 1].packet_count - t[c].packet_count <= 3,
        0 <= k < groups(t, c, i).len(),
    ensures
        ({
            let g = groups(t, c, i)[k];
            &&& c <= g.0 < g.1 <= t.len()
            &&& 5 <= g.1 - g.0 <= 32
            &&& t[g.1 - 1].packet_count - t[g.0].packet_count <= 3
        }),
    decreases t.len() - i,
{
    let done = if i - c >= MIN_BURST_CLUSTER_SIZE {
        seq![(c, i)]
    } else {
        Seq::empty()
    };
    if i < t.len() {
        if t[i].packet_count - t[c].packet_count <= 3 && i - c < 2 * MAX_BURST_PATTERNS {
            law_groups_hold_like_bursts(t, c, i + 1, k);
        } else if k >= done.len() {
            law_groups_hold_like_bursts(t, i, i + 1, k - done.len());
        }
    }
}

/// Five bursts alike, and no others, make one pattern of all of them.
pub proof fn law_five_like_bursts_make_a_pattern(t: Seq<BurstObservation>, i: int)
    requires
        5 <= t.len() <= 32,
        1 <= i <= t.len(),
        forall|j: int|
            0 <= j < t.len() ==> (#[trigger] t[j]).packet_count - t[0].packet_count <= 3,
    ensures
        groups(t, 0, i) == seq![(0int, t.len() as int)],
    decreases t.len() - i,
{
    if i < t.len() {
        assert(t[i].packet_count - t[0].packet_count <= 3);
        law_five_like_bursts_make_a_pattern(t, i + 1);
    }
}

/// Fewer than five bursts make no pattern, and no more than sixteen are kept.
pub proof fn law_patterns_are_few(s: Seq<BurstObservation>)
    ensures
        s.len() < 5 ==> patterns_of(s).len() == 0,
        patterns_of(s).len() <= 16,
{
    if s.len() >= 5 {
        lemma_by_width_len(groups(by_count(s), 0, 1));
    }
}

proof fn lemma_by_width_len(s: Seq<(int, int)>)
    ensures
        by_width(s).len() == s.len(),
    decreases s.len(),
{
    if s.len() > 0 {
        lemma_by_width_len(s.drop_last());
        lemma_rank_fits(by_width(s.drop_last()), s.last(), 0);
    }
}

proof fn lemma_rank_fits(t: Seq<(int, int)>, x: (int, int), i: int)
    requires
        0 <= i <= t.len(),
    ensures
        i <= rank_of(t, x, i) <= t.len(),
    decreases t.len() - i,
{
    if i < t.len() && width(t[i]) >= width(x) {
        lemma_rank_fits(t, x, i + 1);
    }
}

/// A burst whose gaps are all the same has that as its mean gap, and so with sizes.
pub proof fn law_means_of_even_bursts(b: BurstObservation, gap: int, size: int)
    requires
        b.packet_count >= 2,
        gap >= 0,
        size >= 0,
    ensures
        b.gap_total_us == gap * (b.packet_count - 1) ==> b.mean_gap() == 1_000_000 * gap,
        b.size_total == size * b.packet_count ==> b.mean_size() == 1_000_000 * size,
{
    let n = b.packet_count as int;
    assert(1_000_000 * (gap * (n - 1)) / (n - 1) == 1_000_000 * gap && 1_000_000 * (size * n) / n
        == 1_000_000 * size) by (nonlinear_arith)
        requires
            n >= 2,
    ;
}

/// The pattern of bursts that are all the same is that of one of them; it is fully trusted, and as
/// frequent as they are among all.
pub proof fn law_pattern_of_equal_bursts(t: Seq<BurstObservation>, g: (int, int), b: BurstObservation)
    requires
        0 <= g.0,
        g.0 + 5 <= g.1 <= t.len(),
        forall|i: int| g.0 <= i < g.1 ==> #[trigger] t[i] == b,
    ensures
        pattern_of(t, g).packet_count == 1_000_000 * b.packet_count,
        pattern_of(t, g).inter_packet_time == b.mean_gap(),
        pattern_of(t, g).packet_size == b.mean_size(),
        pattern_of(t, g).confidence == 1_000_000,
        g.1 - g.0 == t.len() ==> pattern_of(t, g).frequency == 1_000_000,
        2 * (g.1 - g.0) == t.len() ==> pattern_of(t, g).frequency == 500_000,
{
    lemma_equal_bursts(t, g.0, g.1, b);
    let (n, p, x, y) = (g.1 - g.0, b.packet_count as int, b.mean_gap(), b.mean_size());
    assert(1_000_000 * (n * p) / n == 1_000_000 * p && (n * x) / n == x && (n * y) / n == y
        && 1_000_000 * n / n == 1_000_000 && 1_000_000 * n / (2 * n) == 500_000) by (nonlinear_arith)
        requires
            n > 0,
    ;
}

proof fn lemma_equal_bursts(t: Seq<BurstObservation>, c: int, i: int, b: BurstObservation)
    requires
        0 <= c <= i <= t.len(),
        forall|k: int| c <= k < i ==> #[trigger] t[k] == b,
    ensures
        packets(t, c, i) == (i - c) * b.packet_count,
        gaps(t, c, i) == (i - c) * b.mean_gap(),
        sizes(t, c, i) == (i - c) * b.mean_size(),
    decreases i - c,
{
    let (n, p, x, y) = (i - c, b.packet_count as int, b.mean_gap(), b.mean_size());
    if c < i {
        lemma_equal_bursts(t, c, i - 1, b);
        assert(t[i - 1] == b);
        assert(n * p == (n - 1) * p + p && n * x == (n - 1) * x + x && n * y == (n - 1) * y + y)
            by (nonlinear_arith);
    } else {
        assert(0int * p == 0 && 0int * x == 0 && 0int * y == 0) by (nonlinear_arith);
    }
}

/// Longer bursts have later names: the steps are at five, fifteen and fifty packets.
pub proof fn law_pattern_names(count: int)
    ensures
        pattern_name(count) == "micro_burst"@ <==> count < 5_000_000,
        pattern_name(count) == "long_burst"@ <==> count >= 50_000_000,
        pattern_name(count) == "short_burst"@ <==> 5_000_000 <= count < 15_000_000,
        pattern_name(count) == "medium_burst"@ <==> 15_000_000 <= count < 50_000_000,
{
    reveal_strlit("micro_burst");
    reveal_strlit("short_burst");
    reveal_strlit("medium_burst");
    reveal_strlit("long_burst");
    assert("micro_burst"@.len() == 11 && "short_burst"@.len() == 11 && "medium_burst"@.len() == 12
        && "long_burst"@.len() == 10);
    assert("micro_burst"@[0] != "short_burst"@[0]);
}

} // verus!
