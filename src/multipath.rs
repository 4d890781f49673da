//! Links and their send weights. Weights are parts per billion; over the
//! active links they always sum to exactly one whole, and each active weight
//! is at least a tenth of an equal share.
use crate::config::Config;
use crate::error::Error;
use crate::stats::NicStats;
use vstd::prelude::*;

verus! {

/// One whole weight, in parts per billion.
pub const WEIGHT_SCALE: u64 = 1_000_000_000;

/// A tenth of one whole: `count * weight` of an active link is at least this.
pub const MIN_WEIGHT_SHARE: u64 = 100_000_000;

/// Most links a manager holds (link ids are bytes).
pub const MAX_NICS: usize = 256;

/// A link: its id, weight and state. Its socket lives with the caller.
#[derive(Debug, Clone, Copy)]
pub struct NicInfo {
    pub id: u8,
    /// Send weight in parts per billion.
    pub ratio: u64,
    pub active: bool,
    pub last_activity_us: u64,
}

impl NicInfo {
    /// An active link with full weight.
    pub fn new(id: u8, now_us: u64) -> (r: NicInfo)
        ensures
            r == (NicInfo { id, ratio: WEIGHT_SCALE, active: true, last_activity_us: now_us }),
    {
        NicInfo { id, ratio: WEIGHT_SCALE, active: true, last_activity_us: now_us }
    }
}

/// Sum of the weights of the active links.
pub open spec fn active_weight(s: Seq<NicInfo>) -> nat
    decreases s.len(),
{
    if s.len() == 0 {
        0
    } else {
        active_weight(s.drop_last()) + if s.last().active {
            s.last().ratio as nat
        } else {
            0
        }
    }
}

/// Number of active links.
pub open spec fn active_count(s: Seq<NicInfo>) -> nat
    decreases s.len(),
{
    if s.len() == 0 {
        0
    } else {
        active_count(s.drop_last()) + if s.last().active {
            1nat
        } else {
            0
        }
    }
}

pub proof fn lemma_active_count_le(s: Seq<NicInfo>)
    ensures
        active_count(s) <= s.len(),
    decreases s.len(),
{
    if s.len() > 0 {
        lemma_active_count_le(s.drop_last());
    }
}

pub proof fn lemma_active_prefix(s: Seq<NicInfo>, k: int)
    requires
        0 <= k <= s.len(),
    ensures
        active_count(s.subrange(0, k)) <= active_count(s),
        active_weight(s.subrange(0, k)) <= active_weight(s),
    decreases s.len(),
{
    if k < s.len() {
        assert(s.drop_last().subrange(0, k) =~= s.subrange(0, k));
        lemma_active_prefix(s.drop_last(), k);
    } else {
        assert(s.subrange(0, k) =~= s);
    }
}

pub proof fn lemma_active_member(s: Seq<NicInfo>, k: int)
    requires
        0 <= k < s.len(),
        s[k].active,
    ensures
        active_count(s) > 0,
{
    let p = s.subrange(0, k + 1);
    assert(p.drop_last() =~= s.subrange(0, k));
    lemma_active_prefix(s, k + 1);
}

/// Counts depend on the active flags alone.
pub proof fn lemma_same_active(a: Seq<NicInfo>, b: Seq<NicInfo>)
    requires
        a.len() == b.len(),
        forall|k: int| 0 <= k < a.len() ==> (#[trigger] a[k]).active == b[k].active,
    ensures
        active_count(a) == active_count(b),
    decreases a.len(),
{
    if a.len() > 0 {
        lemma_same_active(a.drop_last(), b.drop_last());
    }
}

/// Counts and weights depend on the active flags and weights alone.
pub proof fn lemma_same_weights(a: Seq<NicInfo>, b: Seq<NicInfo>)
    requires
        a.len() == b.len(),
        forall|k: int|
            0 <= k < a.len() ==> (#[trigger] a[k]).active == b[k].active && a[k].ratio == b[k].ratio,
    ensures
        active_count(a) == active_count(b),
        active_weight(a) == active_weight(b),
    decreases a.len(),
{
    if a.len() > 0 {
        lemma_same_weights(a.drop_last(), b.drop_last());
    }
}

/// Whether the active links share one whole equally: each holds
/// `WEIGHT_SCALE / n`, the first active one also the remainder.
pub open spec fn equal_shares(s: Seq<NicInfo>) -> bool {
    let n = active_count(s);
    forall|i: int|
        0 <= i < s.len() && (#[trigger] s[i]).active ==> s[i].ratio == WEIGHT_SCALE as int / n as int + if active_count(
            s.subrange(0, i),
        ) == 0 {
            WEIGHT_SCALE as int % n as int
        } else {
            0
        }
}

/// Weights are normalized: with any link active, active weights sum to one
/// whole and each is at least `0.1 / active_count`; inactive weights are 0.
pub open spec fn weights_normalized(s: Seq<NicInfo>) -> bool {
    &&& active_count(s) > 0 ==> active_weight(s) == WEIGHT_SCALE
    &&& forall|i: int|
        0 <= i < s.len() ==> (#[trigger] s[i]).active ==> s[i].ratio * active_count(s)
            >= MIN_WEIGHT_SHARE
    &&& forall|i: int| 0 <= i < s.len() ==> !(#[trigger] s[i]).active ==> s[i].ratio == 0
}

/// Sum of a sequence of scores.
pub open spec fn score_sum(s: Seq<u128>) -> nat
    decreases s.len(),
{
    if s.len() == 0 {
        0
    } else {
        score_sum(s.drop_last()) + s.last() as nat
    }
}

proof fn lemma_div_monotone(a: int, b: int, d: int)
    requires
        0 <= a <= b,
        d > 0,
    ensures
        a / d <= b / d,
{
    assert(a / d <= b / d) by (nonlinear_arith)
        requires
            0 <= a <= b,
            d > 0,
    ;
}

proof fn lemma_score_sum_prefix(s: Seq<u128>, k: int)
    requires
        0 <= k < s.len(),
    ensures
        score_sum(s.subrange(0, k + 1)) == score_sum(s.subrange(0, k)) + s[k],
{
    assert(s.subrange(0, k + 1).drop_last() =~= s.subrange(0, k));
}

proof fn lemma_score_sum_prefix_le(s: Seq<u128>, k: int)
    requires
        0 <= k <= s.len(),
    ensures
        score_sum(s.subrange(0, k)) <= score_sum(s),
    decreases s.len(),
{
    if k < s.len() {
        assert(s.drop_last().subrange(0, k) =~= s.subrange(0, k));
        lemma_score_sum_prefix_le(s.drop_last(), k);
    } else {
        assert(s.subrange(0, k) =~= s);
    }
}

proof fn lemma_score_sum_bound(s: Seq<u128>, bound: nat)
    requires
        forall|i: int| 0 <= i < s.len() ==> s[i] <= bound,
    ensures
        score_sum(s) <= s.len() * bound,
    decreases s.len(),
{
    if s.len() > 0 {
        lemma_score_sum_bound(s.drop_last(), bound);
        assert(score_sum(s) <= s.len() * bound) by (nonlinear_arith)
            requires
                score_sum(s) == score_sum(s.drop_last()) + s.last(),
                score_sum(s.drop_last()) <= (s.len() - 1) * bound,
                s.last() <= bound,
        ;
    }
}

/// A link's loss rate in parts per million.
pub open spec fn link_loss(s: NicStats) -> int {
    crate::stats::ppm_of(s.lost_chunks as int, s.total_chunks + s.lost_chunks)
}

/// Highest loss rate over the links, 0 for none.
pub open spec fn max_loss(s: Seq<NicStats>) -> int
    decreases s.len(),
{
    if s.len() == 0 {
        0
    } else {
        let m = max_loss(s.drop_last());
        if link_loss(s.last()) > m {
            link_loss(s.last())
        } else {
            m
        }
    }
}

/// A link's score: `throughput * (1 - loss)` when active, else 0.
pub open spec fn score_of(nic: NicInfo, st: NicStats) -> int {
    if nic.active {
        crate::stats::throughput_of(st) * (1_000_000 - link_loss(st))
    } else {
        0
    }
}

/// The links' scores, by link id.
pub open spec fn scores_of(nics: Seq<NicInfo>, stats: Seq<NicStats>) -> Seq<u128> {
    Seq::new(nics.len(), |k: int| score_of(nics[k], stats[k]) as u128)
}

/// Weight of link `j` after re-weighting with `n` active links and scores
/// `sc`: 0 when inactive; else the floor `ceil(0.1 / n)` plus the link's
/// share of the rest of one whole, taken as the difference of the rounded
/// cumulative shares before and after it (so the shares sum exactly).
pub open spec fn adjusted_weight(nics: Seq<NicInfo>, sc: Seq<u128>, n: int, j: int) -> int {
    if !nics[j].active {
        0
    } else {
        let b = (MIN_WEIGHT_SHARE + n - 1) / n;
        let rest = WEIGHT_SCALE - b * n;
        let total = score_sum(sc) as int;
        b + rest * score_sum(sc.subrange(0, j + 1)) / total - rest * score_sum(sc.subrange(0, j))
            / total
    }
}

/// The links of a session, their statistics and the weighted round-robin
/// state.
pub struct PathManager {
    pub nics: Vec<NicInfo>,
    pub stats: Vec<NicStats>,
    pub config: Config,
    /// Chunks assigned so far, for the round-robin position.
    pub chunk_counter: u64,
    pub last_ratio_adjust_us: u64,
}

impl PathManager {
    /// Ids are positions, links and statistics correspond, and the weights
    /// are normalized.
    pub open spec fn wf(&self) -> bool {
        &&& self.nics@.len() == self.stats@.len()
        &&& self.nics@.len() <= MAX_NICS
        &&& forall|i: int| 0 <= i < self.nics@.len() ==> (#[trigger] self.nics@[i]).id == i
        &&& weights_normalized(self.nics@)
        &&& self.config.wf()
    }

    pub fn new(config: Config, now_us: u64) -> (r: PathManager)
        requires
            config.wf(),
        ensures
            r.wf(),
            r.nics@.len() == 0,
            r.config == config,
            r.chunk_counter == 0,
            r.last_ratio_adjust_us == now_us,
    {
        PathManager {
            nics: Vec::new(),
            stats: Vec::new(),
            config,
            chunk_counter: 0,
            last_ratio_adjust_us: now_us,
        }
    }

    /// Number of active links.
    pub fn active_nic_count(&self) -> (r: usize)
        requires
            self.nics@.len() <= MAX_NICS,
        ensures
            r == active_count(self.nics@),
    {
        let mut c: usize = 0;
        let mut i: usize = 0;
        while i < self.nics.len()
            invariant
                i <= self.nics@.len() <= MAX_NICS,
                c == active_count(self.nics@.subrange(0, i as int)),
                c <= i,
            decreases self.nics@.len() - i,
        {
            assert(self.nics@.subrange(0, i + 1).drop_last() =~= self.nics@.subrange(0, i as int));
            if self.nics[i].active {
                c = c + 1;
            }
            i = i + 1;
        }
        assert(self.nics@.subrange(0, self.nics@.len() as int) =~= self.nics@);
        c
    }

    pub fn nic_count(&self) -> (r: usize)
        ensures
            r == self.nics@.len(),
    {
        self.nics.len()
    }

    /// Gives every active link an equal share (the first active one takes the
    /// remainder) and every inactive one 0.
    fn equalize_ratios(&mut self)
        requires
            old(self).nics@.len() == old(self).stats@.len(),
            old(self).nics@.len() <= MAX_NICS,
            forall|i: int| 0 <= i < old(self).nics@.len() ==> (#[trigger] old(self).nics@[i]).id == i,
            old(self).config.wf(),
        ensures
            final(self).wf(),
            final(self).nics@.len() == old(self).nics@.len(),
            forall|i: int|
                0 <= i < old(self).nics@.len() ==> (#[trigger] final(self).nics@[i]).active == old(
                    self,
                ).nics@[i].active && final(self).nics@[i].last_activity_us == old(
                    self,
                ).nics@[i].last_activity_us,
            final(self).stats@ == old(self).stats@,
            final(self).config == old(self).config,
            final(self).chunk_counter == old(self).chunk_counter,
            final(self).last_ratio_adjust_us == old(self).last_ratio_adjust_us,
            equal_shares(final(self).nics@),
    {
        let n = self.active_nic_count();
        let ghost old_nics = self.nics@;
        proof {
            lemma_active_count_le(old_nics);
        }
        let q: u64 = if n == 0 {
            0
        } else {
            WEIGHT_SCALE / n as u64
        };
        let rem: u64 = if n == 0 {
            0
        } else {
            WEIGHT_SCALE % n as u64
        };
        if n > 0 {
            assert(q * n + rem == WEIGHT_SCALE && q * n >= MIN_WEIGHT_SHARE && q + rem
                <= WEIGHT_SCALE) by (nonlinear_arith)
                requires
                    0 < n <= 256,
                    q == WEIGHT_SCALE / n as u64,
                    rem == WEIGHT_SCALE % n as u64,
            ;
        }
        let mut out: Vec<NicInfo> = Vec::new();
        let mut given = false;
        assert(active_weight(out@) == 0 && active_count(out@) == 0);
        assert(old_nics.subrange(0, 0) =~= Seq::<NicInfo>::empty());
        let mut i: usize = 0;
        while i < self.nics.len()
            invariant
                i <= self.nics@.len() <= MAX_NICS,
                self.nics@ == old_nics,
                n == active_count(old_nics),
                out@.len() == i,
                n > 0 ==> q * n + rem == WEIGHT_SCALE && q * n >= MIN_WEIGHT_SHARE && q + rem
                    <= WEIGHT_SCALE,
                n == 0 ==> q == 0 && rem == 0,
                given == (active_count(old_nics.subrange(0, i as int)) > 0),
                active_count(out@) == active_count(old_nics.subrange(0, i as int)),
                active_weight(out@) == active_count(out@) * q + if given {
                    rem as int
                } else {
                    0
                },
                forall|k: int|
                    0 <= k < i ==> {
                        &&& (#[trigger] out@[k]).active == old_nics[k].active
                        &&& out@[k].id == old_nics[k].id
                        &&& out@[k].last_activity_us == old_nics[k].last_activity_us
                        &&& out@[k].active ==> out@[k].ratio >= q
                        &&& !out@[k].active ==> out@[k].ratio == 0
                        &&& out@[k].active ==> out@[k].ratio == q + if active_count(
                            old_nics.subrange(0, k),
                        ) == 0 {
                            rem as int
                        } else {
                            0
                        }
                    },
                n > 0 ==> q == WEIGHT_SCALE as int / n as int && rem == WEIGHT_SCALE as int % n as int,
            decreases self.nics@.len() - i,
        {
            assert(old_nics.subrange(0, i + 1).drop_last() =~= old_nics.subrange(0, i as int));
            let mut nic = self.nics[i];
            let ghost before = out@;
            if nic.active {
                if !given {
                    proof {
                        lemma_active_member(old_nics, i as int);
                    }
                    nic.ratio = q + rem;
                    given = true;
                } else {
                    nic.ratio = q;
                }
            } else {
                nic.ratio = 0;
            }
            out.push(nic);
            assert(out@.drop_last() =~= before);
            assert(active_count(out@) == active_count(before) + if nic.active { 1int } else { 0 });
            assert(active_weight(out@) == active_count(out@) * q + if given {
                rem as int
            } else {
                0
            }) by (nonlinear_arith)
                requires
                    active_weight(out@) == active_weight(before) + if nic.active {
                        nic.ratio as int
                    } else {
                        0
                    },
                    active_weight(before) == active_count(before) * q + if given && !(nic.active
                        && nic.ratio == q + rem && active_count(before) == 0) {
                        rem as int
                    } else {
                        0
                    },
                    active_count(out@) == active_count(before) + if nic.active {
                        1int
                    } else {
                        0
                    },
                    nic.active ==> (nic.ratio == q + rem && active_count(before) == 0) || (
                    nic.ratio == q && active_count(before) > 0),
                    !nic.active ==> nic.ratio == 0,
                    given == (active_count(before) > 0 || nic.active),
            ;
            i = i + 1;
        }
        assert(old_nics.subrange(0, old_nics.len() as int) =~= old_nics);
        assert(active_count(out@) == n);
        assert(n > 0 ==> active_weight(out@) == WEIGHT_SCALE) by (nonlinear_arith)
            requires
                active_weight(out@) == n * q + if given {
                    rem as int
                } else {
                    0
                },
                given == (n > 0),
                n > 0 ==> q * n + rem == WEIGHT_SCALE,
        ;
        let ghost outv = out@;
        self.nics = out;
        proof {
            lemma_same_active(old_nics, outv);
            assert forall|k: int| 0 <= k < outv.len() && (#[trigger] outv[k]).active implies outv[k].ratio
                == WEIGHT_SCALE as int / active_count(outv) as int + if active_count(outv.subrange(0, k)) == 0 {
                WEIGHT_SCALE as int % active_count(outv) as int
            } else {
                0
            } by {
                lemma_same_active(old_nics.subrange(0, k), outv.subrange(0, k));
                lemma_active_member(outv, k);
            }
        }
        assert forall|k: int| 0 <= k < self.nics@.len() && (#[trigger] self.nics@[k]).active implies self.nics@[k].ratio * n
            >= MIN_WEIGHT_SHARE by {
            lemma_active_member(self.nics@, k);
            assert(self.nics@[k].ratio * n >= q * n) by (nonlinear_arith)
                requires
                    self.nics@[k].ratio >= q,
                    n >= 0,
            ;
        }
    }

    /// Re-weights the active links by `throughput * (1 - loss)`, at most once
    /// per configured interval. Each active link gets a floor of
    /// `ceil(0.1 / active_count)` and the rest of one whole is split in
    /// proportion to the scores (by cumulative shares, so the split is exact).
    /// With no score at all the weights stay as they are.
    pub fn adjust_ratios(&mut self, now_us: u64)
        requires
            old(self).wf(),
        ensures
            final(self).wf(),
            final(self).nics@.len() == old(self).nics@.len(),
            forall|i: int|
                0 <= i < old(self).nics@.len() ==> (#[trigger] final(self).nics@[i]).active == old(
                    self,
                ).nics@[i].active,
            final(self).stats@ == old(self).stats@,
            final(self).config == old(self).config,
            final(self).chunk_counter == old(self).chunk_counter,
            ({
                let elapsed = if now_us >= old(self).last_ratio_adjust_us {
                    now_us - old(self).last_ratio_adjust_us
                } else {
                    0
                };
                let sc = scores_of(old(self).nics@, old(self).stats@);
                let n = active_count(old(self).nics@);
                if elapsed < old(self).config.ratio_adjust_interval_ms * 1000 {
                    *final(self) == *old(self)
                } else {
                    &&& final(self).last_ratio_adjust_us == now_us
                    &&& (n > 0 && score_sum(sc) > 0 ==> forall|j: int|
                        0 <= j < old(self).nics@.len() ==> (#[trigger] final(self).nics@[j]).ratio
                            == adjusted_weight(old(self).nics@, sc, n as int, j))
                    &&& (n == 0 || score_sum(sc) == 0 ==> final(self).nics@ == old(self).nics@)
                }
            }),
    {
        let elapsed = if now_us >= self.last_ratio_adjust_us {
            now_us - self.last_ratio_adjust_us
        } else {
            0
        };
        if (elapsed as u128) < self.config.ratio_adjust_interval_ms as u128 * 1000 {
            return;
        }
        self.last_ratio_adjust_us = now_us;
        let n = self.active_nic_count();
        proof {
            lemma_active_count_le(self.nics@);
        }
        if n == 0 {
            return;
        }
        let ghost max_score: nat = u64::MAX as nat * 1_000_000;
        let mut scores: Vec<u128> = Vec::new();
        let mut total: u128 = 0;
        let mut i: usize = 0;
        while i < self.nics.len()
            invariant
                i <= self.nics@.len() <= MAX_NICS,
                self.nics@.len() == self.stats@.len(),
                scores@.len() == i,
                forall|k: int| 0 <= k < i ==> scores@[k] <= max_score,
                forall|k: int| 0 <= k < i ==> !self.nics@[k].active ==> scores@[k] == 0,
                total == score_sum(scores@),
                total <= i * max_score,
                max_score == u64::MAX as nat * 1_000_000,
                forall|k: int|
                    0 <= k < i ==> #[trigger] scores@[k] == score_of(self.nics@[k], self.stats@[k])
                        as u128,
            decreases self.nics@.len() - i,
        {
            let sc: u128 = if self.nics[i].active {
                let t = self.stats[i].throughput();
                let loss = self.stats[i].loss_rate();
                assert(t as u128 * (1_000_000 - loss) as u128 <= max_score) by (nonlinear_arith)
                    requires
                        t <= u64::MAX,
                        loss <= 1_000_000,
                        max_score == u64::MAX as nat * 1_000_000,
                ;
                t as u128 * (1_000_000 - loss) as u128
            } else {
                0
            };
            let ghost before = scores@;
            scores.push(sc);
            assert(scores@.drop_last() =~= before);
            assert(total + sc <= (i + 1) * max_score) by (nonlinear_arith)
                requires
                    total <= i * max_score,
                    sc <= max_score,
            ;
            total = total + sc;
            i = i + 1;
        }
        assert(scores@ =~= scores_of(self.nics@, self.stats@));
        if total == 0 {
            return;
        }
        let b: u64 = (MIN_WEIGHT_SHARE + n as u64 - 1) / n as u64;
        assert(b * n >= MIN_WEIGHT_SHARE && b * n <= WEIGHT_SCALE) by (nonlinear_arith)
            requires
                0 < n <= 256,
                b == (MIN_WEIGHT_SHARE + n - 1) / n as int,
        ;
        let rest: u64 = WEIGHT_SCALE - b * n as u64;
        let ghost old_nics = self.nics@;
        let mut out: Vec<NicInfo> = Vec::new();
        let mut cum: u128 = 0;
        let mut prev: u128 = 0;
        let mut j: usize = 0;
        assert(active_weight(out@) == 0 && active_count(out@) == 0);
        assert(scores@.subrange(0, 0) =~= Seq::<u128>::empty());
        assert(old_nics.subrange(0, 0) =~= Seq::<NicInfo>::empty());
        while j < self.nics.len()
            invariant
                j <= self.nics@.len() <= MAX_NICS,
                self.nics@ == old_nics,
                scores@.len() == old_nics.len(),
                forall|k: int| 0 <= k < old_nics.len() ==> scores@[k] <= max_score,
                forall|k: int| 0 <= k < old_nics.len() ==> !old_nics[k].active ==> scores@[k] == 0,
                total == score_sum(scores@),
                total > 0,
                total <= old_nics.len() * max_score,
                max_score == u64::MAX as nat * 1_000_000,
                cum == score_sum(scores@.subrange(0, j as int)),
                cum <= j * max_score,
                prev == rest as int * cum / total as int,
                rest <= WEIGHT_SCALE,
                0 < n <= 256,
                n == active_count(old_nics),
                b * n + rest == WEIGHT_SCALE,
                b * n >= MIN_WEIGHT_SHARE,
                b == (MIN_WEIGHT_SHARE + n - 1) / n as int,
                forall|k: int|
                    0 <= k < j ==> (#[trigger] out@[k]).ratio == adjusted_weight(
                        old_nics,
                        scores@,
                        n as int,
                        k,
                    ),
                out@.len() == j,
                active_count(out@) == active_count(old_nics.subrange(0, j as int)),
                active_weight(out@) == active_count(out@) * b + prev,
                forall|k: int|
                    0 <= k < j ==> {
                        &&& (#[trigger] out@[k]).active == old_nics[k].active
                        &&& out@[k].id == old_nics[k].id
                        &&& out@[k].active ==> out@[k].ratio >= b
                        &&& !out@[k].active ==> out@[k].ratio == 0
                    },
            decreases self.nics@.len() - j,
        {
            proof {
                lemma_score_sum_prefix(scores@, j as int);
            }
            assert(old_nics.subrange(0, j + 1).drop_last() =~= old_nics.subrange(0, j as int));
            assert(cum + scores@[j as int] <= (j + 1) * max_score) by (nonlinear_arith)
                requires
                    cum <= j * max_score,
                    scores@[j as int] <= max_score,
            ;
            let next_cum = cum + scores[j];
            assert(rest as u128 * next_cum <= 1_000_000_000 * (256 * max_score)) by (nonlinear_arith)
                requires
                    rest <= 1_000_000_000,
                    next_cum <= (j + 1) * max_score,
                    j < 256,
            ;
            let f = rest as u128 * next_cum / total;
            proof {
                assert(0 <= rest as int * cum <= rest as int * next_cum) by (nonlinear_arith)
                    requires
                        cum <= next_cum,
                        rest >= 0,
                        cum >= 0,
                ;
                lemma_div_monotone(rest as int * cum, rest as int * next_cum, total as int);
            }
            let mut nic = self.nics[j];
            let ghost before = out@;
            if nic.active {
                proof {
                    lemma_score_sum_prefix_le(scores@, j + 1);
                    assert(0 <= rest as int * next_cum <= rest as int * total) by (nonlinear_arith)
                        requires
                            next_cum <= total,
                            rest >= 0,
                            next_cum >= 0,
                    ;
                    lemma_div_monotone(rest as int * next_cum, rest as int * total, total as int);
                    assert(rest as int * total / total as int == rest) by (nonlinear_arith)
                        requires
                            total > 0,
                    ;
                }
                assert(f <= rest);
                assert(b <= b * n) by (nonlinear_arith)
                    requires
                        n >= 1,
                ;
                nic.ratio = b + (f - prev) as u64;
            } else {
                assert(next_cum == cum);
                nic.ratio = 0;
            }
            out.push(nic);
            assert(out@.drop_last() =~= before);
            assert(active_weight(out@) == active_count(out@) * b + f) by (nonlinear_arith)
                requires
                    active_weight(out@) == active_weight(before) + if nic.active {
                        nic.ratio as int
                    } else {
                        0
                    },
                    active_count(out@) == active_count(before) + if nic.active {
                        1int
                    } else {
                        0
                    },
                    active_weight(before) == active_count(before) * b + prev,
                    nic.active ==> nic.ratio == b + f - prev,
                    !nic.active ==> f == prev,
            ;
            cum = next_cum;
            prev = f;
            j = j + 1;
        }
        assert(old_nics.subrange(0, old_nics.len() as int) =~= old_nics);
        assert(scores@.subrange(0, old_nics.len() as int) =~= scores@);
        assert(rest as int * total / total as int == rest) by (nonlinear_arith)
            requires
                total > 0,
        ;
        assert(active_count(out@) == n);
        assert(prev == rest);
        assert(active_weight(out@) == WEIGHT_SCALE) by (nonlinear_arith)
            requires
                active_weight(out@) == active_count(out@) * b + prev,
                active_count(out@) == n,
                prev == rest,
                rest == WEIGHT_SCALE - b * n,
        ;
        self.nics = out;
        assert forall|k: int| 0 <= k < self.nics@.len() && (#[trigger] self.nics@[k]).active implies self.nics@[k].ratio * n
            >= MIN_WEIGHT_SHARE by {
            assert(self.nics@[k].ratio * n >= b * n) by (nonlinear_arith)
                requires
                    self.nics@[k].ratio >= b,
                    n >= 0,
            ;
        }
    }

    /// Adds an active link with the next id and fresh statistics, then
    /// shares the weight equally. Fails once 256 links exist.
    pub fn add_nic(&mut self, now_us: u64) -> (r: Result<u8, Error>)
        requires
            old(self).wf(),
        ensures
            final(self).wf(),
            old(self).nics@.len() >= MAX_NICS ==> r == Err::<u8, Error>(
                Error::BufferOverflow { max_size: MAX_NICS },
            ) && *final(self) == *old(self),
            final(self).config == old(self).config,
            old(self).nics@.len() < MAX_NICS ==> {
                &&& r == Ok::<u8, Error>(old(self).nics@.len() as u8)
                &&& final(self).nics@.len() == old(self).nics@.len() + 1
                &&& final(self).nics@.last().active
                &&& final(self).stats@.len() == old(self).stats@.len() + 1
                &&& final(self).stats@.last().nic_id == old(self).nics@.len()
                &&& final(self).stats@.last().window_size == old(self).config.stats_window_size
                &&& forall|i: int|
                    0 <= i < old(self).nics@.len() ==> (#[trigger] final(self).nics@[i]).active
                        == old(self).nics@[i].active
            },
    {
        if self.nics.len() >= MAX_NICS {
            return Err(Error::BufferOverflow { max_size: MAX_NICS });
        }
        let id = self.nics.len() as u8;
        self.nics.push(NicInfo::new(id, now_us));
        self.stats.push(NicStats::new(id, self.config.stats_window_size, now_us));
        self.equalize_ratios();
        Ok(id)
    }

    /// The first active link whose running weight passes `pos`.
    fn pick_nic(&self, pos: u64) -> (r: Option<u8>)
        requires
            self.wf(),
            pos < WEIGHT_SCALE,
        ensures
            r.is_some() <==> active_count(self.nics@) > 0,
            r matches Some(id) ==> {
                let s = self.nics@;
                &&& (id as int) < s.len()
                &&& s[id as int].active
                &&& pos < active_weight(s.subrange(0, id + 1))
                &&& forall|j: int|
                    0 <= j < id ==> !((#[trigger] s[j]).active && pos < active_weight(
                        s.subrange(0, j + 1),
                    ))
            },
    {
        let ghost s = self.nics@;
        let mut cum: u64 = 0;
        let mut i: usize = 0;
        proof {
            lemma_active_count_le(s);
        }
        assert(s.subrange(0, 0) =~= Seq::<NicInfo>::empty());
        while i < self.nics.len()
            invariant
                i <= s.len() <= MAX_NICS,
                self.nics@ == s,
                self.wf(),
                cum == active_weight(s.subrange(0, i as int)),
                cum <= pos,
                forall|j: int|
                    0 <= j < i ==> !((#[trigger] s[j]).active && pos < active_weight(
                        s.subrange(0, j + 1),
                    )),
            decreases s.len() - i,
        {
            assert(s.subrange(0, i + 1).drop_last() =~= s.subrange(0, i as int));
            proof {
                lemma_active_prefix(s, i + 1);
            }
            if self.nics[i].active {
                proof {
                    lemma_active_member(s, i as int);
                }
                cum = cum + self.nics[i].ratio;
                if pos < cum {
                    return Some(self.nics[i].id);
                }
            }
            i = i + 1;
        }
        assert(s.subrange(0, s.len() as int) =~= s);
        proof {
            assert forall|k: int| 0 <= k < s.len() implies !(#[trigger] s[k]).active by {
                if s[k].active {
                    lemma_active_member(s, k);
                }
            }
        }
        None
    }

    /// Weighted round-robin: the chunk counter's position in 0..100 picks the
    /// first active link whose running weight passes it. The counter wraps.
    pub fn select_nic_for_chunk(&mut self) -> (r: Option<u8>)
        requires
            old(self).wf(),
        ensures
            final(self).wf(),
            final(self).nics@ == old(self).nics@,
            final(self).stats@ == old(self).stats@,
            final(self).config == old(self).config,
            final(self).last_ratio_adjust_us == old(self).last_ratio_adjust_us,
            old(self).nics@.len() > 0 ==> final(self).chunk_counter == if old(self).chunk_counter
                == u64::MAX {
                0
            } else {
                old(self).chunk_counter + 1
            },
            old(self).nics@.len() == 0 ==> *final(self) == *old(self),
            r.is_some() <==> active_count(old(self).nics@) > 0,
            r matches Some(id) ==> {
                let s = old(self).nics@;
                let pos = (old(self).chunk_counter % 100) as int * 10_000_000;
                &&& (id as int) < s.len()
                &&& s[id as int].active
                &&& pos < active_weight(s.subrange(0, id + 1))
                &&& forall|j: int|
                    0 <= j < id ==> !((#[trigger] s[j]).active && pos < active_weight(
                        s.subrange(0, j + 1),
                    ))
            },
    {
        if self.nics.len() == 0 {
            assert(self.nics@ =~= Seq::<NicInfo>::empty());
            return None;
        }
        let counter = self.chunk_counter;
        let pos: u64 = (counter % 100) * 10_000_000;
        let r = self.pick_nic(pos);
        self.chunk_counter = if counter == u64::MAX {
            0
        } else {
            counter + 1
        };
        r
    }

    /// Records a chunk of `size` bytes on link `nic_id`; unknown ids are ignored.
    pub fn record_chunk_arrival(&mut self, nic_id: u8, size: usize, now_us: u64)
        requires
            old(self).wf(),
        ensures
            final(self).wf(),
            final(self).nics@.len() == old(self).nics@.len(),
            (nic_id as int) < old(self).nics@.len() ==> {
                &&& final(self).stats@[nic_id as int].total_chunks == crate::stats::sat_add(
                    old(self).stats@[nic_id as int].total_chunks,
                    1,
                )
                &&& final(self).nics@[nic_id as int].last_activity_us == now_us
            },
            (nic_id as int) >= old(self).nics@.len() ==> *final(self) == *old(self),
    {
        let i = nic_id as usize;
        if i >= self.nics.len() {
            return;
        }
        self.stats[i].record_arrival(size, now_us);
        let mut nic = self.nics[i];
        nic.last_activity_us = now_us;
        self.nics.set(i, nic);
        proof {
            lemma_same_weights(old(self).nics@, self.nics@);
        }
    }

    /// Adds `count` lost chunks to link `nic_id`; unknown ids are ignored.
    pub fn record_loss(&mut self, nic_id: u8, count: u64)
        requires
            old(self).wf(),
        ensures
            final(self).wf(),
            final(self).nics@ == old(self).nics@,
            final(self).stats@.len() == old(self).stats@.len(),
            (nic_id as int) < old(self).stats@.len() ==> final(self).stats@[nic_id as int].lost_chunks
                == crate::stats::sat_add(old(self).stats@[nic_id as int].lost_chunks, count as int),
            (nic_id as int) >= old(self).stats@.len() ==> *final(self) == *old(self),
    {
        let i = nic_id as usize;
        if i >= self.stats.len() {
            return;
        }
        self.stats[i].record_loss(count);
    }

    /// Each link's id and weight.
    pub fn get_ratios(&self) -> (r: Vec<(u8, u64)>)
        ensures
            r@.len() == self.nics@.len(),
            forall|i: int|
                0 <= i < r@.len() ==> #[trigger] r@[i] == (self.nics@[i].id, self.nics@[i].ratio),
    {
        let mut r: Vec<(u8, u64)> = Vec::new();
        let mut i: usize = 0;
        while i < self.nics.len()
            invariant
                i <= self.nics@.len(),
                r@.len() == i,
                forall|k: int|
                    0 <= k < i ==> #[trigger] r@[k] == (self.nics@[k].id, self.nics@[k].ratio),
            decreases self.nics@.len() - i,
        {
            r.push((self.nics[i].id, self.nics[i].ratio));
            i = i + 1;
        }
        r
    }

    /// Sets a link's state and re-shares the weight equally; unknown ids
    /// change nothing but the sharing.
    fn set_active(&mut self, nic_id: u8, active: bool)
        requires
            old(self).wf(),
        ensures
            final(self).wf(),
            final(self).nics@.len() == old(self).nics@.len(),
            forall|i: int|
                0 <= i < old(self).nics@.len() ==> (#[trigger] final(self).nics@[i]).active == if i
                    == nic_id {
                    active
                } else {
                    old(self).nics@[i].active
                },
            final(self).stats@ == old(self).stats@,
            equal_shares(final(self).nics@),
    {
        let i = nic_id as usize;
        if i < self.nics.len() {
            let mut nic = self.nics[i];
            nic.active = active;
            nic.ratio = 0;
            self.nics.set(i, nic);
        }
        self.equalize_ratios();
    }

    /// Takes a link out of the rotation.
    pub fn deactivate_nic(&mut self, nic_id: u8)
        requires
            old(self).wf(),
        ensures
            final(self).wf(),
            final(self).nics@.len() == old(self).nics@.len(),
            forall|i: int|
                0 <= i < old(self).nics@.len() ==> (#[trigger] final(self).nics@[i]).active == (i
                    != nic_id && old(self).nics@[i].active),
            final(self).stats@ == old(self).stats@,
            equal_shares(final(self).nics@),
    {
        self.set_active(nic_id, false);
    }

    /// Puts a link back into the rotation.
    pub fn activate_nic(&mut self, nic_id: u8)
        requires
            old(self).wf(),
        ensures
            final(self).wf(),
            final(self).nics@.len() == old(self).nics@.len(),
            forall|i: int|
                0 <= i < old(self).nics@.len() ==> (#[trigger] final(self).nics@[i]).active == (i
                    == nic_id || old(self).nics@[i].active),
            final(self).stats@ == old(self).stats@,
            equal_shares(final(self).nics@),
    {
        self.set_active(nic_id, true);
    }

    /// Highest loss rate over the links, in parts per million.
    pub fn max_loss_rate(&self) -> (r: u32)
        ensures
            r == max_loss(self.stats@),
            r <= 1_000_000,
    {
        let mut best: u32 = 0;
        let mut i: usize = 0;
        while i < self.stats.len()
            invariant
                i <= self.stats@.len(),
                best <= 1_000_000,
                best == max_loss(self.stats@.subrange(0, i as int)),
            decreases self.stats@.len() - i,
        {
            assert(self.stats@.subrange(0, i + 1).drop_last() =~= self.stats@.subrange(0, i as int));
            let l = self.stats[i].loss_rate();
            if l > best {
                best = l;
            }
            i = i + 1;
        }
        assert(self.stats@.subrange(0, self.stats@.len() as int) =~= self.stats@);
        best
    }

    /// Redundancy for the worst link's loss rate (see
    /// `Config::calculate_redundancy`).
    pub fn calculate_redundancy(&self) -> (r: u32)
        requires
            self.wf(),
        ensures
            r == crate::config::redundancy_for(
                self.config.base_redundancy_ratio,
                self.config.min_redundancy_ratio,
                self.config.max_redundancy_ratio,
                max_loss(self.stats@) as u32,
            ),
            self.config.min_redundancy_ratio <= r <= self.config.max_redundancy_ratio,
    {
        let loss = self.max_loss_rate();
        self.config.calculate_redundancy(loss)
    }

    /// The links' statistics, by link id.
    pub fn get_stats(&self) -> (r: &Vec<NicStats>)
        ensures
            r@ == self.stats@,
    {
        &self.stats
    }

    /// Sum of the links' throughputs in bytes per second, capped at `u64::MAX`.
    pub fn total_throughput(&self) -> (r: u64)
        ensures
            r as int == if crate::stats::sum_throughput(self.stats@) > u64::MAX {
                u64::MAX as int
            } else {
                crate::stats::sum_throughput(self.stats@) as int
            },
    {
        let mut total: u128 = 0;
        let mut i: usize = 0;
        while i < self.stats.len()
            invariant
                i <= self.stats@.len(),
                total == crate::stats::sum_throughput(self.stats@.subrange(0, i as int)),
                total <= i * u64::MAX,
            decreases self.stats@.len() - i,
        {
            assert(self.stats@.subrange(0, i + 1).drop_last() =~= self.stats@.subrange(0, i as int));
            let t = self.stats[i].throughput();
            assert(total + t <= (i + 1) * u64::MAX <= u128::MAX) by (nonlinear_arith)
                requires
                    total <= i * u64::MAX,
                    t <= u64::MAX,
                    i < usize::MAX,
                    usize::MAX <= u64::MAX,
            ;
            total = total + t as u128;
            i = i + 1;
        }
        assert(self.stats@.subrange(0, self.stats@.len() as int) =~= self.stats@);
        if total > u64::MAX as u128 {
            u64::MAX
        } else {
            total as u64
        }
    }
}

/// A manager with one active link holding the whole weight.
pub fn create_single_path(config: Config, now_us: u64) -> (r: PathManager)
    requires
        config.wf(),
    ensures
        r.wf(),
        r.nics@.len() == 1,
        r.nics@[0].active,
        r.nics@[0].ratio == WEIGHT_SCALE,
        r.config == config,
{
    let mut m = PathManager::new(config, now_us);
    let _ = m.add_nic(now_us);
    assert(m.nics@.len() == 1);
    assert(m.nics@[0].active);
    assert(active_count(m.nics@) > 0) by {
        lemma_active_member(m.nics@, 0);
    }
    assert(m.nics@.drop_last() =~= Seq::<NicInfo>::empty());
    assert(active_weight(m.nics@.drop_last()) == 0);
    assert(active_weight(m.nics@) == m.nics@[0].ratio);
    m
}

} // verus!
