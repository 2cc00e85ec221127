//! Round-trip-time sampling with a bounded buffer.
//!
//! Samples are unsigned microseconds.  At most `RTT_SAMPLE_CAP` samples
//! are stored for percentile computation; the total count keeps growing
//! past the cap.  Percentiles are taken from the sorted samples at index
//! `round((n - 1) * q)`, with `q` given in hundredths, and reported in
//! microseconds so that the whole computation stays in integers.

use vstd::prelude::*;

verus! {

/// Most samples kept for percentile computation.
pub const RTT_SAMPLE_CAP: usize = 4096;

/// Mathematical state of an RTT sampler.
pub ghost struct RttModel {
    pub samples: Seq<u64>,
    pub count: u64,
    pub min_us: Option<u64>,
    pub max_us: Option<u64>,
}

/// Bounded RTT sample buffer with running count, minimum and maximum.
#[derive(Debug)]
pub struct RttStats {
    pub samples: Vec<u64>,
    pub count: u64,
    pub min_us: Option<u64>,
    pub max_us: Option<u64>,
}

impl View for RttStats {
    type V = RttModel;

    open spec fn view(&self) -> RttModel {
        RttModel {
            samples: self.samples@,
            count: self.count,
            min_us: self.min_us,
            max_us: self.max_us,
        }
    }
}

/// The sampler before any sample arrived.
pub open spec fn spec_rtt_empty() -> RttModel {
    RttModel { samples: Seq::empty(), count: 0, min_us: None, max_us: None }
}

/// Recording one sample: the count grows (saturating), the sample is
/// stored only while the buffer is below its cap, and the running
/// minimum and maximum absorb the new value.
pub open spec fn spec_add_sample(r: RttModel, us: u64) -> RttModel {
    RttModel {
        samples: if r.samples.len() < RTT_SAMPLE_CAP { r.samples.push(us) } else { r.samples },
        count: if r.count == u64::MAX { u64::MAX } else { (r.count + 1) as u64 },
        min_us: match r.min_us {
            None => Some(us),
            Some(m) => Some(if us < m { us } else { m }),
        },
        max_us: match r.max_us {
            None => Some(us),
            Some(m) => Some(if us > m { us } else { m }),
        },
    }
}

/// Well-formedness of a sampler: the buffer respects the cap, the count
/// dominates the buffer length, and min/max bound every stored sample.
pub open spec fn rtt_wf(r: RttModel) -> bool {
    &&& r.samples.len() <= RTT_SAMPLE_CAP
    &&& r.count >= r.samples.len()
    &&& (r.samples.len() > 0 ==> r.min_us is Some && r.max_us is Some)
    &&& (forall|i: int| 0 <= i < r.samples.len() ==> (r.min_us matches Some(m) && m <= #[trigger] r.samples[i]))
    &&& (forall|i: int| 0 <= i < r.samples.len() ==> (r.max_us matches Some(m) && m >= #[trigger] r.samples[i]))
}

/// Inserting a value into an already sorted sequence, keeping it sorted:
/// the value goes in front of the first strictly larger element.
pub open spec fn spec_sorted_insert(s: Seq<u64>, x: u64) -> Seq<u64>
    decreases s.len(),
{
    if s.len() == 0 {
        seq![x]
    } else if s[0] <= x {
        seq![s[0]] + spec_sorted_insert(s.drop_first(), x)
    } else {
        seq![x] + s
    }
}

/// Sorting by repeated insertion; this is the ascending order the
/// percentile index is taken in.
pub open spec fn spec_sort(s: Seq<u64>) -> Seq<u64>
    decreases s.len(),
{
    if s.len() == 0 {
        Seq::empty()
    } else {
        spec_sorted_insert(spec_sort(s.drop_first()), s[0])
    }
}

/// Ascending order of a sequence of samples.
pub open spec fn seq_is_sorted(s: Seq<u64>) -> bool {
    forall|i: int, j: int| 0 <= i <= j < s.len() ==> s[i] <= s[j]
}

/// The percentile index `round((n - 1) * q / 100)`, rounding half up.
pub open spec fn spec_quantile_index(n: nat, q_percent: nat) -> nat {
    (2 * (n - 1) * q_percent + 100) as nat / 200
}

/// The sample at the percentile position of an ascending sequence,
/// or 0 when there are no samples.
pub open spec fn spec_quantile_us(sorted: Seq<u64>, q_percent: nat) -> u64 {
    if sorted.len() == 0 {
        0
    } else {
        sorted[spec_quantile_index(sorted.len(), q_percent) as int]
    }
}

/// Median of the stored samples, in microseconds.
pub open spec fn spec_p50_us(r: RttModel) -> u64 {
    spec_quantile_us(spec_sort(r.samples), 50)
}

/// 95th percentile of the stored samples, in microseconds.
pub open spec fn spec_p95_us(r: RttModel) -> u64 {
    spec_quantile_us(spec_sort(r.samples), 95)
}

/// Splitting off the first element of a non-empty sequence splits its
/// multiset accordingly.
pub proof fn lemma_to_multiset_drop_first<A>(s: Seq<A>)
    requires
        s.len() > 0,
    ensures
        s.to_multiset() == s.drop_first().to_multiset().insert(s[0]),
{
    broadcast use vstd::seq_lib::group_to_multiset_ensures;
    broadcast use vstd::multiset::group_multiset_axioms;

    assert(s.remove(0) =~= s.drop_first());
    assert(s.remove(0).to_multiset() =~= s.to_multiset().remove(s[0]));
    assert(s.contains(s[0]));
    assert(s.to_multiset().count(s[0]) > 0);
    assert(s.to_multiset().remove(s[0]).insert(s[0]) =~= s.to_multiset());
}

/// Where `spec_sorted_insert` puts the new value: at the first position
/// `j` whose element is strictly larger, so the result is the input
/// sequence with the value inserted at `j`.
proof fn lemma_sorted_insert_at(s: Seq<u64>, x: u64, j: int)
    requires
        0 <= j <= s.len(),
        forall|i: int| 0 <= i < j ==> s[i] <= x,
        j < s.len() ==> s[j] > x,
    ensures
        spec_sorted_insert(s, x) == s.insert(j, x),
    decreases s.len(),
{
    if s.len() == 0 {
        assert(spec_sorted_insert(s, x) =~= s.insert(0, x));
    } else if j == 0 {
        assert(s[0] > x);
        assert(spec_sorted_insert(s, x) =~= s.insert(0, x));
    } else {
        assert(s[0] <= x);
        lemma_sorted_insert_at(s.drop_first(), x, j - 1);
        assert(seq![s[0]] + s.drop_first().insert(j - 1, x) =~= s.insert(j, x));
    }
}

/// The result of `spec_sorted_insert` on a sorted sequence is sorted and
/// holds exactly the old elements plus the new one.
pub proof fn lemma_sorted_insert_sorted(s: Seq<u64>, x: u64)
    requires
        seq_is_sorted(s),
    ensures
        seq_is_sorted(spec_sorted_insert(s, x)),
        spec_sorted_insert(s, x).to_multiset() == s.to_multiset().insert(x),
        spec_sorted_insert(s, x).len() == s.len() + 1,
    decreases s.len(),
{
    broadcast use vstd::seq_lib::group_to_multiset_ensures;

    if s.len() == 0 {
        assert(spec_sorted_insert(s, x) =~= seq![x]);
        assert(seq![x] =~= Seq::<u64>::empty().push(x));
        assert(Seq::<u64>::empty().push(x).to_multiset() =~= Seq::<u64>::empty().to_multiset().insert(x));
        assert(s =~= Seq::<u64>::empty());
    } else if s[0] <= x {
        assert(seq_is_sorted(s.drop_first()));
        lemma_sorted_insert_sorted(s.drop_first(), x);
        let t = spec_sorted_insert(s.drop_first(), x);
        let r = seq![s[0]] + t;
        assert(forall|i: int| 0 <= i < t.len() ==> {
            let ms = s.drop_first().to_multiset().insert(x);
            ms.contains(#[trigger] t[i])
        }) by {
            assert(forall|i: int| 0 <= i < t.len() ==> t.to_multiset().contains(#[trigger] t[i]));
        }
        // every element of t is either x or an element of s.drop_first(),
        // both of which are at least s[0]
        assert(forall|i: int| 0 <= i < t.len() ==> s[0] <= #[trigger] t[i]) by {
            assert(forall|i: int| 0 <= i < s.drop_first().len()
                ==> s[0] <= #[trigger] s.drop_first()[i]);
            assert(forall|e: u64| s.drop_first().to_multiset().contains(e)
                ==> s.drop_first().contains(e));
            assert(forall|e: u64| s.drop_first().contains(e) ==> s[0] <= e);
            assert(forall|i: int| 0 <= i < t.len() ==> {
                let e = #[trigger] t[i];
                e == x || s.drop_first().to_multiset().contains(e)
            }) by {
                assert(forall|i: int| 0 <= i < t.len()
                    ==> t.to_multiset().contains(#[trigger] t[i]));
                assert(forall|e: u64| #[trigger] t.to_multiset().contains(e)
                    ==> e == x || s.drop_first().to_multiset().contains(e)) by {
                    assert(t.to_multiset() == s.drop_first().to_multiset().insert(x));
                }
            }
        }
        assert(seq_is_sorted(r)) by {
            assert(forall|i: int, j: int| 0 <= i <= j < r.len() && i >= 1
                ==> r[i] <= r[j]) by {
                assert(forall|i: int| 1 <= i < r.len() ==> r[i] == t[i - 1]);
            }
        }
        assert(r =~= spec_sorted_insert(s, x));
        assert(r.to_multiset() == s.to_multiset().insert(x)) by {
            assert(r.drop_first() =~= t);
            assert(r[0] == s[0]);
            lemma_to_multiset_drop_first(r);
            lemma_to_multiset_drop_first(s);
            assert(t.to_multiset().insert(s[0])
                =~= s.drop_first().to_multiset().insert(x).insert(s[0]));
            assert(s.drop_first().to_multiset().insert(x).insert(s[0])
                =~= s.drop_first().to_multiset().insert(s[0]).insert(x));
        }
    } else {
        let r = seq![x] + s;
        assert(seq_is_sorted(r)) by {
            assert(forall|i: int| 1 <= i < r.len() ==> r[i] == s[i - 1]);
            assert(forall|i: int| 1 <= i < r.len() ==> x <= #[trigger] r[i]) by {
                assert(forall|i: int| 0 <= i < s.len() ==> s[0] <= #[trigger] s[i]);
            }
        }
        assert(r.drop_first() =~= s);
        assert(r[0] == x);
        lemma_to_multiset_drop_first(r);
        assert(r =~= spec_sorted_insert(s, x));
    }
}

/// `spec_sort` returns an ascending permutation of its input.
pub proof fn lemma_spec_sort_sorted(s: Seq<u64>)
    ensures
        seq_is_sorted(spec_sort(s)),
        spec_sort(s).to_multiset() == s.to_multiset(),
        spec_sort(s).len() == s.len(),
    decreases s.len(),
{
    broadcast use vstd::seq_lib::group_to_multiset_ensures;

    if s.len() == 0 {
    } else {
        lemma_spec_sort_sorted(s.drop_first());
        lemma_sorted_insert_sorted(spec_sort(s.drop_first()), s[0]);
        lemma_to_multiset_drop_first(s);
    }
}

/// Insert `x` into the sorted vector `v`, keeping it sorted.
fn sorted_insert(v: &mut Vec<u64>, x: u64)
    ensures
        final(v)@ == spec_sorted_insert(old(v)@, x),
{
    let mut j: usize = 0;
    while j < v.len() && v[j] <= x
        invariant
            j <= v@.len(),
            forall|i: int| 0 <= i < j ==> v@[i] <= x,
        decreases v@.len() - j,
    {
        j += 1;
    }
    proof {
        lemma_sorted_insert_at(v@, x, j as int);
    }
    v.insert(j, x);
}

/// Ascending copy of `v`, built by insertion; the result is exactly
/// `spec_sort(v@)`.
pub fn sorted_copy(v: &Vec<u64>) -> (out: Vec<u64>)
    ensures
        out@ == spec_sort(v@),
{
    let mut out: Vec<u64> = Vec::new();
    let mut i: usize = v.len();
    assert(v@.skip(i as int) =~= Seq::<u64>::empty());
    while i > 0
        invariant
            i <= v@.len(),
            out@ == spec_sort(v@.skip(i as int)),
        decreases i,
    {
        i = i - 1;
        sorted_insert(&mut out, v[i]);
        proof {
            assert(v@.skip(i as int).drop_first() =~= v@.skip(i as int + 1));
            assert(v@.skip(i as int)[0] == v@[i as int]);
        }
    }
    assert(v@.skip(0) =~= v@);
    out
}

/// The sample at percentile `q_percent` (in percent, at most 100) of an
/// ascending vector, at index `round((n - 1) * q / 100)`; 0 when empty.
pub fn quantile_us(sorted_us: &Vec<u64>, q_percent: u64) -> (r: u64)
    requires
        q_percent <= 100,
    ensures
        r == spec_quantile_us(sorted_us@, q_percent as nat),
{
    let n = sorted_us.len();
    if n == 0 {
        return 0;
    }
    let a: u128 = (n - 1) as u128;
    let q: u128 = q_percent as u128;
    proof {
        assert(2 * (a as int) * (q as int) + 100 < 0x1_0000_0000_0000_0000_0000) by (nonlinear_arith)
            requires a < 0x1_0000_0000_0000_0000, q <= 100;
    }
    let num: u128 = 2 * a * q + 100;
    let pos_u128: u128 = num / 200;
    proof {
        let ni = n as int;
        let qi = q_percent as int;
        assert(2 * (ni - 1) * qi + 100 <= 2 * (ni - 1) * 100 + 100) by (nonlinear_arith)
            requires 1 <= ni, 0 <= qi <= 100;
        vstd::arithmetic::div_mod::lemma_div_is_ordered(
            2 * (ni - 1) * qi + 100,
            2 * (ni - 1) * 100 + 100,
            200,
        );
        assert((2 * (ni - 1) * 100 + 100) / 200 == ni - 1);
    }
    let pos: usize = pos_u128 as usize;
    sorted_us[pos]
}

impl RttStats {
    /// Record one round-trip-time sample of `us` microseconds.
    pub fn add_sample(&mut self, us: u64)
        ensures
            final(self)@ == spec_add_sample(old(self)@, us),
    {
        self.count = self.count.saturating_add(1);
        if self.samples.len() < RTT_SAMPLE_CAP {
            self.samples.push(us);
        }
        self.min_us = Some(match self.min_us {
            None => us,
            Some(m) => if us < m { us } else { m },
        });
        self.max_us = Some(match self.max_us {
            None => us,
            Some(m) => if us > m { us } else { m },
        });
    }

    /// Median and 95th percentile of the stored samples, both in
    /// microseconds; `(0, 0)` when no sample is stored.
    pub fn percentiles_us(&self) -> (r: (u64, u64))
        ensures
            r.0 == spec_p50_us(self@),
            r.1 == spec_p95_us(self@),
    {
        proof {
            lemma_spec_sort_sorted(self.samples@);
        }
        if self.samples.len() == 0 {
            assert(spec_sort(self.samples@).len() == 0);
            return (0, 0);
        }
        let v = sorted_copy(&self.samples);
        let p50 = quantile_us(&v, 50);
        let p95 = quantile_us(&v, 95);
        (p50, p95)
    }
}

impl Default for RttStats {
    /// A sampler with no samples recorded yet.
    fn default() -> (r: Self)
        ensures
            r@ == spec_rtt_empty(),
    {
        let r = RttStats { samples: Vec::new(), count: 0, min_us: None, max_us: None };
        assert(r@.samples =~= Seq::<u64>::empty());
        r
    }
}

/// Adding a sample preserves well-formedness of the sampler.
pub proof fn lemma_add_sample_wf(r: RttModel, us: u64)
    requires
        rtt_wf(r),
    ensures
        rtt_wf(spec_add_sample(r, us)),
{
}

} // verus!
