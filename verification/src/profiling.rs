//! The log of timestamped samples that the server's profiler collects, and
//! the queries on it.

use crate::error::{CrateError, ServerError};
use vstd::prelude::*;

verus! {

/// A sample taken at `time`, a count of nanoseconds since sampling started.
pub struct Sample<T> {
    pub data: T,
    pub time: u64,
}

/// The samples are in order of time.
pub open spec fn sorted_by_time<T>(s: Seq<Sample<T>>) -> bool {
    forall|i: int, j: int| 0 <= i <= j < s.len() ==> #[trigger] s[i].time <= #[trigger] s[j].time
}

/// The samples taken at time `t`, in the order in which they stand.
pub open spec fn taken_at<T>(s: Seq<Sample<T>>, t: u64) -> Seq<Sample<T>> {
    s.filter(|x: Sample<T>| x.time == t)
}

/// `sorted` holds the samples of `s` in order of time, samples taken at the
/// same time in the order in which they stand in `s`.
pub open spec fn stable_sort_of<T>(sorted: Seq<Sample<T>>, s: Seq<Sample<T>>) -> bool {
    &&& sorted_by_time(sorted)
    &&& forall|t: u64| #[trigger] taken_at(sorted, t) == taken_at(s, t)
}

/// The window of time from `from` to `from + window`, both ends included.
pub open spec fn in_window(time: u64, from: u64, window: u64) -> bool {
    from <= time <= from + window
}

/// No sample of `s` is taken at `t`: none is kept.
proof fn lemma_none_taken_at<T>(s: Seq<Sample<T>>, t: u64)
    requires
        forall|k: int| 0 <= k < s.len() ==> #[trigger] s[k].time != t,
    ensures
        taken_at(s, t) == Seq::<Sample<T>>::empty(),
    decreases s.len(),
{
    reveal(Seq::filter);
    if s.len() > 0 {
        lemma_none_taken_at(s.drop_last(), t);
        assert(s[s.len() - 1].time != t);
    }
}

/// Inserting `x` into the sorted `p` after the samples taken no later than
/// it, and before those taken later, gives the stable sort of `p` then `x`.
proof fn lemma_insert_sorted<T>(p: Seq<Sample<T>>, j: int, x: Sample<T>)
    requires
        sorted_by_time(p),
        0 <= j <= p.len(),
        forall|k: int| 0 <= k < j ==> #[trigger] p[k].time <= x.time,
        forall|k: int| j <= k < p.len() ==> #[trigger] p[k].time > x.time,
    ensures
        sorted_by_time(p.insert(j, x)),
        forall|t: u64| #[trigger] taken_at(p.insert(j, x), t) == taken_at(p.push(x), t),
{
    let q = p.insert(j, x);
    assert forall|a: int, b: int| 0 <= a <= b < q.len() implies #[trigger] q[a].time <= #[trigger] q[b].time by {
        if a < j {
            assert(q[a] == p[a]);
            if b < j {
                assert(q[b] == p[b]);
            } else if b > j {
                assert(q[b] == p[b - 1]);
            }
        } else if a == j {
            if b > j {
                assert(q[b] == p[b - 1]);
            }
        } else {
            assert(q[a] == p[a - 1]);
            assert(q[b] == p[b - 1]);
        }
    }
    let front = p.subrange(0, j);
    let back = p.subrange(j, p.len() as int);
    assert(q =~= front.push(x) + back);
    assert(p =~= front + back);
    assert forall|t: u64| #[trigger] taken_at(q, t) == taken_at(p.push(x), t) by {
        let pred = |y: Sample<T>| y.time == t;
        Seq::filter_distributes_over_add(front.push(x), back, pred);
        Seq::filter_distributes_over_add(front, back, pred);
        front.lemma_filter_push(x, pred);
        p.lemma_filter_push(x, pred);
        if x.time == t {
            lemma_none_taken_at(back, t);
            assert(taken_at(back, t) == Seq::<Sample<T>>::empty());
            assert(taken_at(q, t) =~= taken_at(front, t).push(x));
            assert(taken_at(p, t) =~= taken_at(front, t));
        } else {
            assert(taken_at(q, t) =~= taken_at(front, t) + taken_at(back, t));
        }
    }
}

/// A log of samples, kept in order of time.
pub struct SampleLog<T> {
    samples: Vec<Sample<T>>,
}

impl<T> SampleLog<T> {
    /// The samples, in the order in which they stand.
    pub closed spec fn samples(&self) -> Seq<Sample<T>> {
        self.samples@
    }

    #[verifier::type_invariant]
    closed spec fn inv(self) -> bool {
        sorted_by_time(self.samples@)
    }

    /// An empty log.
    pub fn new() -> (log: Self)
        ensures
            log.samples() == Seq::<Sample<T>>::empty(),
    {
        SampleLog { samples: Vec::new() }
    }

    /// The number of samples.
    pub fn len(&self) -> (n: usize)
        ensures
            n == self.samples().len(),
    {
        self.samples.len()
    }

    /// The time of the sample at `i`.
    pub fn time_at(&self, i: usize) -> (t: u64)
        requires
            i < self.samples().len(),
        ensures
            t == self.samples()[i as int].time,
    {
        self.samples[i].time
    }

    /// The sample at `i`.
    pub fn get(&self, i: usize) -> (s: &Sample<T>)
        requires
            i < self.samples().len(),
        ensures
            *s == self.samples()[i as int],
    {
        &self.samples[i]
    }

    /// The time of the first sample, the earliest, if there is one.
    pub fn first_time(&self) -> (t: Option<u64>)
        ensures
            self.samples().len() == 0 ==> t is None,
            self.samples().len() > 0 ==> t == Some(self.samples()[0].time),
    {
        if self.samples.len() == 0 {
            None
        } else {
            Some(self.samples[0].time)
        }
    }

    /// Adds a sample, after every sample taken no later than it: the log
    /// stays in order of time, samples taken at the same time in the order
    /// in which they were added. A sample no earlier than the last one goes
    /// at the end.
    pub fn push(&mut self, data: T, time: u64)
        ensures
            stable_sort_of(final(self).samples(), old(self).samples().push(Sample { data, time })),
            old(self).samples().len() == 0 || old(self).samples().last().time <= time
                ==> final(self).samples() == old(self).samples().push(Sample { data, time }),
    {
        proof {
            use_type_invariant(&*self);
        }
        let at = self.upper_bound(time);
        let ghost p = self.samples@;
        let x = Sample { data, time };
        proof {
            lemma_insert_sorted(p, at as int, x);
            if p.len() == 0 || p.last().time <= time {
                if at < p.len() {
                    assert(p[p.len() - 1].time > time);
                }
                assert(p.insert(at as int, x) =~= p.push(x));
            }
        }
        let mut samples: Vec<Sample<T>> = Vec::new();
        std::mem::swap(&mut samples, &mut self.samples);
        samples.insert(at, x);
        self.samples = samples;
    }

    /// Sorts the samples by time, samples taken at the same time keeping
    /// their order. The log is kept in that order, so nothing moves.
    pub fn sort(&mut self)
        ensures
            final(self).samples() == old(self).samples(),
            stable_sort_of(final(self).samples(), old(self).samples()),
    {
        proof {
            use_type_invariant(&*self);
        }
    }

    /// The number of samples before the first one taken at `t` or later.
    fn lower_bound(&self, t: u64) -> (idx: usize)
        requires
            sorted_by_time(self.samples()),
        ensures
            idx <= self.samples().len(),
            forall|i: int| 0 <= i < idx ==> #[trigger] self.samples()[i].time < t,
            forall|i: int| idx <= i < self.samples().len() ==> #[trigger] self.samples()[i].time >= t,
    {
        let mut lo: usize = 0;
        let mut hi: usize = self.samples.len();
        while lo < hi
            invariant
                0 <= lo <= hi <= self.samples@.len(),
                sorted_by_time(self.samples@),
                forall|i: int| 0 <= i < lo ==> #[trigger] self.samples@[i].time < t,
                forall|i: int| hi <= i < self.samples@.len() ==> #[trigger] self.samples@[i].time >= t,
            decreases hi - lo,
        {
            let mid = lo + (hi - lo) / 2;
            if self.samples[mid].time < t {
                proof {
                    assert forall|i: int| 0 <= i < mid + 1 implies #[trigger] self.samples@[i].time < t by {
                        assert(self.samples@[i].time <= self.samples@[mid as int].time);
                    }
                }
                lo = mid + 1;
            } else {
                proof {
                    assert forall|i: int| mid <= i < self.samples@.len() implies #[trigger] self.samples@[i].time >= t by {
                        assert(self.samples@[mid as int].time <= self.samples@[i].time);
                    }
                }
                hi = mid;
            }
        }
        lo
    }

    /// The number of samples before the first one taken after `t`.
    fn upper_bound(&self, t: u64) -> (idx: usize)
        requires
            sorted_by_time(self.samples()),
        ensures
            idx <= self.samples().len(),
            forall|i: int| 0 <= i < idx ==> #[trigger] self.samples()[i].time <= t,
            forall|i: int| idx <= i < self.samples().len() ==> #[trigger] self.samples()[i].time > t,
    {
        let mut lo: usize = 0;
        let mut hi: usize = self.samples.len();
        while lo < hi
            invariant
                0 <= lo <= hi <= self.samples@.len(),
                sorted_by_time(self.samples@),
                forall|i: int| 0 <= i < lo ==> #[trigger] self.samples@[i].time <= t,
                forall|i: int| hi <= i < self.samples@.len() ==> #[trigger] self.samples@[i].time > t,
            decreases hi - lo,
        {
            let mid = lo + (hi - lo) / 2;
            if self.samples[mid].time <= t {
                proof {
                    assert forall|i: int| 0 <= i < mid + 1 implies #[trigger] self.samples@[i].time <= t by {
                        assert(self.samples@[i].time <= self.samples@[mid as int].time);
                    }
                }
                lo = mid + 1;
            } else {
                proof {
                    assert forall|i: int| mid <= i < self.samples@.len() implies #[trigger] self.samples@[i].time > t by {
                        assert(self.samples@[mid as int].time <= self.samples@[i].time);
                    }
                }
                hi = mid;
            }
        }
        lo
    }

    /// The positions of the first and the last sample taken within `window`
    /// nanoseconds from `from`, both ends included. A window of length zero
    /// is refused, and so is a window that holds no sample.
    pub fn window_bounds(&self, from: u64, window: u64) -> (r: Result<(usize, usize), ServerError>)
        requires
            from + window <= u64::MAX,
            window == 0 || (self.samples().len() > 0 && self.samples()[0].time <= from + window),
        ensures
            match r {
                Ok((first, last)) => {
                    &&& window > 0
                    &&& first <= last < self.samples().len()
                    &&& forall|i: int|
                        0 <= i < self.samples().len() ==> (first <= i <= last <==> in_window(
                            #[trigger] self.samples()[i].time,
                            from,
                            window,
                        ))
                },
                Err(ServerError::CrateError(CrateError::EmptyWindow)) => window == 0,
                Err(ServerError::CrateError(CrateError::NoElements)) => {
                    &&& window > 0
                    &&& forall|i: int|
                        0 <= i < self.samples().len() ==> !in_window(
                            #[trigger] self.samples()[i].time,
                            from,
                            window,
                        )
                },
                Err(_) => false,
            },
    {
        proof {
            use_type_invariant(self);
        }
        let to = from + window;
        if window == 0 {
            return Err(ServerError::CrateError(CrateError::EmptyWindow));
        }
        let first = self.lower_bound(from);
        let after = self.upper_bound(to);
        if after == 0 {
            assert(self.samples()[0].time > to);
        }
        let last = after - 1;
        if last < first {
            return Err(ServerError::CrateError(CrateError::NoElements));
        }
        Ok((first, last))
    }
}

} // verus!

verus! {

/// In a sequence in order of time, the last sample is taken no earlier than any other.
proof fn lemma_last_is_latest<T>(s: Seq<Sample<T>>, k: int)
    requires
        sorted_by_time(s),
        0 <= k < s.len(),
    ensures
        s[k].time <= s.last().time,
{
}

/// Some sample of `s` is taken at `t` exactly where some is kept by `taken_at`.
proof fn lemma_taken_at_nonempty<T>(s: Seq<Sample<T>>, k: int)
    requires
        0 <= k < s.len(),
    ensures
        taken_at(s, s[k].time).len() > 0,
    decreases s.len(),
{
    reveal(Seq::filter);
    let t = s[k].time;
    if k < s.len() - 1 {
        lemma_taken_at_nonempty(s.drop_last(), k);
        assert(s.drop_last()[k] == s[k]);
    }
}

/// Any sample kept by `taken_at(s, t)` is a sample of `s` taken at `t`.
proof fn lemma_taken_at_member<T>(s: Seq<Sample<T>>, t: u64, k: int)
    requires
        0 <= k < taken_at(s, t).len(),
    ensures
        exists|j: int| 0 <= j < s.len() && s[j] == taken_at(s, t)[k] && #[trigger] s[j].time == t,
    decreases s.len(),
{
    reveal(Seq::filter);
    let f = taken_at(s, t);
    let g = taken_at(s.drop_last(), t);
    if s.last().time == t && k == f.len() - 1 {
        assert(f == g.push(s.last()));
        assert(s[s.len() - 1].time == t);
    } else {
        if s.last().time == t {
            assert(f == g.push(s.last()));
        } else {
            assert(f == g);
        }
        assert(f[k] == g[k]);
        lemma_taken_at_member(s.drop_last(), t, k);
        let j = choose|j: int| 0 <= j < s.drop_last().len() && s.drop_last()[j] == g[k] && #[trigger] s.drop_last()[j].time == t;
        assert(s[j] == s.drop_last()[j]);
    }
}

/// There is only one stable sort of a sequence: two sequences in order of
/// time that hold, for every time, the same samples in the same order are
/// the same sequence.
pub proof fn law_stable_sort_unique<T>(a: Seq<Sample<T>>, b: Seq<Sample<T>>)
    requires
        sorted_by_time(a),
        sorted_by_time(b),
        forall|t: u64| #[trigger] taken_at(a, t) == taken_at(b, t),
    ensures
        a == b,
    decreases a.len() + b.len(),
{
    if a.len() == 0 && b.len() == 0 {
        assert(a =~= b);
    } else if a.len() == 0 {
        lemma_taken_at_nonempty(b, 0);
        reveal(Seq::filter);
        assert(taken_at(a, b[0].time) == a);
        assert(false);
    } else if b.len() == 0 {
        lemma_taken_at_nonempty(a, 0);
        reveal(Seq::filter);
        assert(taken_at(b, a[0].time) == b);
        assert(false);
    } else {
        let x = a.last();
        let y = b.last();
        let ta = x.time;
        let tb = y.time;
        lemma_taken_at_nonempty(a, a.len() - 1);
        lemma_taken_at_nonempty(b, b.len() - 1);
        // the latest time of each is found in the other
        lemma_taken_at_member(b, ta, 0);
        lemma_taken_at_member(a, tb, 0);
        let jb = choose|j: int| 0 <= j < b.len() && b[j] == taken_at(b, ta)[0] && #[trigger] b[j].time == ta;
        let ja = choose|j: int| 0 <= j < a.len() && a[j] == taken_at(a, tb)[0] && #[trigger] a[j].time == tb;
        lemma_last_is_latest(b, jb);
        lemma_last_is_latest(a, ja);
        assert(ta == tb);
        let pa = a.drop_last();
        let pb = b.drop_last();
        assert(a =~= pa.push(x));
        assert(b =~= pb.push(y));
        assert forall|t: u64| #[trigger] taken_at(pa, t) == taken_at(pb, t) by {
            let pred = |z: Sample<T>| z.time == t;
            pa.lemma_filter_push(x, pred);
            pb.lemma_filter_push(y, pred);
            assert(taken_at(a, t) == taken_at(b, t));
            if t == ta {
                assert(taken_at(pa, t).push(x) == taken_at(pb, t).push(y));
                assert(taken_at(pa, t) =~= taken_at(pa, t).push(x).drop_last());
                assert(taken_at(pb, t) =~= taken_at(pb, t).push(y).drop_last());
            }
        }
        assert(x == y) by {
            let pred = |z: Sample<T>| z.time == ta;
            pa.lemma_filter_push(x, pred);
            pb.lemma_filter_push(y, pred);
            assert(taken_at(pa, ta).push(x) == taken_at(pb, ta).push(y));
            assert(taken_at(pa, ta).push(x).last() == x);
        }
        assert(sorted_by_time(pa)) by {
            assert forall|i: int, j: int| 0 <= i <= j < pa.len() implies #[trigger] pa[i].time <= #[trigger] pa[j].time by {
                assert(pa[i] == a[i] && pa[j] == a[j]);
            }
        }
        assert(sorted_by_time(pb)) by {
            assert forall|i: int, j: int| 0 <= i <= j < pb.len() implies #[trigger] pb[i].time <= #[trigger] pb[j].time by {
                assert(pb[i] == b[i] && pb[j] == b[j]);
            }
        }
        law_stable_sort_unique(pa, pb);
    }
}

/// Sorting a log that is already in order of time leaves it as it is, and
/// sorting twice gives what sorting once gives.
pub proof fn law_sort_of_sorted_unchanged<T>(sorted: Seq<Sample<T>>, s: Seq<Sample<T>>)
    requires
        sorted_by_time(s),
        stable_sort_of(sorted, s),
    ensures
        sorted == s,
{
    law_stable_sort_unique(sorted, s);
}

} // verus!
