//! The sliding-window minimum: a monotonic queue of candidates.

use vstd::prelude::*;
use super::WINDOW_CAPACITY;
use crate::word::{at_most, is_nan, order_key};

verus! {

/// Where a window pushed with one width since its last clear answers from:
/// the last `width + 1` positions of `count`, or all of them.
pub open spec fn steady_from(count: int, width: int) -> int {
    vstd::math::max(0, count - 1 - width)
}

/// Pushing with the same width keeps a window steady: if it answered for
/// the last `width + 1` of `count` values, then after one more push with that
/// width it answers for the last `width + 1` of `count + 1`.
pub proof fn lemma_steady_width(count: int, width: int)
    requires
        0 <= count,
        0 <= width,
    ensures
        vstd::math::max(steady_from(count, width), count - width) == steady_from(count + 1, width),
{
}

/// What one push does to a window's history and what it answers: the
/// `ensures` of [`MinWindow::push`], as one predicate over the window before
/// and after.
pub open spec fn push_outcome(before: MinWindow, after: MinWindow, value: u32, width: u32, r: u32) -> bool {
    &&& after.pushed() == before.pushed().push(value)
    &&& after.tracked_from() == vstd::math::max(before.tracked_from(), after.pushed().len() - 1 - width)
    &&& r == window_min(after.pushed().subrange(after.tracked_from(), after.pushed().len() as int))
}

/// The minimum over value `i` of `values` and the `width` values before it,
/// or over all of them where fewer came before.
pub open spec fn sliding_min(values: Seq<u32>, i: int, width: int) -> u32 {
    window_min(values.subrange(steady_from(i + 1, width), i + 1))
}

/// A run of pushes with one width, from a new or cleared window: window `k`
/// has had the first `k` values pushed, and answers for the last `width + 1`.
proof fn lemma_window_run_prefix(
    windows: Seq<MinWindow>,
    values: Seq<u32>,
    results: Seq<u32>,
    width: u32,
    k: int,
)
    requires
        windows.len() == values.len() + 1,
        results.len() == values.len(),
        windows[0].pushed() == Seq::<u32>::empty(),
        windows[0].tracked_from() == 0,
        forall|i: int|
            0 <= i < values.len() ==> push_outcome(
                #[trigger] windows[i],
                windows[i + 1],
                values[i],
                width,
                results[i],
            ),
        0 <= k <= values.len(),
    ensures
        windows[k].pushed() == values.take(k),
        windows[k].tracked_from() == steady_from(k, width as int),
    decreases k,
{
    if k == 0 {
        assert(values.take(0) =~= Seq::<u32>::empty());
    } else {
        lemma_window_run_prefix(windows, values, results, width, k - 1);
        assert(push_outcome(windows[k - 1], windows[k], values[k - 1], width, results[k - 1]));
        assert(values.take(k - 1).push(values[k - 1]) =~= values.take(k));
    }
}

/// A window pushed with one width since it was made or last cleared answers,
/// at every push, the minimum over the value just pushed and the `width`
/// values before it (over all of them while fewer were pushed). A cleared
/// window therefore answers exactly as a new one: nothing pushed before the
/// clear is ever returned.
pub proof fn lemma_window_run(
    windows: Seq<MinWindow>,
    values: Seq<u32>,
    results: Seq<u32>,
    width: u32,
)
    requires
        windows.len() == values.len() + 1,
        results.len() == values.len(),
        windows[0].pushed() == Seq::<u32>::empty(),
        windows[0].tracked_from() == 0,
        forall|i: int|
            0 <= i < values.len() ==> push_outcome(
                #[trigger] windows[i],
                windows[i + 1],
                values[i],
                width,
                results[i],
            ),
    ensures
        windows.last().pushed() == values,
        forall|i: int|
            0 <= i < values.len() ==> #[trigger] results[i] == sliding_min(values, i, width as int),
{
    lemma_window_run_prefix(windows, values, results, width, values.len() as int);
    assert(values.take(values.len() as int) =~= values);
    assert forall|i: int| 0 <= i < values.len() implies #[trigger] results[i] == sliding_min(
        values,
        i,
        width as int,
    ) by {
        lemma_window_run_prefix(windows, values, results, width, i + 1);
        assert(push_outcome(windows[i], windows[i + 1], values[i], width, results[i]));
        let low = steady_from(i + 1, width as int);
        assert(values.take(i + 1).subrange(low, i + 1) =~= values.subrange(low, i + 1));
    }
}

/// A window of width zero answers the value just pushed.
pub proof fn lemma_zero_width_is_the_value(s: Seq<u32>)
    requires
        s.len() >= 1,
    ensures
        window_min(s.subrange(s.len() - 1, s.len() as int)) == s.last(),
{
    assert(s.subrange(s.len() - 1, s.len() as int).len() == 1);
}

/// The range of the window's `u32` clock.
pub open spec fn clock_range() -> int {
    0x1_0000_0000
}

/// The smallest of `s`, by the order of the numbers the words encode; of
/// several equal smallest, the latest.
pub open spec fn window_min(s: Seq<u32>) -> u32
    decreases s.len(),
{
    if s.len() <= 1 {
        s[0]
    } else {
        let m = window_min(s.drop_last());
        if order_key(s.last()) <= order_key(m) {
            s.last()
        } else {
            m
        }
    }
}

/// The minimum is one of the values, and no value is smaller.
pub proof fn lemma_window_min_is_smallest(s: Seq<u32>)
    requires
        s.len() >= 1,
    ensures
        exists|i: int| 0 <= i < s.len() && s[i] == window_min(s),
        forall|t: int| 0 <= t < s.len() ==> order_key(window_min(s)) <= order_key(#[trigger] s[t]),
    decreases s.len(),
{
    if s.len() > 1 {
        lemma_window_min_is_smallest(s.drop_last());
        let i = choose|i: int| 0 <= i < s.len() - 1 && s.drop_last()[i] == window_min(s.drop_last());
        if order_key(s.last()) <= order_key(window_min(s.drop_last())) {
            assert(s[s.len() - 1] == window_min(s));
        } else {
            assert(s[i] == window_min(s));
        }
        assert forall|t: int| 0 <= t < s.len() implies order_key(window_min(s)) <= order_key(
            #[trigger] s[t],
        ) by {
            if t < s.len() - 1 {
                assert(s.drop_last()[t] == s[t]);
            }
        }
    } else {
        assert(s[0] == window_min(s));
    }
}

/// A value no earlier value undercuts and every later value exceeds is the
/// minimum.
pub proof fn lemma_window_min_at(s: Seq<u32>, p: int)
    requires
        0 <= p < s.len(),
        forall|t: int| 0 <= t < p ==> order_key(#[trigger] s[t]) >= order_key(s[p]),
        forall|t: int| p < t < s.len() ==> order_key(#[trigger] s[t]) > order_key(s[p]),
    ensures
        window_min(s) == s[p],
    decreases s.len(),
{
    if s.len() > 1 {
        let d = s.drop_last();
        if p == s.len() - 1 {
            lemma_window_min_is_smallest(d);
            let i = choose|i: int| 0 <= i < d.len() && d[i] == window_min(d);
            assert(d[i] == s[i]);
        } else {
            assert forall|t: int| 0 <= t < p implies order_key(#[trigger] d[t]) >= order_key(d[p]) by {
                assert(d[t] == s[t]);
            }
            assert forall|t: int| p < t < d.len() implies order_key(#[trigger] d[t]) > order_key(
                d[p],
            ) by {
                assert(d[t] == s[t]);
            }
            lemma_window_min_at(d, p);
        }
    }
}

/// Masking a window index is reducing it modulo the capacity.
proof fn lemma_window_mask(x: usize)
    ensures
        x & 1023 == x % 1024,
{
    assert(x & 1023 == x % 1024) by (bit_vector);
}

/// The age a wrapped clock reports is the true age, while that is short.
proof fn lemma_wrapped_age(n: int, p: int)
    requires
        0 <= p <= n,
        n - p < clock_range(),
    ensures
        vstd::wrapping::u32_specs::wrapping_sub(
            (n % clock_range()) as u32,
            (p % clock_range()) as u32,
        ) == n - p,
{
    let m = clock_range();
    vstd::arithmetic::div_mod::lemma_fundamental_div_mod(n, m);
    vstd::arithmetic::div_mod::lemma_fundamental_div_mod(p, m);
    let a = n % m;
    let b = p % m;
    let k = n / m - p / m;
    assert(n - p == m * k + (a - b)) by (nonlinear_arith)
        requires
            n == m * (n / m) + a,
            p == m * (p / m) + b,
            k == n / m - p / m,
    ;
    assert(k == 0 || k == 1) by (nonlinear_arith)
        requires
            n - p == m * k + (a - b),
            0 <= n - p < m,
            0 <= a < m,
            0 <= b < m,
            m > 0,
    ;
}

/// The wrapped clock moves on by one.
proof fn lemma_clock_step(n: int)
    requires
        0 <= n,
    ensures
        vstd::wrapping::u32_specs::wrapping_add((n % clock_range()) as u32, 1) == (n + 1)
            % clock_range(),
{
    let m = clock_range();
    vstd::arithmetic::div_mod::lemma_fundamental_div_mod(n, m);
    vstd::arithmetic::div_mod::lemma_fundamental_div_mod(n + 1, m);
    let a = n % m;
    let c = (n + 1) % m;
    assert((c == a + 1) || (a == m - 1 && c == 0)) by (nonlinear_arith)
        requires
            n == m * (n / m) + a,
            n + 1 == m * ((n + 1) / m) + c,
            0 <= a < m,
            0 <= c < m,
            m > 0,
    ;
}

/// The minimum of the last `width + 1` values pushed, in amortised constant
/// time: a monotonic queue of candidates, each stamped with when it arrived.
pub struct MinWindow {
    values: Vec<u32>,
    stamps: Vec<u32>,
    head: usize,
    len: usize,
    clock: u32,
    /// Every value pushed since the last clear.
    history: Ghost<Seq<u32>>,
    /// Where in the history each queued candidate stands, front first.
    positions: Ghost<Seq<int>>,
    /// The earliest history position the queue still answers for.
    low: Ghost<int>,
}

impl MinWindow {
    /// Every value pushed since creation or the last clear, oldest first.
    pub closed spec fn pushed(&self) -> Seq<u32> {
        self.history@
    }

    /// The earliest position of [`Self::pushed`] the window still answers
    /// for. It only moves forward: a window that is widened does not get
    /// back values that a narrower one had already let go.
    pub closed spec fn tracked_from(&self) -> int {
        self.low@
    }

    spec fn slot(&self, j: int) -> int {
        (self.head + j) % (WINDOW_CAPACITY as int)
    }

    spec fn at(&self, j: int) -> u32 {
        self.history@[self.positions@[j]]
    }

    spec fn shape(&self) -> bool {
        &&& self.values@.len() == WINDOW_CAPACITY
        &&& self.stamps@.len() == WINDOW_CAPACITY
        &&& self.head < WINDOW_CAPACITY
        &&& self.len <= WINDOW_CAPACITY
        &&& self.positions@.len() == self.len
    }

    spec fn frame(&self) -> bool {
        &&& self.shape()
        &&& self.len < WINDOW_CAPACITY
    }

    /// Every history position from `low` on is undercut by a candidate at or
    /// after it, or is no smaller than `value`.
    spec fn covered_or(&self, value: u32) -> bool {
        forall|t: int|
            self.low@ <= t < self.history@.len() ==> #[trigger] self.undercut(t) || order_key(
                self.history@[t],
            ) >= order_key(value)
    }

    spec fn stored(&self) -> bool {
        forall|j: int|
            0 <= j < self.len ==> {
                &&& self.values@[#[trigger] self.slot(j)] == self.at(j)
                &&& self.stamps@[self.slot(j)] == (self.positions@[j] % clock_range()) as u32
            }
    }

    spec fn spaced(&self) -> bool {
        &&& forall|j: int|
            0 <= j < self.len ==> self.low@ <= #[trigger] self.positions@[j] < self.history@.len()
        &&& forall|j: int, k: int|
            0 <= j <= k < self.len ==> #[trigger] self.positions@[j] + (k - j)
                <= #[trigger] self.positions@[k]
    }

    spec fn rising(&self) -> bool {
        forall|j: int, k: int|
            0 <= j < k < self.len ==> order_key(#[trigger] self.at(j)) < order_key(
                #[trigger] self.at(k),
            )
    }

    /// History position `t` is undercut by a candidate at or after it.
    spec fn undercut(&self, t: int) -> bool {
        exists|j: int|
            0 <= j < self.len && #[trigger] self.positions@[j] >= t && order_key(self.history@[t])
                >= order_key(self.at(j))
    }

    spec fn covered(&self) -> bool {
        forall|t: int| self.low@ <= t < self.history@.len() ==> #[trigger] self.undercut(t)
    }

    spec fn clean(&self) -> bool {
        forall|t: int| 0 <= t < self.history@.len() ==> !is_nan(#[trigger] self.history@[t])
    }

    /// The queue's representation invariant.
    pub closed spec fn wf(&self) -> bool {
        &&& self.frame()
        &&& self.stored()
        &&& self.spaced()
        &&& self.rising()
        &&& self.covered()
        &&& self.clean()
        &&& self.clock == (self.history@.len() as int) % clock_range()
        &&& 0 <= self.low@ <= self.history@.len()
        &&& self.len == 0 ==> self.low@ == self.history@.len()
        &&& self.len > 0 ==> {
            &&& self.positions@[self.len - 1] == self.history@.len() - 1
            &&& self.history@.len() - 1 - self.positions@[0] <= WINDOW_CAPACITY - 2
        }
    }

    /// Whether candidate `k - 1` is no smaller than `value`.
    fn dominated_at(&self, k: usize, value: u32) -> (r: bool)
        requires
            self.frame(),
            self.stored(),
            0 < k <= self.len,
        ensures
            r == crate::word::spec_at_most(value, self.at(k - 1)),
    {
        let back = (self.head + k - 1) & (WINDOW_CAPACITY - 1);
        proof {
            lemma_window_mask((self.head + k - 1) as usize);
            assert(back == self.slot(k - 1));
        }
        at_most(value, self.values[back])
    }

    /// Drops from the back every candidate no smaller than `value`: none of
    /// them can be the minimum again while `value` is in the window.
    fn drop_dominated(&mut self, value: u32)
        requires
            old(self).wf(),
            !is_nan(value),
        ensures
            final(self).frame(),
            final(self).stored(),
            final(self).spaced(),
            final(self).rising(),
            final(self).clean(),
            final(self).covered_or(value),
            final(self).history@ == old(self).history@,
            final(self).low@ == old(self).low@,
            final(self).clock == old(self).clock,
            final(self).head == old(self).head,
            final(self).len <= old(self).len,
            final(self).positions@ == old(self).positions@.take(final(self).len as int),
            final(self).len > 0 ==> order_key(final(self).at(final(self).len - 1)) < order_key(value),
            final(self).len > 0 ==> final(self).history@.len() - 1 - final(self).positions@[0]
                <= WINDOW_CAPACITY - 2,
    {
        let mut keep = self.len;
        while keep > 0 && self.dominated_at(keep, value)
            invariant
                self.frame(),
                self.stored(),
                keep <= self.len,
                forall|j: int| keep <= j < self.len ==> crate::word::spec_at_most(value, #[trigger] self.at(j)),
            decreases keep,
        {
            keep = keep - 1;
        }
        let ghost before = *self;
        self.len = keep;
        self.positions = Ghost(self.positions@.take(keep as int));
        proof {
            Self::lemma_truncated(before, *self, value);
        }
    }

    /// What truncating the queue keeps of its shape.
    proof fn lemma_truncated(a: MinWindow, b: MinWindow, value: u32)
        requires
            a.frame(),
            a.stored(),
            a.spaced(),
            a.rising(),
            a.clean(),
            a.covered(),
            0 <= a.low@,
            a.len > 0 ==> a.history@.len() - 1 - a.positions@[0] <= WINDOW_CAPACITY - 2,
            !is_nan(value),
            b.len <= a.len,
            b.positions@ == a.positions@.take(b.len as int),
            b.values == a.values,
            b.stamps == a.stamps,
            b.head == a.head,
            b.clock == a.clock,
            b.history == a.history,
            b.low == a.low,
            forall|j: int| b.len <= j < a.len ==> crate::word::spec_at_most(value, #[trigger] a.at(j)),
            b.len > 0 ==> !crate::word::spec_at_most(value, a.at(b.len - 1)),
        ensures
            b.frame(),
            b.stored(),
            b.spaced(),
            b.rising(),
            b.clean(),
            b.covered_or(value),
            b.len > 0 ==> order_key(b.at(b.len - 1)) < order_key(value),
            b.len > 0 ==> b.history@.len() - 1 - b.positions@[0] <= WINDOW_CAPACITY - 2,
    {
        assert forall|j: int| 0 <= j < b.len implies #[trigger] b.at(j) == a.at(j) && b.positions@[j]
            == a.positions@[j] by {}
        assert forall|j: int| 0 <= j < b.len implies {
            &&& b.values@[#[trigger] b.slot(j)] == b.at(j)
            &&& b.stamps@[b.slot(j)] == (b.positions@[j] % clock_range()) as u32
        } by {
            assert(a.slot(j) == b.slot(j));
            assert(b.at(j) == a.at(j));
        }
        Self::lemma_truncated_covered(a, b, value);
        if b.len > 0 {
            let p = a.positions@[b.len - 1];
            assert(0 <= p < a.history@.len());
            assert(!is_nan(a.history@[p]));
        }
    }

    /// Every position a dropped candidate undercut is no smaller than `value`.
    proof fn lemma_truncated_covered(a: MinWindow, b: MinWindow, value: u32)
        requires
            a.covered(),
            a.positions@.len() == a.len,
            b.len <= a.len,
            b.positions@ == a.positions@.take(b.len as int),
            b.history == a.history,
            b.low == a.low,
            forall|j: int| b.len <= j < a.len ==> crate::word::spec_at_most(value, #[trigger] a.at(j)),
        ensures
            b.covered_or(value),
    {
        assert forall|t: int| b.low@ <= t < b.history@.len() implies #[trigger] b.undercut(t)
            || order_key(b.history@[t]) >= order_key(value) by {
            assert(a.undercut(t));
            let j = choose|j: int|
                0 <= j < a.len && #[trigger] a.positions@[j] >= t && order_key(a.history@[t])
                    >= order_key(a.at(j));
            if j < b.len {
                assert(b.positions@[j] == a.positions@[j]);
                assert(b.at(j) == a.at(j));
            } else {
                assert(crate::word::spec_at_most(value, a.at(j)));
            }
        }
    }

    /// Two queue entries that are fewer than a capacity apart use different
    /// slots.
    proof fn lemma_slots_distinct(head: int, j: int, k: int)
        requires
            0 <= head < WINDOW_CAPACITY,
            0 <= j < k < WINDOW_CAPACITY,
        ensures
            (head + j) % (WINDOW_CAPACITY as int) != (head + k) % (WINDOW_CAPACITY as int),
    {
    }

    /// Puts `value` at the back of the queue, stamped with the current clock.
    fn append(&mut self, value: u32)
        requires
            old(self).frame(),
            old(self).stored(),
            old(self).spaced(),
            old(self).rising(),
            old(self).clean(),
            old(self).covered_or(value),
            !is_nan(value),
            0 <= old(self).low@ <= old(self).history@.len(),
            old(self).clock == (old(self).history@.len() as int) % clock_range(),
            old(self).len > 0 ==> order_key(old(self).at(old(self).len - 1)) < order_key(value),
        ensures
            final(self).shape(),
            final(self).stored(),
            final(self).spaced(),
            final(self).rising(),
            final(self).clean(),
            final(self).covered(),
            final(self).history@ == old(self).history@.push(value),
            final(self).positions@ == old(self).positions@.push(old(self).history@.len() as int),
            final(self).len == old(self).len + 1,
            final(self).head == old(self).head,
            final(self).low@ == old(self).low@,
            final(self).clock == old(self).clock,
    {
        let slot = (self.head + self.len) & (WINDOW_CAPACITY - 1);
        proof {
            lemma_window_mask((self.head + self.len) as usize);
        }
        let ghost before = *self;
        self.values.set(slot, value);
        self.stamps.set(slot, self.clock);
        self.len = self.len + 1;
        self.history = Ghost(self.history@.push(value));
        self.positions = Ghost(self.positions@.push(before.history@.len() as int));
        proof {
            Self::lemma_appended(before, *self, value);
        }
    }

    /// What putting `value` at the back keeps of the invariant.
    proof fn lemma_appended(a: MinWindow, b: MinWindow, value: u32)
        requires
            a.frame(),
            a.stored(),
            a.spaced(),
            a.rising(),
            a.clean(),
            a.covered_or(value),
            !is_nan(value),
            0 <= a.low@ <= a.history@.len(),
            a.clock == (a.history@.len() as int) % clock_range(),
            a.len > 0 ==> order_key(a.at(a.len - 1)) < order_key(value),
            b.values@ == a.values@.update(a.slot(a.len as int), value),
            b.stamps@ == a.stamps@.update(a.slot(a.len as int), a.clock),
            b.len == a.len + 1,
            b.head == a.head,
            b.low == a.low,
            b.clock == a.clock,
            b.history@ == a.history@.push(value),
            b.positions@ == a.positions@.push(a.history@.len() as int),
        ensures
            b.shape(),
            b.stored(),
            b.spaced(),
            b.rising(),
            b.clean(),
            b.covered(),
    {
        let n = a.history@.len() as int;
        assert forall|j: int| 0 <= j < a.len implies #[trigger] b.at(j) == a.at(j) && b.positions@[j]
            == a.positions@[j] && b.slot(j) == a.slot(j) by {
            assert(0 <= a.positions@[j] < n);
        }
        assert(b.at(a.len as int) == value);
        assert forall|j: int| 0 <= j < b.len implies {
            &&& b.values@[#[trigger] b.slot(j)] == b.at(j)
            &&& b.stamps@[b.slot(j)] == (b.positions@[j] % clock_range()) as u32
        } by {
            if j < a.len {
                Self::lemma_slots_distinct(a.head as int, j, a.len as int);
            }
        }
        assert forall|j: int, k: int| 0 <= j <= k < b.len implies #[trigger] b.positions@[j] + (k
            - j) <= #[trigger] b.positions@[k] by {
            if k == a.len && j < a.len {
                assert(a.positions@[j] + (a.len - 1 - j) <= a.positions@[a.len - 1]);
            }
        }
        assert forall|j: int, k: int| 0 <= j < k < b.len implies order_key(#[trigger] b.at(j))
            < order_key(#[trigger] b.at(k)) by {
            if k == a.len && j < a.len - 1 {
                assert(order_key(a.at(j)) < order_key(a.at(a.len - 1)));
            }
        }
        assert forall|t: int| 0 <= t < b.history@.len() implies !is_nan(#[trigger] b.history@[t]) by {
            if t < n {
                assert(b.history@[t] == a.history@[t]);
            }
        }
        assert forall|t: int| b.low@ <= t < b.history@.len() implies #[trigger] b.undercut(t) by {
            let last = a.len as int;
            assert(b.positions@[last] == n);
            if t < n {
                assert(b.history@[t] == a.history@[t]);
                if a.undercut(t) {
                    let j = choose|j: int|
                        0 <= j < a.len && #[trigger] a.positions@[j] >= t && order_key(
                            a.history@[t],
                        ) >= order_key(a.at(j));
                    assert(b.positions@[j] >= t);
                } else {
                    assert(b.positions@[last] >= t);
                }
            } else {
                assert(b.history@[t] == value);
                assert(b.positions@[last] >= t);
            }
        }
    }

    /// Whether candidate `k` has been in the window longer than `width`.
    fn expired_at(&self, k: usize, width: u32) -> (r: bool)
        requires
            self.shape(),
            self.stored(),
            self.spaced(),
            0 <= self.low@,
            k < self.len,
            self.history@.len() >= 1,
            self.clock == (self.history@.len() - 1) % clock_range(),
            self.history@.len() - 1 - self.positions@[0] < WINDOW_CAPACITY,
        ensures
            r == (self.history@.len() - 1 - self.positions@[k as int] > width),
    {
        let slot = (self.head + k) & (WINDOW_CAPACITY - 1);
        proof {
            lemma_window_mask((self.head + k) as usize);
            assert(slot == self.slot(k as int));
            assert(self.positions@[0] + k <= self.positions@[k as int]);
            assert(self.positions@[k as int] < self.history@.len());
            lemma_wrapped_age(self.history@.len() - 1, self.positions@[k as int]);
            assert(self.stamps@[slot as int] == (self.positions@[k as int] % clock_range()) as u32);
        }
        self.clock.wrapping_sub(self.stamps[slot]) > width
    }

    /// Lets go of the candidates that have fallen out of a window of
    /// `width + 1` values ending at the newest.
    fn expire(&mut self, width: u32)
        requires
            old(self).shape(),
            old(self).stored(),
            old(self).spaced(),
            old(self).rising(),
            old(self).clean(),
            old(self).covered(),
            old(self).len >= 1,
            0 <= old(self).low@,
            old(self).positions@[old(self).len - 1] == old(self).history@.len() - 1,
            old(self).history@.len() - 1 - old(self).positions@[0] < WINDOW_CAPACITY,
            old(self).clock == (old(self).history@.len() - 1) % clock_range(),
            width + 2 <= WINDOW_CAPACITY,
        ensures
            final(self).frame(),
            final(self).stored(),
            final(self).spaced(),
            final(self).rising(),
            final(self).clean(),
            final(self).covered(),
            final(self).history@ == old(self).history@,
            final(self).clock == (final(self).history@.len() as int) % clock_range(),
            final(self).len >= 1,
            final(self).low@ == vstd::math::max(
                old(self).low@,
                old(self).history@.len() - 1 - width,
            ),
            final(self).positions@[final(self).len - 1] == final(self).history@.len() - 1,
            final(self).history@.len() - 1 - final(self).positions@[0] <= width,
    {
        let ghost n = self.history@.len() as int;
        assert(self.positions@[0] + (self.len - 1) <= self.positions@[self.len - 1]);
        let mut k: usize = 0;
        while k < self.len && self.expired_at(k, width)
            invariant
                self.shape(),
                self.stored(),
                self.spaced(),
                0 <= self.low@,
                self.len >= 1,
                self.history@.len() == n,
                self.clock == (n - 1) % clock_range(),
                n - 1 - self.positions@[0] < WINDOW_CAPACITY,
                self.len < WINDOW_CAPACITY || n - 1 - self.positions@[0] > width,
                self.positions@[self.len - 1] == n - 1,
                k <= self.len,
                forall|j: int| 0 <= j < k ==> n - 1 - #[trigger] self.positions@[j] > width,
            decreases self.len - k,
        {
            k = k + 1;
        }
        let ghost before = *self;
        assert(k < self.len) by {
            if k == self.len {
                assert(n - 1 - self.positions@[self.len - 1] > width);
            }
        }
        self.head = (self.head + k) & (WINDOW_CAPACITY - 1);
        proof {
            lemma_window_mask((before.head + k) as usize);
        }
        self.len = self.len - k;
        self.positions = Ghost(self.positions@.subrange(k as int, before.len as int));
        self.low = Ghost(vstd::math::max(before.low@, n - 1 - width));
        proof {
            lemma_clock_step(n - 1);
        }
        self.clock = self.clock.wrapping_add(1);
        proof {
            Self::lemma_expired(before, *self, k as int, width);
        }
    }

    /// What letting go of the first `k` candidates keeps of the invariant.
    #[verifier::spinoff_prover]
    proof fn lemma_expired(a: MinWindow, b: MinWindow, k: int, width: u32)
        requires
            a.shape(),
            a.stored(),
            a.spaced(),
            a.rising(),
            a.clean(),
            a.covered(),
            0 <= a.low@,
            0 <= k < a.len,
            a.positions@[a.len - 1] == a.history@.len() - 1,
            a.len < WINDOW_CAPACITY || a.history@.len() - 1 - a.positions@[0] > width,
            width + 2 <= WINDOW_CAPACITY,
            forall|j: int| 0 <= j < k ==> a.history@.len() - 1 - #[trigger] a.positions@[j] > width,
            a.history@.len() - 1 - a.positions@[k] <= width,
            b.values == a.values,
            b.stamps == a.stamps,
            b.head == (a.head + k) % (WINDOW_CAPACITY as int),
            b.len == a.len - k,
            b.positions@ == a.positions@.subrange(k, a.len as int),
            b.history == a.history,
            b.low@ == vstd::math::max(a.low@, a.history@.len() - 1 - width),
        ensures
            b.frame(),
            b.stored(),
            b.spaced(),
            b.rising(),
            b.clean(),
            b.covered(),
    {
        let n = a.history@.len() as int;
        assert forall|j: int| 0 <= j < b.len implies #[trigger] b.at(j) == a.at(j + k)
            && b.positions@[j] == a.positions@[j + k] && b.slot(j) == a.slot(j + k) by {}
        assert(b.positions@[0] + (b.len - 1) <= b.positions@[b.len - 1]);
        assert forall|j: int| 0 <= j < b.len implies {
            &&& b.values@[#[trigger] b.slot(j)] == b.at(j)
            &&& b.stamps@[b.slot(j)] == (b.positions@[j] % clock_range()) as u32
        } by {
            assert(b.at(j) == a.at(j + k));
        }
        assert forall|j: int| 0 <= j < b.len implies b.low@ <= #[trigger] b.positions@[j]
            < b.history@.len() by {
            assert(a.positions@[k] + (j + k - k) <= a.positions@[j + k]);
        }
        assert forall|j: int, i: int| 0 <= j <= i < b.len implies #[trigger] b.positions@[j] + (i
            - j) <= #[trigger] b.positions@[i] by {
            assert(a.positions@[j + k] + (i - j) <= a.positions@[i + k]);
        }
        assert forall|j: int, i: int| 0 <= j < i < b.len implies order_key(#[trigger] b.at(j))
            < order_key(#[trigger] b.at(i)) by {
            assert(order_key(a.at(j + k)) < order_key(a.at(i + k)));
        }
        assert forall|t: int| b.low@ <= t < b.history@.len() implies #[trigger] b.undercut(t) by {
            assert(a.undercut(t));
            let j = choose|j: int|
                0 <= j < a.len && #[trigger] a.positions@[j] >= t && order_key(a.history@[t])
                    >= order_key(a.at(j));
            assert(j >= k);
            assert(b.positions@[j - k] == a.positions@[j]);
        }
    }

    /// The front candidate is the latest smallest value the window answers
    /// for.
    proof fn lemma_front_is_minimum(w: MinWindow)
        requires
            w.wf(),
            w.len > 0,
        ensures
            w.at(0) == window_min(w.history@.subrange(w.low@, w.history@.len() as int)),
    {
        let n = w.history@.len() as int;
        let low = w.low@;
        let p = w.positions@[0];
        let s = w.history@.subrange(low, n);
        assert forall|u: int| 0 <= u < p - low implies order_key(#[trigger] s[u]) >= order_key(
            s[p - low],
        ) by {
            let t = u + low;
            assert(s[u] == w.history@[t]);
            assert(w.undercut(t));
            let j = choose|j: int|
                0 <= j < w.len && #[trigger] w.positions@[j] >= t && order_key(w.history@[t])
                    >= order_key(w.at(j));
            if j > 0 {
                assert(order_key(w.at(0)) < order_key(w.at(j)));
            }
        }
        assert forall|u: int| p - low < u < s.len() implies order_key(#[trigger] s[u]) > order_key(
            s[p - low],
        ) by {
            let t = u + low;
            assert(s[u] == w.history@[t]);
            assert(w.undercut(t));
            let j = choose|j: int|
                0 <= j < w.len && #[trigger] w.positions@[j] >= t && order_key(w.history@[t])
                    >= order_key(w.at(j));
            assert(j > 0);
            assert(order_key(w.at(0)) < order_key(w.at(j)));
        }
        lemma_window_min_at(s, p - low);
    }

    /// Pushes `value` and returns the minimum over it and the `width` values
    /// before it, as far back as the window still answers for (see
    /// [`Self::tracked_from`]). The value must be a number, and the window
    /// must leave room for the value being pushed.
    pub fn push(&mut self, value: u32, width: u32) -> (r: u32)
        requires
            old(self).wf(),
            !is_nan(value),
            width + 2 <= WINDOW_CAPACITY,
        ensures
            final(self).wf(),
            final(self).pushed() == old(self).pushed().push(value),
            final(self).tracked_from() == vstd::math::max(
                old(self).tracked_from(),
                final(self).pushed().len() - 1 - width,
            ),
            r == window_min(
                final(self).pushed().subrange(
                    final(self).tracked_from(),
                    final(self).pushed().len() as int,
                ),
            ),
            push_outcome(*old(self), *final(self), value, width, r),
    {
        self.drop_dominated(value);
        self.append(value);
        self.expire(width);
        proof {
            Self::lemma_front_is_minimum(*self);
            assert(self.slot(0) == self.head);
        }
        self.values[self.head]
    }

    /// An empty window.
    pub fn new() -> (w: MinWindow)
        ensures
            w.wf(),
            w.pushed() == Seq::<u32>::empty(),
            w.tracked_from() == 0,
    {
        let mut values: Vec<u32> = Vec::new();
        let mut stamps: Vec<u32> = Vec::new();
        let mut i: usize = 0;
        while i < WINDOW_CAPACITY
            invariant
                i <= WINDOW_CAPACITY,
                values@.len() == i,
                stamps@.len() == i,
            decreases WINDOW_CAPACITY - i,
        {
            values.push(crate::parameters::ONE);
            stamps.push(0);
            i = i + 1;
        }
        MinWindow {
            values,
            stamps,
            head: 0,
            len: 0,
            clock: 0,
            history: Ghost(Seq::empty()),
            positions: Ghost(Seq::empty()),
            low: Ghost(0),
        }
    }

    /// Forgets everything pushed.
    pub fn clear(&mut self)
        requires
            old(self).wf(),
        ensures
            final(self).wf(),
            final(self).pushed() == Seq::<u32>::empty(),
            final(self).tracked_from() == 0,
    {
        self.head = 0;
        self.len = 0;
        self.clock = 0;
        self.history = Ghost(Seq::empty());
        self.positions = Ghost(Seq::empty());
        self.low = Ghost(0);
    }
}

} // verus!
