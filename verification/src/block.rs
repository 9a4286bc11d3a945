use vstd::prelude::*;
use crate::traits::Arithmetic;

verus! {

/// Left fold of the first `k` products of `ts` and `xs`, in the order the
/// filters accumulate them.
pub open spec fn dot_prefix<T: Arithmetic>(ts: Seq<T>, xs: Seq<T>, k: int) -> T
    decreases k,
{
    if k <= 0 {
        T::zero_spec()
    } else {
        T::add_spec(dot_prefix(ts, xs, k - 1), T::mul_spec(ts[k - 1], xs[k - 1]))
    }
}

/// The dot product of the coefficients `ts` with the window `xs`: the value
/// one filter output takes.
pub open spec fn dot<T: Arithmetic>(ts: Seq<T>, xs: Seq<T>) -> T {
    dot_prefix(ts, xs, ts.len() as int)
}

/// A filter's sample window after one more input: the new sample in front,
/// the oldest one dropped off the back.
pub open spec fn win_after<T>(w: Seq<T>, x: T) -> Seq<T> {
    seq![x] + w.take(w.len() - 1)
}

/// The window after a whole input slice.
pub open spec fn win_after_all<T>(w: Seq<T>, input: Seq<T>) -> Seq<T>
    decreases input.len(),
{
    if input.len() == 0 {
        w
    } else {
        win_after_all(win_after(w, input[0]), input.skip(1))
    }
}

/// Every output of a finite-impulse-response filter with coefficients `ts`
/// and starting window `w` over `input`: for each sample, the dot product of
/// the coefficients with the window holding that sample in front.
pub open spec fn fir_outputs<T: Arithmetic>(ts: Seq<T>, w: Seq<T>, input: Seq<T>) -> Seq<T>
    decreases input.len(),
{
    if input.len() == 0 {
        Seq::<T>::empty()
    } else {
        let w1 = win_after(w, input[0]);
        seq![dot(ts, w1)] + fir_outputs(ts, w1, input.skip(1))
    }
}

/// Unrolling `win_after_all` and `fir_outputs` from the back: one more input
/// sample shifts the final window once and appends one output.
pub proof fn lemma_fir_snoc<T: Arithmetic>(ts: Seq<T>, w: Seq<T>, s: Seq<T>, x: T)
    ensures
        win_after_all(w, s.push(x)) == win_after(win_after_all(w, s), x),
        fir_outputs(ts, w, s.push(x)) == fir_outputs(ts, w, s).push(
            dot(ts, win_after(win_after_all(w, s), x)),
        ),
    decreases s.len(),
{
    let t = s.push(x);
    if s.len() == 0 {
        assert(t.len() == 1);
        assert(t[0] == x);
        assert(t.skip(1) =~= Seq::<T>::empty());
        assert(win_after_all(w, s) == w);
        assert(fir_outputs(ts, w, s) == Seq::<T>::empty());
        let w1 = win_after(w, x);
        assert(win_after_all(w1, t.skip(1)) == w1);
        assert(win_after_all(w, t) == w1);
        assert(fir_outputs(ts, w1, t.skip(1)) == Seq::<T>::empty());
        assert(fir_outputs(ts, w, t) =~= Seq::<T>::empty().push(dot(ts, w1)));
        assert(fir_outputs(ts, w, s).push(dot(ts, win_after(win_after_all(w, s), x))) =~= seq![
            dot(ts, w1),
        ]);
        assert(fir_outputs(ts, w, t) =~= fir_outputs(ts, w, s).push(
            dot(ts, win_after(win_after_all(w, s), x)),
        ));
    } else {
        let w1 = win_after(w, s[0]);
        assert(t[0] == s[0]);
        assert(t.skip(1) =~= s.skip(1).push(x));
        lemma_fir_snoc(ts, w1, s.skip(1), x);
        assert(win_after_all(w, t) == win_after_all(w1, t.skip(1)));
        assert(win_after_all(w, s) == win_after_all(w1, s.skip(1)));
        assert(fir_outputs(ts, w, t) == seq![dot(ts, w1)] + fir_outputs(ts, w1, t.skip(1)));
        assert(fir_outputs(ts, w, s) == seq![dot(ts, w1)] + fir_outputs(ts, w1, s.skip(1)));
        assert(fir_outputs(ts, w, t) =~= fir_outputs(ts, w, s).push(
            dot(ts, win_after(win_after_all(w, s), x)),
        ));
    }
}

/// The number of outputs equals the number of inputs.
pub proof fn lemma_fir_outputs_len<T: Arithmetic>(ts: Seq<T>, w: Seq<T>, input: Seq<T>)
    requires
        w.len() >= 1,
    ensures
        fir_outputs(ts, w, input).len() == input.len(),
        win_after_all(w, input).len() == w.len(),
    decreases input.len(),
{
    if input.len() > 0 {
        assert(win_after(w, input[0]).len() == w.len());
        lemma_fir_outputs_len(ts, win_after(w, input[0]), input.skip(1));
    }
}

/// Index of the history cell holding the sample `k` steps behind the one
/// written at `i`, in a circular history of `len` cells.
pub open spec fn back_index(i: int, k: int, len: int) -> int {
    if i - k >= 0 {
        i - k
    } else {
        i - k + len
    }
}

/// A streaming finite-impulse-response filter: a fixed coefficient array and
/// a circular history of the same length, initially zero.  Each input sample
/// enters the history and produces the dot product of the coefficients with
/// the most recent samples, newest first — canonical convolution order.
pub struct FIRFilter<T: Arithmetic> {
    taps: Vec<T>,
    history: Vec<T>,
    index: usize,
}

impl<T: Arithmetic> FIRFilter<T> {
    /// The coefficient array.
    pub closed spec fn coeffs(&self) -> Seq<T> {
        self.taps@
    }

    /// Structural invariant: at least one coefficient, a history of matching
    /// length, and the write index inside it.
    pub closed spec fn wf(&self) -> bool {
        &&& self.taps@.len() >= 1
        &&& self.history@.len() == self.taps@.len()
        &&& self.index < self.taps@.len()
    }

    /// The last `K` samples, newest first, zero-padded at the start of a
    /// stream: `window()[k]` is the sample `k` steps back.
    pub closed spec fn window(&self) -> Seq<T> {
        Seq::new(
            self.taps@.len(),
            |k: int|
                self.history@[back_index(self.index as int - 1, k, self.taps@.len() as int)],
        )
    }

    /// A fresh filter over the given coefficients, its history all zero.
    pub fn new(taps: Vec<T>) -> (r: Self)
        requires
            taps@.len() >= 1,
        ensures
            r.wf(),
            r.coeffs() == taps@,
            r.window() == Seq::new(taps@.len(), |k: int| T::zero_spec()),
    {
        let len = taps.len();
        let mut history: Vec<T> = Vec::new();
        let mut i: usize = 0;
        while i < len
            invariant
                i <= len,
                history@.len() == i,
                forall|j: int| 0 <= j < i ==> history@[j] == T::zero_spec(),
            decreases len - i,
        {
            history.push(T::zero());
            i += 1;
        }
        let r = FIRFilter { taps, history, index: 0 };
        proof {
            assert(r.window() =~= Seq::new(r.taps@.len(), |k: int| T::zero_spec()));
        }
        r
    }

    /// The coefficient array, as given to `new`.
    pub fn taps(&self) -> (r: &Vec<T>)
        ensures
            r@ == self.coeffs(),
    {
        &self.taps
    }

    /// Runs the filter over `input`, replacing `output` with one output per
    /// input sample: the dot product of the coefficients with the window
    /// that holds the sample in front, in canonical convolution order.
    pub fn filter(&mut self, input: &[T], output: &mut Vec<T>)
        requires
            old(self).wf(),
        ensures
            final(self).wf(),
            final(self).coeffs() == old(self).coeffs(),
            final(self).window() == win_after_all(old(self).window(), input@),
            final(output)@ == fir_outputs(old(self).coeffs(), old(self).window(), input@),
            final(output)@.len() == input@.len(),
    {
        output.clear();
        let len = self.taps.len();
        let mut j: usize = 0;
        proof {
            assert(input@.take(0) =~= Seq::<T>::empty());
        }
        while j < input.len()
            invariant
                old(self).wf(),
                self.wf(),
                self.coeffs() == old(self).coeffs(),
                j <= input@.len(),
                len == self.taps@.len(),
                self.window() == win_after_all(old(self).window(), input@.take(j as int)),
                output@ == fir_outputs(
                    old(self).coeffs(),
                    old(self).window(),
                    input@.take(j as int),
                ),
                output@.len() == j,
            decreases input@.len() - j,
        {
            let ghost w_before = self.window();
            let ghost h0 = self.history@;
            let x = *vstd::slice::slice_index_get(input, j);
            let idx = self.index;
            self.history[idx] = x;
            let ghost w1 = win_after(w_before, x);
            proof {
                assert(self.history@ =~= h0.update(idx as int, x));
                assert forall|m: int| 0 <= m < len implies self.history@[back_index(
                    idx as int,
                    m,
                    len as int,
                )] == w1[m] by {
                    if m == 0 {
                        assert(w1[0] == x);
                        assert(back_index(idx as int, 0, len as int) == idx as int);
                    } else {
                        assert(w1[m] == w_before[m - 1]);
                        assert(w_before[m - 1] == h0[back_index(
                            idx as int - 1,
                            m - 1,
                            len as int,
                        )]);
                        assert(back_index(idx as int - 1, m - 1, len as int) == back_index(
                            idx as int,
                            m,
                            len as int,
                        ));
                        assert(back_index(idx as int, m, len as int) != idx as int);
                    }
                }
            }
            let mut acc = T::zero();
            let mut k: usize = 0;
            while k < len
                invariant
                    self.wf(),
                    len == self.taps@.len(),
                    k <= len,
                    idx == self.index,
                    self.history@[idx as int] == x,
                    w1 == win_after(w_before, x),
                    w1.len() == len,
                    forall|m: int|
                        0 <= m < len ==> self.history@[back_index(idx as int, m, len as int)]
                            == w1[m],
                    acc == dot_prefix(self.coeffs(), w1, k as int),
                decreases len - k,
            {
                let slot = if idx >= k {
                    idx - k
                } else {
                    idx + (len - k)
                };
                let tap = self.taps[k];
                let h = self.history[slot];
                acc = T::add(acc, T::mul(tap, h));
                k += 1;
            }
            output.push(acc);
            self.index = if idx + 1 == len {
                0
            } else {
                idx + 1
            };
            proof {
                assert(self.window() =~= w1);
                assert(input@.take(j + 1) =~= input@.take(j as int).push(x));
                lemma_fir_snoc(
                    old(self).coeffs(),
                    old(self).window(),
                    input@.take(j as int),
                    x,
                );
            }
            j += 1;
        }
        proof {
            assert(input@.take(input@.len() as int) =~= input@);
            lemma_fir_outputs_len(old(self).coeffs(), old(self).window(), input@);
        }
    }
}

/// The convolution sum in exact integer arithmetic: `Σ ts[k] · xs[k]`.
pub open spec fn dot_int(ts: Seq<int>, xs: Seq<int>) -> int
    decreases ts.len(),
{
    if ts.len() == 0 {
        0
    } else {
        ts[0] * xs[0] + dot_int(ts.skip(1), xs.skip(1))
    }
}

/// The signal `α·a + b`, pointwise.
pub open spec fn scale_add(alpha: int, a: Seq<int>, b: Seq<int>) -> Seq<int> {
    Seq::new(a.len(), |i: int| alpha * a[i] + b[i])
}

/// Linearity of the convolution sum: filtering `α·a + b` gives `α` times
/// the filtered `a` plus the filtered `b`, exactly, in ideal integer
/// arithmetic — the exact-arithmetic form of a filter's linearity.
pub proof fn lemma_dot_linear(ts: Seq<int>, alpha: int, a: Seq<int>, b: Seq<int>)
    requires
        a.len() == ts.len(),
        b.len() == ts.len(),
    ensures
        dot_int(ts, scale_add(alpha, a, b)) == alpha * dot_int(ts, a) + dot_int(ts, b),
    decreases ts.len(),
{
    if ts.len() == 0 {
        assert(alpha * 0 + 0 == 0) by (nonlinear_arith);
    } else {
        assert(scale_add(alpha, a, b).skip(1) =~= scale_add(alpha, a.skip(1), b.skip(1)));
        lemma_dot_linear(ts.skip(1), alpha, a.skip(1), b.skip(1));
        let t0 = ts[0];
        let ra = dot_int(ts.skip(1), a.skip(1));
        let rb = dot_int(ts.skip(1), b.skip(1));
        assert(t0 * (alpha * a[0] + b[0]) + (alpha * ra + rb) == alpha * (t0 * a[0] + ra) + (t0
            * b[0] + rb)) by (nonlinear_arith);
    }
}

/// The resampler's output count stays within one of the ideal ratio: from
/// the exact relation `down·count == up·n + p₁ − p₀` with both accumulator
/// values below `down`, the count for `n` inputs is `⌊up·n/down⌋` or one
/// more.
pub proof fn lemma_resampler_rate(up: int, down: int, n: int, p0: int, p1: int, count: int)
    requires
        up >= 1,
        down >= 1,
        n >= 0,
        0 <= p0 < down,
        0 <= p1 < down,
        down * count == up * n + p1 - p0,
    ensures
        (up * n) / down <= count <= (up * n) / down + 1,
{
    let q = (up * n) / down;
    let r = (up * n) % down;
    vstd::arithmetic::div_mod::lemma_fundamental_div_mod(up * n, down);
    vstd::arithmetic::div_mod::lemma_mod_bound(up * n, down);
    assert(q <= count <= q + 1) by (nonlinear_arith)
        requires
            down >= 1,
            up * n == down * q + r,
            0 <= r < down,
            0 <= p0 < down,
            0 <= p1 < down,
            down * count == up * n + p1 - p0,
    ;
}

/// Greatest common divisor by Euclid's rule.
pub open spec fn spec_gcd(a: int, b: int) -> int
    decreases b,
    when a >= 0 && b >= 0
{
    if b <= 0 {
        a
    } else {
        spec_gcd(b, a % b)
    }
}

/// The divisor lies between one and either argument.
pub proof fn lemma_gcd_bounds(a: int, b: int)
    requires
        a >= 1,
        b >= 0,
    ensures
        1 <= spec_gcd(a, b),
        spec_gcd(a, b) <= a,
        b >= 1 ==> spec_gcd(a, b) <= b,
    decreases b,
{
    if b >= 1 {
        let r = a % b;
        vstd::arithmetic::div_mod::lemma_mod_bound(a, b);
        assert(spec_gcd(a, b) == spec_gcd(b, r));
        if r == 0 {
            assert(spec_gcd(b, 0) == b);
            assert(b <= a) by (nonlinear_arith)
                requires
                    a >= 1,
                    b >= 1,
                    a % b == 0,
            ;
        } else {
            lemma_gcd_bounds(b, r);
            assert(r <= a) by (nonlinear_arith)
                requires
                    a >= 1,
                    b >= 1,
                    r == a % b,
            ;
        }
    }
}

/// Greatest common divisor of two positive numbers, by Euclid's algorithm.
pub fn gcd_u32(a: u32, b: u32) -> (g: u32)
    requires
        a >= 1,
        b >= 1,
    ensures
        g == spec_gcd(a as int, b as int),
        1 <= g,
        g <= a,
        g <= b,
{
    let mut x = a;
    let mut y = b;
    while y != 0
        invariant
            x >= 1,
            spec_gcd(x as int, y as int) == spec_gcd(a as int, b as int),
        decreases y,
    {
        let t = x % y;
        x = y;
        y = t;
    }
    proof {
        lemma_gcd_bounds(a as int, b as int);
    }
    x
}

/// The polyphase decomposition of a coefficient array: sub-filter `u` takes
/// every `up`-th coefficient starting at `u`, and all sub-filters are
/// zero-padded to the common length `⌈N/up⌉`.
pub open spec fn polyphase_decomp<T: Arithmetic>(taps: Seq<T>, up: int) -> Seq<Seq<T>> {
    let l = (taps.len() + up - 1) / up;
    Seq::new(
        up as nat,
        |u: int|
            Seq::new(
                l as nat,
                |m: int|
                    if m * up + u < taps.len() {
                        taps[m * up + u]
                    } else {
                        T::zero_spec()
                    },
            ),
    )
}

/// The outputs a resampler emits for one input sample once the window is
/// `w`: one dot product per sub-filter visited while the accumulator stays
/// below the sub-filter count, stepping by `down`.
pub open spec fn emits_for<T: Arithmetic>(phases: Seq<Seq<T>>, down: int, w: Seq<T>, p: int) -> Seq<
    T,
>
    decreases (if p < phases.len() { phases.len() - p } else { 0 }),
    when down >= 1 && p >= 0
{
    if p >= phases.len() {
        Seq::<T>::empty()
    } else {
        seq![dot(phases[p], w)] + emits_for(phases, down, w, p + down)
    }
}

/// The accumulator after one input sample that entered with accumulator `p`:
/// step by `down` until at least `up`, then subtract `up`.
pub open spec fn next_phase(up: int, down: int, p: int) -> int
    decreases (if p < up { up - p } else { 0 }),
    when down >= 1 && p >= 0
{
    if p >= up {
        p - up
    } else {
        next_phase(up, down, p + down)
    }
}

/// The accumulator stays non-negative from one sample to the next.
pub proof fn lemma_next_phase_nonneg(up: int, down: int, p: int)
    requires
        down >= 1,
        p >= 0,
    ensures
        next_phase(up, down, p) >= 0,
    decreases (if p < up { up - p } else { 0 }),
{
    if p < up {
        lemma_next_phase_nonneg(up, down, p + down);
    }
}

/// The accumulator after a whole input slice.
pub open spec fn phase_after_all<T>(up: int, down: int, p: int, input: Seq<T>) -> int
    decreases input.len(),
{
    if input.len() == 0 {
        p
    } else {
        phase_after_all(up, down, next_phase(up, down, p), input.skip(1))
    }
}

/// Every output of a rational resampler with sub-filters `phases` over
/// `input`: per input sample, the window shifts once and the emissions of
/// `emits_for` follow, while the accumulator advances by `next_phase`.
pub open spec fn resamp_outputs<T: Arithmetic>(
    phases: Seq<Seq<T>>,
    down: int,
    w: Seq<T>,
    p: int,
    input: Seq<T>,
) -> Seq<T>
    decreases input.len(),
{
    if input.len() == 0 {
        Seq::<T>::empty()
    } else {
        let w1 = win_after(w, input[0]);
        emits_for(phases, down, w1, p) + resamp_outputs(
            phases,
            down,
            w1,
            next_phase(phases.len() as int, down, p),
            input.skip(1),
        )
    }
}

/// Unrolling the resampler's recursion from the back, for the filter loop.
pub proof fn lemma_resamp_snoc<T: Arithmetic>(
    phases: Seq<Seq<T>>,
    down: int,
    w: Seq<T>,
    p: int,
    s: Seq<T>,
    x: T,
)
    requires
        down >= 1,
        p >= 0,
    ensures
        ({
            let w_s = win_after_all(w, s);
            let p_s = phase_after_all(phases.len() as int, down, p, s);
            resamp_outputs(phases, down, w, p, s.push(x)) == resamp_outputs(phases, down, w, p, s)
                + emits_for(phases, down, win_after(w_s, x), p_s)
        }),
        phase_after_all(phases.len() as int, down, p, s.push(x)) == next_phase(
            phases.len() as int,
            down,
            phase_after_all(phases.len() as int, down, p, s),
        ),
        win_after_all(w, s.push(x)) == win_after(win_after_all(w, s), x),
    decreases s.len(),
{
    let up = phases.len() as int;
    let t = s.push(x);
    if s.len() == 0 {
        assert(t[0] == x);
        assert(t.skip(1) =~= Seq::<T>::empty());
        let w1 = win_after(w, x);
        let p1 = next_phase(up, down, p);
        assert(win_after_all(w, s) == w);
        assert(phase_after_all(up, down, p, s) == p);
        assert(resamp_outputs(phases, down, w, p, s) == Seq::<T>::empty());
        assert(resamp_outputs(phases, down, w1, p1, t.skip(1)) == Seq::<T>::empty());
        assert(win_after_all(w1, t.skip(1)) == w1);
        assert(win_after_all(w, t) == w1);
        assert(phase_after_all(up, down, p1, t.skip(1)) == p1);
        assert(phase_after_all(up, down, p, t) == p1);
        assert(resamp_outputs(phases, down, w, p, t) =~= resamp_outputs(phases, down, w, p, s)
            + emits_for(phases, down, w1, p));
    } else {
        let w1 = win_after(w, s[0]);
        let p1 = next_phase(up, down, p);
        assert(t[0] == s[0]);
        assert(t.skip(1) =~= s.skip(1).push(x));
        lemma_next_phase_nonneg(up, down, p);
        lemma_resamp_snoc(phases, down, w1, p1, s.skip(1), x);
        assert(win_after_all(w, t) == win_after_all(w1, t.skip(1)));
        assert(win_after_all(w, s) == win_after_all(w1, s.skip(1)));
        assert(phase_after_all(up, down, p, t) == phase_after_all(up, down, p1, t.skip(1)));
        assert(phase_after_all(up, down, p, s) == phase_after_all(up, down, p1, s.skip(1)));
        assert(resamp_outputs(phases, down, w, p, t) == emits_for(phases, down, w1, p)
            + resamp_outputs(phases, down, w1, p1, t.skip(1)));
        assert(resamp_outputs(phases, down, w, p, s) == emits_for(phases, down, w1, p)
            + resamp_outputs(phases, down, w1, p1, s.skip(1)));
        assert(resamp_outputs(phases, down, w, p, t) =~= resamp_outputs(phases, down, w, p, s)
            + emits_for(phases, down, win_after(win_after_all(w, s), x), phase_after_all(
            up,
            down,
            p,
            s,
        )));
    }
}

/// A streaming rational resampler: up-sample by `up`, low-pass with the
/// polyphase decomposition of the given coefficients, down-sample by `down`.
/// The construction derives `up` and `down` from the two sample rates and
/// splits the coefficients into `up` sub-filters over a shared window of
/// their common length.
pub struct RationalResampler<T: Arithmetic> {
    up: usize,
    down: usize,
    phases: Vec<Vec<T>>,
    state: std::collections::VecDeque<T>,
    phase: usize,
}

impl<T: Arithmetic> RationalResampler<T> {
    /// The up-sampling factor.
    pub closed spec fn up_spec(&self) -> int {
        self.up as int
    }

    /// The down-sampling factor.
    pub closed spec fn down_spec(&self) -> int {
        self.down as int
    }

    /// The sub-filter coefficient arrays.
    pub closed spec fn phases_view(&self) -> Seq<Seq<T>> {
        Seq::new(self.phases@.len(), |u: int| self.phases@[u]@)
    }

    /// The last `L` input samples, newest first, zero-padded at the start of
    /// a stream.
    pub closed spec fn window(&self) -> Seq<T> {
        self.state@
    }

    /// The phase accumulator, always below `down` between calls.
    pub closed spec fn phase_spec(&self) -> int {
        self.phase as int
    }

    /// Structural invariant: factors at least one, one sub-filter per phase,
    /// all of one length matching the window, accumulator in range, and
    /// factors small enough that the accumulator cannot overflow.
    pub closed spec fn wf(&self) -> bool {
        &&& self.wf_except_phase()
        &&& self.phase < self.down
    }

    /// The parts of the invariant that hold even mid-sample, while the
    /// accumulator is being stepped.
    pub closed spec fn wf_except_phase(&self) -> bool {
        &&& self.up >= 1
        &&& self.down >= 1
        &&& self.phases@.len() == self.up
        &&& self.phases@[0]@.len() >= 1
        &&& forall|u: int|
            0 <= u < self.phases@.len() ==> (#[trigger] self.phases@[u])@.len()
                == self.phases@[0]@.len()
        &&& self.state@.len() == self.phases@[0]@.len()
        &&& self.up + self.down <= usize::MAX
    }

    /// A fresh resampler converting rate `start` to rate `end` with the
    /// given low-pass coefficients: the factors are the two rates reduced by
    /// their greatest common divisor, the coefficients split into `up`
    /// zero-padded sub-filters, the window all zero.
    pub fn new(start: u32, end: u32, taps: Vec<T>) -> (r: Self)
        requires
            start >= 1,
            end >= 1,
            taps@.len() >= 1,
            start + end <= usize::MAX,
        ensures
            r.wf(),
            r.up_spec() == end as int / spec_gcd(start as int, end as int),
            r.down_spec() == start as int / spec_gcd(start as int, end as int),
            r.phases_view() == polyphase_decomp(taps@, r.up_spec()),
            r.window() == Seq::new(r.phases_view()[0].len(), |k: int| T::zero_spec()),
            r.phase_spec() == 0,
    {
        let g = gcd_u32(start, end);
        let down_u32 = start / g;
        let up_u32 = end / g;
        let down = down_u32 as usize;
        let up = up_u32 as usize;
        proof {
            assert(up >= 1 && down >= 1) by (nonlinear_arith)
                requires
                    start >= 1,
                    end >= 1,
                    1 <= g <= start,
                    g <= end,
                    down_u32 == start / g,
                    up_u32 == end / g,
                    down == down_u32,
                    up == up_u32,
            ;
            assert(up + down <= start + end) by (nonlinear_arith)
                requires
                    start >= 1,
                    end >= 1,
                    g >= 1,
                    down == start as int / g as int,
                    up == end as int / g as int,
            ;
        }
        let n = taps.len();

        // Distribute coefficient i to sub-filter u at round m, where
        // i == m * up + u, walking (m, u) in step with i.
        let mut phases: Vec<Vec<T>> = Vec::new();
        let mut u0: usize = 0;
        while u0 < up
            invariant
                u0 <= up,
                phases@.len() == u0,
                forall|v: int| 0 <= v < u0 ==> (#[trigger] phases@[v])@.len() == 0,
            decreases up - u0,
        {
            phases.push(Vec::new());
            u0 += 1;
        }

        let mut i: usize = 0;
        let mut m: usize = 0;
        let mut u: usize = 0;
        while i < n
            invariant
                up >= 1,
                n == taps@.len(),
                phases@.len() == up,
                u < up,
                i == m * up + u,
                m <= i,
                i <= n,
                forall|v: int|
                    0 <= v < up ==> (#[trigger] phases@[v])@.len() == if v < u {
                        m + 1
                    } else {
                        m as int
                    },
                forall|v: int, q: int|
                    0 <= v < up && 0 <= q < phases@[v]@.len() ==> #[trigger] phases@[v]@[q]
                        == taps@[q * up + v],
            decreases n - i,
        {
            let x = taps[i];
            let ghost phases0 = phases@;
            let pu = &mut phases[u];
            pu.push(x);
            proof {
                assert(phases@[u as int]@ =~= phases0[u as int]@.push(x));
                assert forall|v: int, q: int|
                    0 <= v < up && 0 <= q < phases@[v]@.len() implies #[trigger] phases@[v]@[q]
                    == taps@[q * up + v] by {
                    if v != u || q < phases0[u as int]@.len() {
                        assert(phases@[v]@[q] == phases0[v]@[q]);
                    } else {
                        assert(q == m && v == u);
                        assert(phases@[v]@[q] == x);
                    }
                }
            }
            i += 1;
            if u + 1 == up {
                u = 0;
                m += 1;
                proof {
                    assert(m as int * up as int == (m as int - 1) * up as int + up as int)
                        by (nonlinear_arith);
                }
            } else {
                u += 1;
            }
        }

        // All sub-filters reach the common length L = ceil(n / up) once
        // zero-padded; sub-filter 0 is never shorter than any other.
        proof {
            assert(u >= 1 ==> m < n) by (nonlinear_arith)
                requires
                    up >= 1,
                    0 <= u < up,
                    n == m * up + u,
                    m >= 0,
            ;
        }
        let l: usize = if u == 0 {
            m
        } else {
            m + 1
        };
        proof {
            assert(l == (n + up - 1) / (up as int)) by (nonlinear_arith)
                requires
                    up >= 1,
                    0 <= u < up,
                    n == m * up + u,
                    n >= 1,
                    l == if u == 0 {
                        m as int
                    } else {
                        m + 1
                    },
            ;
            assert forall|w: int, q: int|
                0 <= w < up && 0 <= q < phases@[w]@.len() implies #[trigger] phases@[w]@[q] == (
            if q * up + w < n {
                taps@[q * up + w]
            } else {
                T::zero_spec()
            }) by {
                if w < u {
                    assert(q * up + w < n) by (nonlinear_arith)
                        requires
                            n == m * up + u,
                            0 <= w < u,
                            q <= m,
                            up >= 1,
                            u < up,
                    ;
                } else {
                    assert(q * up + w < n) by (nonlinear_arith)
                        requires
                            n == m * up + u,
                            u <= w < up,
                            q <= m - 1,
                            up >= 1,
                            0 <= u,
                    ;
                }
            }
        }
        let mut v: usize = 0;
        while v < up
            invariant
                up >= 1,
                n == taps@.len(),
                phases@.len() == up,
                u < up,
                n == m * up + u,
                l == if u == 0 {
                    m as int
                } else {
                    m + 1
                },
                v <= up,
                forall|w: int|
                    0 <= w < v ==> (#[trigger] phases@[w])@.len() == l,
                forall|w: int|
                    v <= w < up ==> (#[trigger] phases@[w])@.len() == if w < u {
                        m + 1
                    } else {
                        m as int
                    },
                forall|w: int, q: int|
                    0 <= w < up && 0 <= q < phases@[w]@.len() ==> #[trigger] phases@[w]@[q] == (
                    if q * up + w < n {
                        taps@[q * up + w]
                    } else {
                        T::zero_spec()
                    }),
            decreases up - v,
        {
            let ghost phases0 = phases@;
            let pv = &mut phases[v];
            while pv.len() < l
                invariant
                    up >= 1,
                    n == taps@.len(),
                    v < up,
                    u < up,
                    n == m * up + u,
                    l == if u == 0 {
                        m as int
                    } else {
                        m + 1
                    },
                    pv@.len() <= l,
                    pv@.len() >= if v < u {
                        m + 1
                    } else {
                        m as int
                    },
                    forall|q: int|
                        0 <= q < pv@.len() ==> pv@[q] == (if q * up + v < n {
                            taps@[q * up + v]
                        } else {
                            T::zero_spec()
                        }),
                decreases l - pv@.len(),
            {
                let ghost q0 = pv@.len() as int;
                pv.push(T::zero());
                proof {
                    assert(q0 * up + v >= n) by (nonlinear_arith)
                        requires
                            up >= 1,
                            0 <= u < up,
                            0 <= v < up,
                            n == m * up + u,
                            q0 >= if v < u {
                                m + 1
                            } else {
                                m as int
                            },
                    ;
                }
            }
            v += 1;
            proof {
                assert forall|w: int, q: int|
                    0 <= w < up && 0 <= q < phases@[w]@.len() implies #[trigger] phases@[w]@[q]
                    == (if q * up + w < n {
                    taps@[q * up + w]
                } else {
                    T::zero_spec()
                }) by {
                    if w != v - 1 {
                        assert(phases@[w] == phases0[w]);
                    }
                }
            }
        }

        let mut state: std::collections::VecDeque<T> = std::collections::VecDeque::new();
        let mut s: usize = 0;
        while s < l
            invariant
                s <= l,
                state@.len() == s,
                forall|q: int| 0 <= q < s ==> state@[q] == T::zero_spec(),
            decreases l - s,
        {
            state.push_back(T::zero());
            s += 1;
        }

        let r = RationalResampler { up, down, phases, state, phase: 0 };
        proof {
            assert(r.phases_view() =~~= polyphase_decomp(taps@, r.up_spec()));
            assert(r.window() =~= Seq::new(r.phases_view()[0].len(), |k: int| T::zero_spec()));
        }
        r
    }

    /// Runs the resampler over `input`, replacing `output` with the emitted
    /// samples.  Exactly `down · |output|  ==  up · |input| + p₁ − p₀` holds,
    /// where `p₀` and `p₁` are the accumulator before and after the call —
    /// so the output count per input converges to `up/down`.
    pub fn filter(&mut self, input: &[T], output: &mut Vec<T>)
        requires
            old(self).wf(),
        ensures
            final(self).wf(),
            final(self).phases_view() == old(self).phases_view(),
            final(self).up_spec() == old(self).up_spec(),
            final(self).down_spec() == old(self).down_spec(),
            final(self).window() == win_after_all(old(self).window(), input@),
            final(self).phase_spec() == phase_after_all(
                old(self).up_spec(),
                old(self).down_spec(),
                old(self).phase_spec(),
                input@,
            ),
            final(output)@ == resamp_outputs(
                old(self).phases_view(),
                old(self).down_spec(),
                old(self).window(),
                old(self).phase_spec(),
                input@,
            ),
            old(self).down_spec() * final(output)@.len() == old(self).up_spec() * input@.len()
                + final(self).phase_spec() - old(self).phase_spec(),
    {
        output.clear();
        let ghost p0 = self.phase as int;
        proof {
            assert(p0 == old(self).phase_spec());
        }
        let up = self.up;
        let down = self.down;
        let l = self.state.len();
        let mut j: usize = 0;
        proof {
            assert(input@.take(0) =~= Seq::<T>::empty());
        }
        while j < input.len()
            invariant
                old(self).wf(),
                self.wf(),
                p0 == old(self).phase_spec(),
                self.phases_view() == old(self).phases_view(),
                up == self.up,
                down == self.down,
                up == old(self).up_spec(),
                down == old(self).down_spec(),
                l == self.state@.len(),
                j <= input@.len(),
                self.window() == win_after_all(old(self).window(), input@.take(j as int)),
                self.phase_spec() == phase_after_all(
                    old(self).up_spec(),
                    old(self).down_spec(),
                    old(self).phase_spec(),
                    input@.take(j as int),
                ),
                output@ == resamp_outputs(
                    old(self).phases_view(),
                    old(self).down_spec(),
                    old(self).window(),
                    old(self).phase_spec(),
                    input@.take(j as int),
                ),
                down as int * output@.len() == up as int * j + self.phase_spec() - old(
                    self,
                ).phase_spec(),
            decreases input@.len() - j,
        {
            let ghost w_before = self.window();
            let ghost p_entry = self.phase as int;
            let ghost base = output@;
            let x = *vstd::slice::slice_index_get(input, j);
            self.state.pop_back();
            self.state.push_front(x);
            let ghost w1 = win_after(w_before, x);
            proof {
                assert(self.state@ =~= w1);
            }
            let ghost out_j = output@.len() as int;
            let ghost phase_j = self.phase as int;
            proof {
                assert(base.len() == out_j);
            }
            while self.phase < up
                invariant
                    self.wf_except_phase(),
                    self.phases_view() == old(self).phases_view(),
                    up == self.up,
                    down == self.down,
                    l == self.state@.len(),
                    self.state@ == w1,
                    w1.len() == l,
                    p_entry >= 0,
                    p_entry <= self.phase,
                    base + emits_for(self.phases_view(), down as int, w1, p_entry) == output@
                        + emits_for(self.phases_view(), down as int, w1, self.phase as int),
                    down as int * (output@.len() - base.len()) == self.phase - p_entry,
                    self.phase < up + down,
                decreases up + down - self.phase,
            {
                let p = self.phase;
                let mut acc = T::zero();
                let mut k: usize = 0;
                while k < l
                    invariant
                        self.wf_except_phase(),
                        up == self.up,
                        down == self.down,
                        l == self.state@.len(),
                        self.state@ == w1,
                        p == self.phase,
                        p < up,
                        k <= l,
                        l == self.phases@[p as int]@.len(),
                        acc == dot_prefix(self.phases_view()[p as int], w1, k as int),
                    decreases l - k,
                {
                    let tap = self.phases[p][k];
                    let xv = self.state[k];
                    acc = T::add(acc, T::mul(tap, xv));
                    k += 1;
                }
                let ghost len_before = output@.len() as int;
                output.push(acc);
                proof {
                    assert(acc == dot(self.phases_view()[p as int], w1));
                    assert(emits_for(self.phases_view(), down as int, w1, p as int) == seq![
                        dot(self.phases_view()[p as int], w1),
                    ] + emits_for(self.phases_view(), down as int, w1, p + down));
                    assert(base + emits_for(self.phases_view(), down as int, w1, p_entry)
                        =~= output@ + emits_for(self.phases_view(), down as int, w1, p + down));
                    assert(down as int * (output@.len() - base.len()) == p + down - p_entry)
                        by (nonlinear_arith)
                        requires
                            down as int * (len_before - base.len()) == p - p_entry,
                            output@.len() == len_before + 1,
                    ;
                }
                self.phase = self.phase + down;
            }
            let ghost p_exit = self.phase as int;
            self.phase = self.phase - up;
            proof {
                assert(emits_for(self.phases_view(), down as int, w1, p_exit) == Seq::<
                    T,
                >::empty());
                assert(base + emits_for(self.phases_view(), down as int, w1, p_entry) =~= output@);
                assert((p_exit - p_entry) % (down as int) == 0) by (nonlinear_arith)
                    requires
                        down as int * (output@.len() - base.len()) == p_exit - p_entry,
                        down >= 1,
                        output@.len() >= base.len(),
                ;
                lemma_next_phase_steps(up as int, down as int, p_entry, p_exit);
                assert(input@.take(j + 1) =~= input@.take(j as int).push(x));
                lemma_resamp_snoc(
                    old(self).phases_view(),
                    down as int,
                    old(self).window(),
                    old(self).phase_spec(),
                    input@.take(j as int),
                    x,
                );
                assert(old(self).phases_view().len() == old(self).up_spec());
                assert(w_before == win_after_all(old(self).window(), input@.take(j as int)));
                assert(p_entry == phase_after_all(
                    old(self).up_spec(),
                    old(self).down_spec(),
                    old(self).phase_spec(),
                    input@.take(j as int),
                ));
                assert(next_phase(old(self).up_spec(), old(self).down_spec(), p_entry)
                    == self.phase_spec());
                assert(self.phase_spec() == phase_after_all(
                    old(self).up_spec(),
                    old(self).down_spec(),
                    old(self).phase_spec(),
                    input@.take(j + 1),
                ));
                assert(output@ == base + emits_for(
                    old(self).phases_view(),
                    down as int,
                    w1,
                    p_entry,
                ));
                assert(output@ == resamp_outputs(
                    old(self).phases_view(),
                    old(self).down_spec(),
                    old(self).window(),
                    old(self).phase_spec(),
                    input@.take(j + 1),
                ));
                assert(down as int * output@.len() == up as int * (j + 1) + self.phase_spec()
                    - p0) by (nonlinear_arith)
                    requires
                        down as int * out_j == up as int * j + phase_j - p0,
                        down as int * (output@.len() - out_j) == p_exit - p_entry,
                        p_entry == phase_j,
                        self.phase_spec() == p_exit - up,
                ;
            }
            j += 1;
        }
        proof {
            assert(input@.take(input@.len() as int) =~= input@);
        }
    }
}

/// Stepping the accumulator by `down` until it passes `up` and subtracting
/// `up` is what `next_phase` computes, whatever intermediate point the loop
/// stopped at.
pub proof fn lemma_next_phase_steps(up: int, down: int, p_entry: int, p_exit: int)
    requires
        down >= 1,
        0 <= p_entry,
        p_entry <= p_exit,
        up <= p_exit < up + down,
        (p_exit - p_entry) % down == 0,
    ensures
        next_phase(up, down, p_entry) == p_exit - up,
    decreases p_exit - p_entry,
{
    if p_entry >= up {
        assert(p_exit - p_entry < down);
        assert(p_entry == p_exit) by (nonlinear_arith)
            requires
                (p_exit - p_entry) % down == 0,
                0 <= p_exit - p_entry < down,
                down >= 1,
        ;
    } else {
        assert(p_entry + down <= p_exit) by (nonlinear_arith)
            requires
                down >= 1,
                p_entry < up,
                up <= p_exit,
                (p_exit - p_entry) % down == 0,
                p_entry <= p_exit,
        ;
        assert((p_exit - (p_entry + down)) % down == 0) by (nonlinear_arith)
            requires
                (p_exit - p_entry) % down == 0,
                down >= 1,
        ;
        lemma_next_phase_steps(up, down, p_entry + down, p_exit);
    }
}

/// Replaces `output` with `func` applied to every item of `input`, in order.
pub fn cast_all<F, I, O>(func: F, input: &[I], output: &mut Vec<O>) where
    I: Copy,
    F: Fn(I) -> O,

    requires
        forall|i: int| 0 <= i < input@.len() ==> call_requires(func, (input@[i],)),
    ensures
        final(output)@.len() == input@.len(),
        forall|i: int|
            0 <= i < input@.len() ==> call_ensures(func, (input@[i],), #[trigger] final(output)@[i]),
{
    output.clear();
    let mut j: usize = 0;
    while j < input.len()
        invariant
            j <= input@.len(),
            output@.len() == j,
            forall|i: int| 0 <= i < input@.len() ==> call_requires(func, (input@[i],)),
            forall|i: int| 0 <= i < j ==> call_ensures(func, (input@[i],), #[trigger] output@[i]),
        decreases input@.len() - j,
    {
        let v = *vstd::slice::slice_index_get(input, j);
        output.push(func(v));
        j += 1;
    }
}

} // verus!
