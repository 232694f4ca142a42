//! The averaging core: a fixed-size accumulation buffer reused across
//! windows, a wrapping window index, and exact per-channel window sums.

use vstd::prelude::*;
use vstd::arithmetic::div_mod::lemma_fundamental_div_mod;
use vstd::arithmetic::div_mod::lemma_fundamental_div_mod_converse;

verus! {

/// The sum of column `c` over a sequence of intensity vectors.
pub open spec fn col_sum(rows: Seq<Seq<u16>>, c: int) -> int
    decreases rows.len(),
{
    if rows.len() == 0 {
        0
    } else {
        col_sum(rows.drop_last(), c) + rows.last()[c]
    }
}

/// The trailing window of `k` rows of a consumption history.
pub open spec fn last_window(hist: Seq<Seq<u16>>, k: int) -> Seq<Seq<u16>> {
    hist.subrange(hist.len() - k, hist.len() as int)
}

proof fn lemma_col_sum_extend(rows: Seq<Seq<u16>>, j: int, c: int)
    requires
        0 <= j < rows.len(),
    ensures
        col_sum(rows.subrange(0, j + 1), c) == col_sum(rows.subrange(0, j), c) + rows[j][c],
{
    let t = rows.subrange(0, j + 1);
    assert(t.drop_last() =~= rows.subrange(0, j));
    assert(t.last() == rows[j]);
}

/// One completed window: the exact per-channel sums of `factor` consecutive
/// intensity vectors. The per-channel mean is `sums[c] / factor`, a division
/// left to the consumer so that no precision is fixed here.
pub struct AveragedWindow {
    /// Exact per-channel sums over the window.
    pub sums: Vec<u64>,
    /// The window length the sums were taken over.
    pub factor: u16,
}

/// The averaging stage's state: a preallocated accumulation buffer of
/// `factor` intensity vectors, reused for every window, and the index of the
/// next slot to fill. A ghost history records every vector consumed so far.
pub struct Downsampler {
    channels: usize,
    factor: u16,
    buf: Vec<Vec<u16>>,
    idx: usize,
    hist: Ghost<Seq<Seq<u16>>>,
}

impl Downsampler {
    /// Number of channels in every intensity vector this stage accepts.
    pub closed spec fn channels(self) -> int {
        self.channels as int
    }

    /// The downsample factor: how many consecutive vectors form one window.
    pub closed spec fn factor(self) -> int {
        self.factor as int
    }

    /// Every intensity vector consumed so far, in arrival order.
    pub closed spec fn consumed(self) -> Seq<Seq<u16>> {
        self.hist@
    }

    /// Well-formedness: the buffer always has exactly `factor` rows of
    /// `channels` samples, the window index tracks the consumption count
    /// modulo `factor`, and the slots below it hold the current partial
    /// window, in arrival order.
    pub closed spec fn wf(self) -> bool {
        &&& 1 <= self.factor
        &&& self.idx < self.factor as usize
        &&& self.buf@.len() == self.factor as int
        &&& (forall|j: int|
            0 <= j < self.buf@.len() ==> (#[trigger] self.buf@[j])@.len() == self.channels as int)
        &&& self.idx as int == self.hist@.len() as int % (self.factor as int)
        &&& (forall|i: int|
            0 <= i < self.hist@.len() ==> (#[trigger] self.hist@[i]).len() == self.channels as int)
        &&& (forall|j: int|
            0 <= j < self.idx as int ==> (#[trigger] self.buf@[j])@ == self.hist@[self.hist@.len()
                - self.idx + j])
    }

    /// Builds a stage for vectors of `channels` samples, averaging every
    /// `downsample_factor` of them; the accumulation buffer is allocated
    /// here, once, and never resized afterwards.
    pub fn new(channels: usize, downsample_factor: u16) -> (s: Self)
        requires
            downsample_factor >= 1,
        ensures
            s.wf(),
            s.channels() == channels,
            s.factor() == downsample_factor,
            s.consumed() == Seq::<Seq<u16>>::empty(),
    {
        let mut buf: Vec<Vec<u16>> = Vec::new();
        let mut j: usize = 0;
        while j < downsample_factor as usize
            invariant
                j <= downsample_factor as usize,
                buf@.len() == j,
                forall|t: int| 0 <= t < j ==> (#[trigger] buf@[t])@.len() == channels as int,
            decreases downsample_factor as usize - j,
        {
            let mut row: Vec<u16> = Vec::new();
            let mut c: usize = 0;
            while c < channels
                invariant
                    c <= channels,
                    row@.len() == c,
                decreases channels - c,
            {
                row.push(0u16);
                c = c + 1;
            }
            buf.push(row);
            j = j + 1;
        }
        proof {
            lemma_fundamental_div_mod_converse(0, downsample_factor as int, 0, 0);
        }
        Downsampler { channels, factor: downsample_factor, buf, idx: 0, hist: Ghost(Seq::empty()) }
    }

    /// The configured downsample factor.
    pub fn downsample_factor(&self) -> (k: u16)
        ensures
            k as int == self.factor(),
    {
        self.factor
    }

    /// Consumes one intensity vector: writes it into the current window
    /// slot and, exactly when it completes a window, returns that window's
    /// per-channel sums; the index then wraps so the next window reuses the
    /// buffer in place.
    pub fn push(&mut self, stokes: Vec<u16>) -> (r: Option<Vec<u64>>)
        requires
            old(self).wf(),
            stokes@.len() == old(self).channels(),
        ensures
            final(self).wf(),
            final(self).channels() == old(self).channels(),
            final(self).factor() == old(self).factor(),
            final(self).consumed() == old(self).consumed().push(stokes@),
            r is Some <==> final(self).consumed().len() as int % final(self).factor() == 0,
            r is Some ==> final(self).consumed().len() >= final(self).factor(),
            r matches Some(sums) ==> {
                &&& sums@.len() == final(self).channels()
                &&& forall|c: int|
                    0 <= c < sums@.len() ==> (#[trigger] sums@[c]) as int == col_sum(
                        last_window(final(self).consumed(), final(self).factor()),
                        c,
                    )
            },
    {
        let ghost prev = self.hist@;
        let ghost svec = stokes@;
        let ghost h = prev.len() as int;
        let ghost k = self.factor as int;
        let ghost oidx = self.idx as int;
        proof {
            vstd::arithmetic::div_mod::lemma_mod_decreases(prev.len(), old(self).factor as nat);
        }
        self.buf.set(self.idx, stokes);
        self.hist = Ghost(prev.push(svec));
        let mut result: Option<Vec<u64>> = None;
        if self.idx == self.factor as usize - 1 {
            let ghost win = last_window(self.hist@, k);
            proof {
                assert(oidx == k - 1 && oidx == h % k && oidx <= h);
                assert(win.len() == k);
                assert forall|j: int| 0 <= j < k implies (#[trigger] self.buf@[j])@ == win[j] by {
                    assert(win[j] == self.hist@[h + 1 - k + j]);
                    if j < k - 1 {
                        assert(self.hist@[h + 1 - k + j] == prev[h - oidx + j]);
                        assert(old(self).buf@[j]@ == prev[h - oidx + j]);
                        assert(self.buf@[j] == old(self).buf@[j]);
                    } else {
                        assert(self.hist@[h] == svec);
                        assert(self.buf@[j]@ == svec);
                    }
                }
            }
            let mut sums: Vec<u64> = Vec::new();
            let mut c: usize = 0;
            while c < self.channels
                invariant
                    c <= self.channels,
                    sums@.len() == c,
                    self.factor as int == k,
                    1 <= k <= u16::MAX,
                    self.buf@.len() == k,
                    win.len() == k,
                    forall|j: int|
                        0 <= j < k ==> (#[trigger] self.buf@[j])@.len() == self.channels as int,
                    forall|j: int| 0 <= j < k ==> (#[trigger] self.buf@[j])@ == win[j],
                    forall|cc: int|
                        0 <= cc < c ==> (#[trigger] sums@[cc]) as int == col_sum(win, cc),
                decreases self.channels - c,
            {
                let mut acc: u64 = 0;
                let mut j: usize = 0;
                while j < self.factor as usize
                    invariant
                        j <= k,
                        c < self.channels,
                        self.factor as int == k,
                        1 <= k <= u16::MAX,
                        self.buf@.len() == k,
                        win.len() == k,
                        forall|t: int|
                            0 <= t < k ==> (#[trigger] self.buf@[t])@.len()
                                == self.channels as int,
                        forall|t: int| 0 <= t < k ==> (#[trigger] self.buf@[t])@ == win[t],
                        acc as int == col_sum(win.subrange(0, j as int), c as int),
                        acc <= j * 0xffff,
                    decreases k - j,
                {
                    proof {
                        lemma_col_sum_extend(win, j as int, c as int);
                    }
                    acc = acc + self.buf[j][c] as u64;
                    j = j + 1;
                }
                proof {
                    assert(win.subrange(0, k) =~= win);
                }
                sums.push(acc);
                c = c + 1;
            }
            result = Some(sums);
        }
        self.idx = (self.idx + 1) % (self.factor as usize);
        proof {
            let q = h / k;
            lemma_fundamental_div_mod(h, k);
            if oidx == k - 1 {
                assert((q + 1) * k == q * k + k) by (nonlinear_arith);
                lemma_fundamental_div_mod_converse(h + 1, k, q + 1, 0);
                lemma_fundamental_div_mod_converse(k, k, 1, 0);
                assert(self.idx as int == 0);
            } else {
                lemma_fundamental_div_mod_converse(h + 1, k, q, oidx + 1);
                lemma_fundamental_div_mod_converse(oidx + 1, k, 0, oidx + 1);
                assert(self.idx as int == oidx + 1);
            }
            assert forall|j: int|
                0 <= j < self.idx as int implies (#[trigger] self.buf@[j])@ == self.hist@[self.hist@.len()
                - self.idx + j] by {
                if j < oidx {
                    assert(old(self).buf@[j]@ == prev[h - oidx + j]);
                    assert(self.buf@[j] == old(self).buf@[j]);
                    assert(self.hist@[h - oidx + j] == prev[h - oidx + j]);
                } else {
                    assert(self.buf@[j]@ == svec);
                    assert(self.hist@[h] == svec);
                }
            }
            assert forall|j: int|
                0 <= j < self.buf@.len() implies (#[trigger] self.buf@[j])@.len()
                == self.channels as int by {
                if j != oidx {
                    assert(self.buf@[j] == old(self).buf@[j]);
                }
            }
        }
        result
    }
}

/// The per-channel sums of window `w` of a consumption history: the `w`-th
/// disjoint, contiguous run of `k` rows, summed channel by channel.
pub open spec fn window_sums(hist: Seq<Seq<u16>>, k: int, w: int, channels: int) -> Seq<int> {
    Seq::new(channels as nat, |c: int| col_sum(hist.subrange(w * k, (w + 1) * k), c))
}

/// The views of a sequence of intensity vectors, element for element.
pub open spec fn stokes_views(rows: Seq<Vec<u16>>) -> Seq<Seq<u16>> {
    rows.map_values(|r: Vec<u16>| r@)
}

/// Copies one intensity vector element by element.
pub(crate) fn clone_row(row: &Vec<u16>) -> (c: Vec<u16>)
    ensures
        c@ == row@,
{
    let mut c: Vec<u16> = Vec::new();
    let mut i: usize = 0;
    while i < row.len()
        invariant
            i <= row@.len(),
            c@ == row@.subrange(0, i as int),
        decreases row@.len() - i,
    {
        c.push(row[i]);
        proof {
            assert(c@ =~= row@.subrange(0, i as int + 1));
        }
        i = i + 1;
    }
    proof {
        assert(row@.subrange(0, row@.len() as int) =~= row@);
    }
    c
}

/// Feeds a fresh stage every vector of `inputs` in order and collects the
/// completed windows: exactly one averaged window per `downsample_factor`
/// consumed vectors, each over its own disjoint, contiguous run, in arrival
/// order, with nothing emitted for a trailing partial window. The inputs
/// come back untouched, in the order they were consumed, just as the
/// polling stage hands every raw payload on for archival.
pub fn downsample_all(inputs: Vec<Vec<u16>>, channels: usize, downsample_factor: u16) -> (r: (
    Vec<AveragedWindow>,
    Vec<Vec<u16>>,
))
    requires
        downsample_factor >= 1,
        forall|i: int|
            0 <= i < inputs@.len() ==> (#[trigger] inputs@[i])@.len() == channels as int,
    ensures
        r.0@.len() == inputs@.len() as int / downsample_factor as int,
        forall|w: int|
            0 <= w < r.0@.len() ==> (#[trigger] r.0@[w]).factor == downsample_factor
                && r.0@[w].sums@.len() == channels as int,
        forall|w: int, c: int|
            0 <= w < r.0@.len() && 0 <= c < channels as int ==> (#[trigger] r.0@[w].sums@[c]) as int
                == col_sum(
                stokes_views(inputs@).subrange(
                    w * (downsample_factor as int),
                    (w + 1) * (downsample_factor as int),
                ),
                c,
            ),
        r.1 == inputs,
{
    let ghost k = downsample_factor as int;
    let ghost all = stokes_views(inputs@);
    let mut core = Downsampler::new(channels, downsample_factor);
    let mut outputs: Vec<AveragedWindow> = Vec::new();
    let mut i: usize = 0;
    proof {
        assert(core.consumed() =~= all.subrange(0, 0));
    }
    while i < inputs.len()
        invariant
            i <= inputs@.len(),
            core.wf(),
            core.channels() == channels as int,
            core.factor() == k,
            1 <= k <= u16::MAX,
            k == downsample_factor as int,
            all == stokes_views(inputs@),
            all.len() == inputs@.len(),
            forall|t: int|
                0 <= t < inputs@.len() ==> (#[trigger] inputs@[t])@.len() == channels as int,
            core.consumed() == all.subrange(0, i as int),
            outputs@.len() == i as int / k,
            forall|w: int|
                0 <= w < outputs@.len() ==> (#[trigger] outputs@[w]).factor == downsample_factor
                    && outputs@[w].sums@.len() == channels as int,
            forall|w: int, c: int|
                0 <= w < outputs@.len() && 0 <= c < channels as int ==> (
                #[trigger] outputs@[w].sums@[c]) as int == col_sum(
                    all.subrange(w * k, (w + 1) * k),
                    c,
                ),
        decreases inputs@.len() - i,
    {
        let row = clone_row(&inputs[i]);
        let sums_opt = core.push(row);
        proof {
            assert(all.subrange(0, i as int).push(all[i as int]) =~= all.subrange(
                0,
                i as int + 1,
            ));
            let n1 = i as int + 1;
            let q1 = n1 / k;
            lemma_fundamental_div_mod(n1, k);
            if n1 % k == 0 {
                assert((q1 - 1) * k == q1 * k - k) by (nonlinear_arith);
                lemma_fundamental_div_mod_converse(i as int, k, q1 - 1, k - 1);
            } else {
                lemma_fundamental_div_mod_converse(i as int, k, q1, n1 % k - 1);
            }
        }
        match sums_opt {
            Some(sums) => {
                let aw = AveragedWindow { sums, factor: downsample_factor };
                proof {
                    let n1 = i as int + 1;
                    let w = outputs@.len() as int;
                    assert(w * k == n1 - k && (w + 1) * k == n1) by (nonlinear_arith)
                        requires
                            (w + 1) * k == n1,
                            k >= 1,
                    ;
                    assert(core.consumed().subrange(n1 - k, n1) =~= all.subrange(n1 - k, n1));
                }
                outputs.push(aw);
            },
            None => {},
        }
        i = i + 1;
    }
    proof {
        assert(all.subrange(0, inputs@.len() as int) =~= all);
    }
    (outputs, inputs)
}

/// Law: a downsample factor of one makes averaging the identity. Every
/// consumed vector is its own window, so the window count equals the input
/// count and each window's per-channel sum is the vector's own sample, whose
/// mean over a window of one is itself.
pub proof fn lemma_factor_one_identity(inputs: Seq<Seq<u16>>)
    ensures
        inputs.len() as int / 1 == inputs.len(),
        forall|w: int, c: int|
            0 <= w < inputs.len() ==> #[trigger] col_sum(inputs.subrange(w, w + 1), c)
                == inputs[w][c],
{
    assert forall|w: int, c: int|
        0 <= w < inputs.len() implies #[trigger] col_sum(inputs.subrange(w, w + 1), c)
        == inputs[w][c] by {
        let s = inputs.subrange(w, w + 1);
        assert(s.drop_last().len() == 0);
        assert(col_sum(s.drop_last(), c) == 0);
        assert(s.last() == inputs[w]);
        assert(col_sum(s, c) == col_sum(s.drop_last(), c) + s.last()[c]);
    }
}

} // verus!
