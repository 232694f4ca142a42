//! The payload-facing stage: binds the averaging core to the bounded
//! channel endpoints, in the two mutually exclusive handoff disciplines.

use vstd::prelude::*;
use crate::channel::ch_recv;
use crate::channel::ch_send;
use crate::channel::ch_try_recv;
use crate::channel::ch_try_send;
use crate::payload::CHANNELS;
use crate::payload::Payload;
use crate::stage::AveragedWindow;
use crate::stage::Downsampler;
use crate::stage::clone_row;
use crate::stage::col_sum;
use crate::stage::last_window;
use crate::stage::window_sums;
use vstd::arithmetic::div_mod::lemma_div_of0;
use vstd::arithmetic::div_mod::lemma_fundamental_div_mod;
use vstd::arithmetic::div_mod::lemma_fundamental_div_mod_converse;
use vstd::arithmetic::div_mod::lemma_mod_division_less_than_divisor;

verus! {

/// Why a blocking-mode stage stopped: one of its channels was permanently
/// closed, which that discipline treats as an unrecoverable failure.
#[derive(Clone, Copy, Debug, PartialEq, Eq, Structural)]
pub enum StageExit {
    /// The upstream payload channel is closed and drained.
    UpstreamClosed,
    /// The downstream averaged-result channel is closed.
    DownstreamClosed,
}

/// The polling-mode stage: the averaging core together with whatever it has
/// not yet handed off. Each `pump` call makes at most one non-blocking
/// channel attempt, so a driver busy-loops over it; a message a full channel
/// rejects is kept and retried identically on a later turn, which is how
/// this discipline never drops, replaces or reorders anything.
pub struct PollingStage {
    core: Downsampler,
    pending_avg: Option<AveragedWindow>,
    pending_dump: Option<Payload>,
    dumped: Ghost<Seq<Seq<u16>>>,
    emitted: Ghost<Seq<Seq<int>>>,
}

impl PollingStage {
    /// The configured downsample factor.
    pub closed spec fn factor(self) -> int {
        self.core.factor()
    }

    /// Every intensity vector consumed from upstream so far, in order.
    pub closed spec fn consumed(self) -> Seq<Seq<u16>> {
        self.core.consumed()
    }

    /// The completed window not yet accepted by the downstream channel.
    pub closed spec fn pending_avg(self) -> Option<AveragedWindow> {
        self.pending_avg
    }

    /// The consumed payload not yet accepted by the dump channel.
    pub closed spec fn pending_dump(self) -> Option<Payload> {
        self.pending_dump
    }

    /// The intensity vectors of every payload the dump channel has accepted
    /// so far, in the order they were handed over.
    pub closed spec fn dumped(self) -> Seq<Seq<u16>> {
        self.dumped@
    }

    /// The per-channel sums of every averaged window the downstream channel
    /// has accepted so far, in emission order.
    pub closed spec fn emitted(self) -> Seq<Seq<int>> {
        self.emitted@
    }

    /// Well-formedness: the core is sound, and anything pending is genuine —
    /// the pending payload is the one consumed last, and the pending window
    /// holds the exact per-channel sums of the window it completed. The
    /// averaged window goes out before its final payload's dump copy.
    pub closed spec fn wf(self) -> bool {
        &&& self.core.wf()
        &&& 1 <= self.core.factor()
        &&& self.core.channels() == CHANNELS as int
        &&& (self.pending_dump matches Some(p) ==> self.core.consumed().len() > 0 && p@
            == self.core.consumed().last())
        &&& (self.pending_avg matches Some(aw) ==> {
            &&& self.core.consumed().len() >= self.core.factor()
            &&& self.core.consumed().len() as int % self.core.factor() == 0
            &&& aw.factor as int == self.core.factor()
            &&& aw.sums@.len() == CHANNELS as int
            &&& (forall|c: int|
                0 <= c < CHANNELS as int ==> (#[trigger] aw.sums@[c]) as int == col_sum(
                    last_window(self.core.consumed(), self.core.factor()),
                    c,
                ))
        })
        &&& (self.pending_avg is Some ==> self.pending_dump is Some)
        &&& (self.pending_dump is Some ==> self.dumped@ == self.core.consumed().drop_last())
        &&& (self.pending_dump is None ==> self.dumped@ == self.core.consumed())
        &&& (self.pending_avg is None ==> self.emitted@.len() == self.core.consumed().len() as int
            / self.core.factor())
        &&& (self.pending_avg is Some ==> self.emitted@.len() + 1
            == self.core.consumed().len() as int / self.core.factor())
        &&& (forall|w: int|
            0 <= w < self.emitted@.len() ==> (#[trigger] self.emitted@[w]) == window_sums(
                self.core.consumed(),
                self.core.factor(),
                w,
                CHANNELS as int,
            ))
    }

    /// Builds an idle polling stage that averages every `downsample_factor`
    /// payloads.
    pub fn new(downsample_factor: u16) -> (s: Self)
        requires
            downsample_factor >= 1,
        ensures
            s.wf(),
            s.factor() == downsample_factor,
            s.consumed() == Seq::<Seq<u16>>::empty(),
            s.pending_avg() is None,
            s.pending_dump() is None,
            s.dumped() == Seq::<Seq<u16>>::empty(),
            s.emitted() == Seq::<Seq<int>>::empty(),
    {
        proof {
            lemma_div_of0(downsample_factor as int);
        }
        PollingStage {
            core: Downsampler::new(CHANNELS, downsample_factor),
            pending_avg: None,
            pending_dump: None,
            dumped: Ghost(Seq::empty()),
            emitted: Ghost(Seq::empty()),
        }
    }

    /// One turn of the polling engine, making at most one non-blocking
    /// channel attempt. A pending averaged window is retried first, then the
    /// pending raw payload bound for the dump output; only with nothing
    /// pending is the upstream channel polled, and a freshly consumed
    /// payload is recorded for dumping and fed to the averaging core, which
    /// completes a window exactly when the factor divides the consumption
    /// count. An empty or full channel leaves the stage unchanged, ready to
    /// retry: transient unavailability is absorbed, never an error.
    pub fn pump(
        &mut self,
        payload_recv: &crossbeam_channel::Receiver<Payload>,
        stokes_send: &crossbeam_channel::Sender<AveragedWindow>,
        dump_send: &crossbeam_channel::Sender<Payload>,
    )
        requires
            old(self).wf(),
        ensures
            final(self).wf(),
            final(self).factor() == old(self).factor(),
            old(self).dumped().is_prefix_of(final(self).dumped()),
            old(self).emitted().is_prefix_of(final(self).emitted()),
            final(self).pending_avg() is None ==> final(self).emitted().len()
                == final(self).consumed().len() as int / final(self).factor(),
            final(self).pending_avg() is Some ==> final(self).emitted().len() + 1
                == final(self).consumed().len() as int / final(self).factor(),
            forall|w: int|
                0 <= w < final(self).emitted().len() ==> (#[trigger] final(self).emitted()[w])
                    == window_sums(
                    final(self).consumed(),
                    final(self).factor(),
                    w,
                    CHANNELS as int,
                ),
            final(self).pending_dump() is Some ==> final(self).dumped()
                == final(self).consumed().drop_last(),
            final(self).pending_dump() is None ==> final(self).dumped() == final(self).consumed(),
            old(self).pending_avg() is Some ==> {
                &&& final(self).consumed() == old(self).consumed()
                &&& final(self).pending_dump() == old(self).pending_dump()
                &&& (final(self).pending_avg() == old(self).pending_avg()
                    || final(self).pending_avg() is None)
            },
            old(self).pending_avg() is None && old(self).pending_dump() is Some ==> {
                &&& final(self).consumed() == old(self).consumed()
                &&& final(self).pending_avg() is None
                &&& (final(self).pending_dump() == old(self).pending_dump()
                    || final(self).pending_dump() is None)
            },
            old(self).pending_avg() is None && old(self).pending_dump() is None ==> {
                ||| *final(self) == *old(self)
                ||| {
                    &&& final(self).consumed().len() == old(self).consumed().len() + 1
                    &&& final(self).consumed().drop_last() == old(self).consumed()
                    &&& (final(self).pending_dump() matches Some(p)
                        && p@ == final(self).consumed().last())
                    &&& (final(self).pending_avg() is Some <==> final(self).consumed().len() as int
                        % final(self).factor() == 0)
                    &&& (final(self).pending_avg() matches Some(aw) ==> {
                        &&& aw.factor as int == final(self).factor()
                        &&& aw.sums@.len() == CHANNELS as int
                        &&& (forall|c: int|
                            0 <= c < CHANNELS as int ==> (#[trigger] aw.sums@[c]) as int == col_sum(
                                last_window(final(self).consumed(), final(self).factor()),
                                c,
                            ))
                    })
                }
            },
    {
        if self.pending_avg.is_some() {
            let mut tmp: Option<AveragedWindow> = None;
            std::mem::swap(&mut tmp, &mut self.pending_avg);
            match tmp {
                Some(aw) => {
                    let ghost aws = aw.sums@;
                    match ch_try_send(stokes_send, aw) {
                        None => {
                            let ghost sums_int = aws.map_values(|x: u64| x as int);
                            self.emitted = Ghost(self.emitted@.push(sums_int));
                            proof {
                                let kk = old(self).factor();
                                let n = self.core.consumed().len() as int;
                                let cnt = n / kk;
                                lemma_fundamental_div_mod(n, kk);
                                assert(cnt * kk == n);
                                assert((cnt - 1) * kk == cnt * kk - kk) by (nonlinear_arith);
                                assert(last_window(self.core.consumed(), kk)
                                    =~= self.core.consumed().subrange((cnt - 1) * kk, cnt * kk));
                                assert(sums_int =~= window_sums(
                                    self.core.consumed(),
                                    kk,
                                    cnt - 1,
                                    CHANNELS as int,
                                ));
                                assert(old(self).emitted@.is_prefix_of(self.emitted@));
                            }
                        },
                        Some(w) => {
                            self.pending_avg = Some(w);
                        },
                    }
                },
                None => {},
            }
        } else if self.pending_dump.is_some() {
            let mut tmp: Option<Payload> = None;
            std::mem::swap(&mut tmp, &mut self.pending_dump);
            match tmp {
                Some(p) => {
                    let ghost pv = p@;
                    match ch_try_send(dump_send, p) {
                        None => {
                            self.dumped = Ghost(self.dumped@.push(pv));
                            proof {
                                assert(self.core.consumed().drop_last().push(
                                    self.core.consumed().last(),
                                ) =~= self.core.consumed());
                            }
                        },
                        Some(w) => {
                            self.pending_dump = Some(w);
                        },
                    }
                },
                None => {},
            }
        } else {
            match ch_try_recv(payload_recv) {
                None => {},
                Some(p) => {
                    let stokes = clone_row(p.stokes_i());
                    let sums_opt = self.core.push(stokes);
                    proof {
                        assert(self.core.consumed().drop_last() =~= old(self).core.consumed());
                        let kk = old(self).factor();
                        let n0 = old(self).consumed().len() as int;
                        let n1 = n0 + 1;
                        let q1 = n1 / kk;
                        lemma_fundamental_div_mod(n1, kk);
                        lemma_mod_division_less_than_divisor(n1, kk);
                        assert(kk * q1 == q1 * kk) by (nonlinear_arith);
                        if n1 % kk == 0 {
                            assert((q1 - 1) * kk == q1 * kk - kk) by (nonlinear_arith);
                            lemma_fundamental_div_mod_converse(n0, kk, q1 - 1, kk - 1);
                        } else {
                            lemma_fundamental_div_mod_converse(n0, kk, q1, n1 % kk - 1);
                        }
                        lemma_fundamental_div_mod(n0, kk);
                        lemma_mod_division_less_than_divisor(n0, kk);
                        assert(kk * (n0 / kk) == (n0 / kk) * kk) by (nonlinear_arith);
                        assert((n0 / kk) * kk <= n0);
                        assert forall|w: int|
                            0 <= w < self.emitted@.len() implies #[trigger] window_sums(
                            self.core.consumed(),
                            kk,
                            w,
                            CHANNELS as int,
                        ) == window_sums(old(self).consumed(), kk, w, CHANNELS as int) by {
                            assert(w + 1 <= n0 / kk);
                            assert((w + 1) * kk <= (n0 / kk) * kk) by (nonlinear_arith)
                                requires
                                    w + 1 <= n0 / kk,
                                    kk >= 1,
                            ;
                            assert(0 <= w * kk) by (nonlinear_arith)
                                requires
                                    w >= 0,
                                    kk >= 1,
                            ;
                            assert((w + 1) * kk == w * kk + kk) by (nonlinear_arith);
                            assert(self.core.consumed().subrange(w * kk, (w + 1) * kk)
                                =~= old(self).consumed().subrange(w * kk, (w + 1) * kk));
                            assert(window_sums(self.core.consumed(), kk, w, CHANNELS as int)
                                =~= window_sums(old(self).consumed(), kk, w, CHANNELS as int));
                        }
                    }
                    match sums_opt {
                        Some(sums) => {
                            let aw = AveragedWindow {
                                sums,
                                factor: self.core.downsample_factor(),
                            };
                            self.pending_avg = Some(aw);
                        },
                        None => {},
                    }
                    self.pending_dump = Some(p);
                },
            }
        }
    }
}

/// The blocking-mode stage: the same averaging core behind suspending
/// handoffs and with no dump replication. Each `step` consumes exactly one
/// payload, waiting as long as it takes, and a permanently closed channel is
/// fatal rather than retried.
pub struct BlockingStage {
    core: Downsampler,
}

impl BlockingStage {
    /// The configured downsample factor.
    pub closed spec fn factor(self) -> int {
        self.core.factor()
    }

    /// Every intensity vector consumed from upstream so far, in order.
    pub closed spec fn consumed(self) -> Seq<Seq<u16>> {
        self.core.consumed()
    }

    /// Well-formedness of the underlying averaging core.
    pub closed spec fn wf(self) -> bool {
        &&& self.core.wf()
        &&& 1 <= self.core.factor()
        &&& self.core.channels() == CHANNELS as int
    }

    /// Builds an idle blocking stage that averages every `downsample_factor`
    /// payloads.
    pub fn new(downsample_factor: u16) -> (s: Self)
        requires
            downsample_factor >= 1,
        ensures
            s.wf(),
            s.factor() == downsample_factor,
            s.consumed() == Seq::<Seq<u16>>::empty(),
    {
        BlockingStage { core: Downsampler::new(CHANNELS, downsample_factor) }
    }

    /// One blocking-mode iteration: suspends until the next payload arrives,
    /// feeds the averaging core, and, when a window completes, suspends
    /// until the averaged result is accepted downstream. A closed channel
    /// ends the stage with the matching exit cause; the consumed payload is
    /// dropped, as this discipline keeps no dump output.
    pub fn step(
        &mut self,
        payload_recv: &crossbeam_channel::Receiver<Payload>,
        stokes_send: &crossbeam_channel::Sender<AveragedWindow>,
    ) -> (r: Result<(), StageExit>)
        requires
            old(self).wf(),
        ensures
            final(self).wf(),
            final(self).factor() == old(self).factor(),
            r == Result::<(), StageExit>::Err(StageExit::UpstreamClosed) ==> *final(self)
                == *old(self),
            r != Result::<(), StageExit>::Err(StageExit::UpstreamClosed) ==> {
                &&& final(self).consumed().len() == old(self).consumed().len() + 1
                &&& final(self).consumed().drop_last() == old(self).consumed()
            },
            r == Result::<(), StageExit>::Err(StageExit::DownstreamClosed)
                ==> final(self).consumed().len() as int % final(self).factor() == 0,
    {
        match ch_recv(payload_recv) {
            None => Result::Err(StageExit::UpstreamClosed),
            Some(p) => {
                let stokes = clone_row(p.stokes_i());
                let sums_opt = self.core.push(stokes);
                proof {
                    assert(self.core.consumed().drop_last() =~= old(self).core.consumed());
                }
                match sums_opt {
                    Some(sums) => {
                        let aw = AveragedWindow { sums, factor: self.core.downsample_factor() };
                        if ch_send(stokes_send, aw) {
                            Result::Ok(())
                        } else {
                            Result::Err(StageExit::DownstreamClosed)
                        }
                    },
                    None => Result::Ok(()),
                }
            },
        }
    }
}

} // verus!
