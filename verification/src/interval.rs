//! Pairing the resolved entries into worked intervals.
//!
//! One forward pass with a single pending slot: a clock-in opens a session; a
//! clock-out closes it; a second clock-in with no clock-out between closes
//! the first session implicitly at the new session's start — that is how the
//! log spells "switched job without clocking out". A clock-out with nothing
//! open, or one earlier than its clock-in, is a non-fatal anomaly: it is
//! reported, produces no interval, and the pass goes on.

use vstd::prelude::*;

use crate::clockin::{Clockin, ClockinV, InData, InDataV};
use crate::s_time::STime;
use crate::text::clone_string_vec;

verus! {

/// One worked session: the clock-in with its context, and the closing time.
#[derive(Debug)]
pub struct Interval {
    pub data: InData,
    pub out: STime,
}

/// The mathematical value of an `Interval`.
pub ghost struct IntervalV {
    pub data: InDataV,
    pub out: int,
}

impl View for Interval {
    type V = IntervalV;

    open spec fn view(&self) -> IntervalV {
        IntervalV { data: self.data@, out: self.out@ }
    }
}

impl DeepView for Interval {
    type V = IntervalV;

    open spec fn deep_view(&self) -> IntervalV {
        self@
    }
}

/// A non-fatal oddity found while pairing.
#[derive(Debug, PartialEq)]
pub enum Anomaly {
    /// A clock-out with no session open.
    UnmatchedOut,
    /// A clock-out earlier than the clock-in read on this line; the pairing
    /// is skipped.
    NegativeTime(usize),
}

/// The mathematical value of an `Anomaly`.
pub ghost enum AnomalyV {
    UnmatchedOut,
    NegativeTime(int),
}

impl View for Anomaly {
    type V = AnomalyV;

    open spec fn view(&self) -> AnomalyV {
        match self {
            Anomaly::UnmatchedOut => AnomalyV::UnmatchedOut,
            Anomaly::NegativeTime(l) => AnomalyV::NegativeTime(*l as int),
        }
    }
}

impl DeepView for Anomaly {
    type V = AnomalyV;

    open spec fn deep_view(&self) -> AnomalyV {
        self@
    }
}

/// What one pass over the entries leaves: the intervals in the source order
/// of their clock-ins, the still-open session if one remains, and the
/// anomalies in encounter order.
pub struct Reconstruction {
    pub intervals: Vec<Interval>,
    pub open_in: Option<InData>,
    pub anomalies: Vec<Anomaly>,
}

/// The mathematical value of a `Reconstruction`.
pub ghost struct ReconV {
    pub intervals: Seq<IntervalV>,
    pub open_in: Option<InDataV>,
    pub anomalies: Seq<AnomalyV>,
}

/// `rest` with one interval put first.
pub open spec fn recon_with_interval(iv: IntervalV, rest: ReconV) -> ReconV {
    ReconV { intervals: seq![iv] + rest.intervals, ..rest }
}

/// `rest` with one anomaly put first.
pub open spec fn recon_with_anomaly(a: AnomalyV, rest: ReconV) -> ReconV {
    ReconV { anomalies: seq![a] + rest.anomalies, ..rest }
}

/// The reconstruction pass over `cs`, with `cur` the session already open.
pub open spec fn spec_recon(cs: Seq<ClockinV>, cur: Option<InDataV>) -> ReconV
    decreases cs.len(),
{
    if cs.len() == 0 {
        ReconV { intervals: Seq::empty(), open_in: cur, anomalies: Seq::empty() }
    } else {
        let tail = cs.subrange(1, cs.len() as int);
        match cs[0] {
            ClockinV::In(d) => match cur {
                Some(p) => recon_with_interval(
                    IntervalV { data: p, out: d.time },
                    spec_recon(tail, Some(d)),
                ),
                None => spec_recon(tail, Some(d)),
            },
            ClockinV::Out(t) => match cur {
                Some(p) => if t < p.time {
                    recon_with_anomaly(AnomalyV::NegativeTime(p.line), spec_recon(tail, None))
                } else {
                    recon_with_interval(IntervalV { data: p, out: t }, spec_recon(tail, None))
                },
                None => recon_with_anomaly(AnomalyV::UnmatchedOut, spec_recon(tail, None)),
            },
        }
    }
}

/// A fold result with `ivs` and `anos` already emitted before it.
pub open spec fn recon_combine(ivs: Seq<IntervalV>, anos: Seq<AnomalyV>, rest: ReconV) -> ReconV {
    ReconV {
        intervals: ivs + rest.intervals,
        open_in: rest.open_in,
        anomalies: anos + rest.anomalies,
    }
}

/// Law: two clock-ins in a row with no clock-out between close the first
/// session at the second session's start — the first interval runs from the
/// first clock-in to the second clock-in's time, and the pass goes on with
/// the second session open.
pub proof fn lemma_auto_close(a: InDataV, b: InDataV, rest: Seq<ClockinV>)
    ensures
        spec_recon(seq![ClockinV::In(a), ClockinV::In(b)] + rest, None) == recon_with_interval(
            IntervalV { data: a, out: b.time },
            spec_recon(rest, Some(b)),
        ),
{
    reveal_with_fuel(spec_recon, 3);
    let cs = seq![ClockinV::In(a), ClockinV::In(b)] + rest;
    let t1 = cs.subrange(1, cs.len() as int);
    assert(t1.subrange(1, t1.len() as int) =~= rest);
}

/// Law: a clock-out with no session open is reported as an anomaly, produces
/// no interval, and does not stop the pass: everything after it is paired
/// exactly as it would be on its own.
pub proof fn lemma_unmatched_out(t: int, rest: Seq<ClockinV>)
    ensures
        spec_recon(seq![ClockinV::Out(t)] + rest, None) == recon_with_anomaly(
            AnomalyV::UnmatchedOut,
            spec_recon(rest, None),
        ),
{
    let cs = seq![ClockinV::Out(t)] + rest;
    assert(cs.subrange(1, cs.len() as int) =~= rest);
}

/// A copy of one clock-in's data, character for character.
fn dup_in_data(d: &InData) -> (r: InData)
    ensures
        r@ == d@,
{
    InData {
        time: d.time,
        date: d.date,
        job: d.job.clone(),
        tags: clone_string_vec(&d.tags),
        line: d.line,
    }
}

/// Pairs the entries into intervals, reporting the still-open session and
/// every anomaly, and never stopping early.
pub fn reconstruct_intervals(clocks: Vec<Clockin>) -> (r: Reconstruction)
    ensures
        ({
            let m = spec_recon(clocks.deep_view(), None);
            &&& r.intervals.deep_view() == m.intervals
            &&& r.anomalies.deep_view() == m.anomalies
            &&& r.open_in.deep_view() == m.open_in
        }),
{
    let ghost all = clocks.deep_view();
    let ghost target = spec_recon(all, None);
    let mut intervals: Vec<Interval> = Vec::new();
    let mut anomalies: Vec<Anomaly> = Vec::new();
    let mut cur: Option<InData> = None;
    let mut k: usize = 0;
    proof {
        assert(all.skip(0) =~= all);
        assert(intervals.deep_view() =~= Seq::<IntervalV>::empty());
        assert(anomalies.deep_view() =~= Seq::<AnomalyV>::empty());
        assert(Seq::<IntervalV>::empty() + target.intervals =~= target.intervals);
        assert(Seq::<AnomalyV>::empty() + target.anomalies =~= target.anomalies);
    }
    while k < clocks.len()
        invariant
            k <= clocks@.len(),
            all == clocks.deep_view(),
            target == spec_recon(all, None),
            target == recon_combine(
                intervals.deep_view(),
                anomalies.deep_view(),
                spec_recon(all.skip(k as int), cur.deep_view()),
            ),
        decreases clocks@.len() - k,
    {
        let ghost suffix = all.skip(k as int);
        let ghost rest0 = spec_recon(suffix, cur.deep_view());
        let ghost pre_ivs = intervals.deep_view();
        let ghost pre_anos = anomalies.deep_view();
        proof {
            assert(suffix[0] == all[k as int]);
            assert(suffix.subrange(1, suffix.len() as int) =~= all.skip(k as int + 1));
        }
        match &clocks[k] {
            Clockin::In(d) => {
                let dd = dup_in_data(d);
                match cur {
                    Some(p) => {
                        let ghost iv = IntervalV { data: p@, out: dd.time@ };
                        intervals.push(Interval { data: p, out: dd.time });
                        cur = Some(dd);
                        proof {
                            let rest1 = spec_recon(all.skip(k as int + 1), cur.deep_view());
                            assert(rest0 == recon_with_interval(iv, rest1));
                            assert(intervals.deep_view() =~= pre_ivs + seq![iv]);
                            assert(pre_ivs + (seq![iv] + rest1.intervals) =~= (pre_ivs + seq![iv])
                                + rest1.intervals);
                            assert(target == recon_combine(
                                intervals.deep_view(),
                                anomalies.deep_view(),
                                rest1,
                            ));
                        }
                    },
                    None => {
                        cur = Some(dd);
                        proof {
                            let rest1 = spec_recon(all.skip(k as int + 1), cur.deep_view());
                            assert(rest0 == rest1);
                        }
                    },
                }
            },
            Clockin::Out(t) => {
                let tv = *t;
                match cur {
                    Some(p) => {
                        if tv.minutes() < p.time.minutes() {
                            let ghost an = AnomalyV::NegativeTime(p.line as int);
                            anomalies.push(Anomaly::NegativeTime(p.line));
                            cur = None;
                            proof {
                                let rest1 = spec_recon(all.skip(k as int + 1), cur.deep_view());
                                assert(rest0 == recon_with_anomaly(an, rest1));
                                assert(anomalies.deep_view() =~= pre_anos + seq![an]);
                                assert(pre_anos + (seq![an] + rest1.anomalies) =~= (pre_anos + seq![
                                    an,
                                ]) + rest1.anomalies);
                                assert(target == recon_combine(
                                    intervals.deep_view(),
                                    anomalies.deep_view(),
                                    rest1,
                                ));
                            }
                        } else {
                            let ghost iv = IntervalV { data: p@, out: tv@ };
                            intervals.push(Interval { data: p, out: tv });
                            cur = None;
                            proof {
                                let rest1 = spec_recon(all.skip(k as int + 1), cur.deep_view());
                                assert(rest0 == recon_with_interval(iv, rest1));
                                assert(intervals.deep_view() =~= pre_ivs + seq![iv]);
                                assert(pre_ivs + (seq![iv] + rest1.intervals) =~= (pre_ivs + seq![
                                    iv,
                                ]) + rest1.intervals);
                                assert(target == recon_combine(
                                    intervals.deep_view(),
                                    anomalies.deep_view(),
                                    rest1,
                                ));
                            }
                        }
                    },
                    None => {
                        anomalies.push(Anomaly::UnmatchedOut);
                        cur = None;
                        proof {
                            let rest1 = spec_recon(all.skip(k as int + 1), cur.deep_view());
                            assert(rest0 == recon_with_anomaly(AnomalyV::UnmatchedOut, rest1));
                            assert(anomalies.deep_view() =~= pre_anos + seq![
                                AnomalyV::UnmatchedOut,
                            ]);
                            assert(pre_anos + (seq![AnomalyV::UnmatchedOut] + rest1.anomalies) =~= (
                            pre_anos + seq![AnomalyV::UnmatchedOut]) + rest1.anomalies);
                            assert(target == recon_combine(
                                intervals.deep_view(),
                                anomalies.deep_view(),
                                rest1,
                            ));
                        }
                    },
                }
            },
        }
        k += 1;
    }
    proof {
        assert(all.skip(clocks@.len() as int) =~= Seq::<ClockinV>::empty());
        assert(intervals.deep_view() + Seq::<IntervalV>::empty() =~= intervals.deep_view());
        assert(anomalies.deep_view() + Seq::<AnomalyV>::empty() =~= anomalies.deep_view());
    }
    Reconstruction { intervals, open_in: cur, anomalies }
}

} // verus!
