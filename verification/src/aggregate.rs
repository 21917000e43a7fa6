//! The aggregation state machine: the single consumer of every worker's
//! reports.
//!
//! It tracks the smallest digest reported by any worker together with each
//! worker's latest reported candidate, one display row per worker ordinal.
//! An improvement updates the row and, when strictly smaller, the global
//! minimum; an exhaustion report changes nothing here — the row keeps its
//! last candidate.  Rendering and the cancellation signal that ends the
//! event loop live outside the library; the loop hands each received report
//! to `App::handle`.

use crate::hash::{clone_bytes, max, max_digest, Report, WithNonce};
use crate::order::{
    bytes_le, bytes_lt, lemma_bytes_le_transitive, lemma_bytes_lt_irreflexive,
    lemma_bytes_lt_transitive,
};
use vstd::prelude::*;

verus! {

/// The digest carried by a report: the new local minimum of an improvement,
/// nothing for an exhaustion report.
pub open spec fn report_digest(r: Report) -> Option<Seq<u8>> {
    match r.1 {
        Some(h) => Some(h.0@),
        None => None,
    }
}

/// One update of the tracked global minimum digest by one report's digest:
/// a strictly smaller digest replaces it, anything else leaves it.
pub open spec fn min_step(m: Seq<u8>, d: Option<Seq<u8>>) -> Seq<u8> {
    match d {
        Some(h) => if bytes_lt(h, m) {
            h
        } else {
            m
        },
        None => m,
    }
}

/// The global minimum digest after a whole sequence of report digests.
pub open spec fn min_after(init: Seq<u8>, ds: Seq<Option<Seq<u8>>>) -> Seq<u8>
    decreases ds.len(),
{
    if ds.len() == 0 {
        init
    } else {
        min_step(min_after(init, ds.drop_last()), ds.last())
    }
}

/// One update never increases the minimum.
pub proof fn lemma_min_step_le(m: Seq<u8>, d: Option<Seq<u8>>)
    ensures
        bytes_le(min_step(m, d), m),
{
    match d {
        Some(h) => {
            if bytes_lt(h, m) {
                if bytes_lt(m, h) {
                    lemma_bytes_lt_transitive(h, m, h);
                }
                lemma_bytes_lt_irreflexive(h);
            } else {
                lemma_bytes_lt_irreflexive(m);
            }
        },
        None => {
            lemma_bytes_lt_irreflexive(m);
        },
    }
}

/// The aggregator's minimum is non-increasing over the run: after any
/// sequence of reports it is no larger than where it started.
pub proof fn lemma_min_after_monotonic(init: Seq<u8>, ds: Seq<Option<Seq<u8>>>)
    ensures
        bytes_le(min_after(init, ds), init),
    decreases ds.len(),
{
    if ds.len() == 0 {
        lemma_bytes_lt_irreflexive(init);
    } else {
        lemma_min_after_monotonic(init, ds.drop_last());
        lemma_min_step_le(min_after(init, ds.drop_last()), ds.last());
        lemma_bytes_le_transitive(min_after(init, ds), min_after(init, ds.drop_last()), init);
    }
}

/// At every point the aggregator's minimum is no larger than any improved
/// digest received so far.
pub proof fn lemma_min_after_bounded(init: Seq<u8>, ds: Seq<Option<Seq<u8>>>, k: int)
    requires
        0 <= k < ds.len(),
        ds[k] is Some,
    ensures
        bytes_le(min_after(init, ds), ds[k]->Some_0),
    decreases ds.len(),
{
    let prev = min_after(init, ds.drop_last());
    if k == ds.len() - 1 {
        if bytes_lt(ds[k]->Some_0, prev) {
            lemma_bytes_lt_irreflexive(ds[k]->Some_0);
        }
    } else {
        lemma_min_after_bounded(init, ds.drop_last(), k);
        lemma_min_step_le(prev, ds.last());
        lemma_bytes_le_transitive(min_after(init, ds), prev, ds[k]->Some_0);
    }
}

/// The aggregator's state: the smallest candidate reported by any worker,
/// each worker's latest reported candidate by ordinal, and the shared
/// prefix text the run was started with.
pub struct App {
    pub minimum: WithNonce,
    pub display: Vec<Report>,
    pub prefix: String,
}

impl App {
    /// A fresh aggregator: the maximal candidate as the minimum and one
    /// empty display row per worker ordinal.
    pub fn new(cores: Vec<usize>, prefix: String) -> (app: App)
        ensures
            app.minimum.0@ == max_digest(),
            app.minimum.1@ == Seq::<char>::empty(),
            app.display@.len() == cores@.len(),
            forall|i: int|
                0 <= i < cores@.len() ==> app.display@[i].0 == cores@[i] && app.display@[i].1
                    is None,
            app.prefix == prefix,
    {
        let minimum = max();
        let mut display: Vec<Report> = Vec::new();
        let mut k: usize = 0;
        while k < cores.len()
            invariant
                k <= cores@.len(),
                display@.len() == k,
                forall|i: int|
                    0 <= i < k ==> display@[i].0 == cores@[i] && display@[i].1 is None,
            decreases cores@.len() - k,
        {
            let c = cores[k];
            display.push((c, None));
            k = k + 1;
        }
        App { minimum, display, prefix }
    }

    /// Applies one report.  An improvement becomes the worker's display row
    /// and, when strictly smaller than the global minimum, the new global
    /// minimum — a tie never replaces it.  An exhaustion report leaves the
    /// state as it is.  Either way the minimum never increases and is no
    /// larger than an improvement just received.
    pub fn handle(&mut self, report: Report)
        requires
            report.1 is Some ==> report.0 < old(self).display@.len(),
        ensures
            final(self).prefix == old(self).prefix,
            final(self).minimum.0@ == min_step(old(self).minimum.0@, report_digest(report)),
            report.1 matches Some(h) ==> {
                &&& final(self).minimum.1@ == (if bytes_lt(h.0@, old(self).minimum.0@) {
                    h.1@
                } else {
                    old(self).minimum.1@
                })
                &&& final(self).display@ == old(self).display@.update(report.0 as int, report)
            },
            report.1 is None ==> final(self).minimum == old(self).minimum && final(self).display
                == old(self).display,
            bytes_le(final(self).minimum.0@, old(self).minimum.0@),
            report.1 matches Some(h) ==> bytes_le(final(self).minimum.0@, h.0@),
    {
        let (ordinal, payload) = report;
        match payload {
            Some(h) => {
                proof {
                    if bytes_lt(h.0@, self.minimum.0@) {
                        if bytes_lt(self.minimum.0@, h.0@) {
                            lemma_bytes_lt_transitive(h.0@, self.minimum.0@, h.0@);
                        }
                        lemma_bytes_lt_irreflexive(h.0@);
                    } else {
                        lemma_bytes_lt_irreflexive(self.minimum.0@);
                    }
                }
                if crate::hash::is_less(&h.0, &self.minimum.0) {
                    self.minimum = (clone_bytes(&h.0), h.1.clone());
                }
                self.display[ordinal] = (ordinal, Some(h));
            },
            None => {
                proof {
                    lemma_bytes_lt_irreflexive(self.minimum.0@);
                }
            },
        }
    }
}

} // verus!
