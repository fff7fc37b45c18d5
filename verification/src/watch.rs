//! The runtime-version watch: a subscription that pushes distinct version
//! transitions exactly once each.
//!
//! The watch consumes a feed of change notifications restricted to the
//! storage key holding the runtime code.  On each notification the version at
//! the current best block is recomputed and handed to the machine as a tick:
//! a changed version is delivered and remembered, an unchanged one is
//! suppressed, a failed recomputation is suppressed without ending the
//! subscription.  After unsubscription nothing is delivered; unsubscribing
//! again changes nothing.

use vstd::prelude::*;

use crate::version::RuntimeVersion;
use crate::version::VersionView;

verus! {

/// One tick of the feed: the recomputed version at the best block, or the
/// failure to compute it.
pub enum VersionTick {
    /// The version was recomputed.
    Computed(RuntimeVersion),
    /// Recomputing the version failed; the tick is suppressed.
    Failed,
}

/// What a tick carries, mathematically.
pub open spec fn tick_view(t: VersionTick) -> Option<VersionView> {
    match t {
        VersionTick::Computed(v) => Some(v@),
        VersionTick::Failed => None,
    }
}

/// Mathematical state of the watch.
pub struct WatchView {
    pub previous: Option<VersionView>,
    pub terminated: bool,
}

/// What one tick delivers, given the last delivered version.
pub open spec fn step_delivery(prev: Option<VersionView>, t: Option<VersionView>) -> Option<
    VersionView,
> {
    match t {
        Some(v) => if prev == Some(v) {
            None
        } else {
            Some(v)
        },
        None => None,
    }
}

/// The last delivered version after one tick.
pub open spec fn step_state(prev: Option<VersionView>, t: Option<VersionView>) -> Option<
    VersionView,
> {
    match step_delivery(prev, t) {
        Some(v) => Some(v),
        None => prev,
    }
}

/// Everything a run of ticks delivers, in order.
pub open spec fn run_deliveries(prev: Option<VersionView>, ticks: Seq<Option<VersionView>>) -> Seq<
    VersionView,
>
    decreases ticks.len(),
{
    if ticks.len() == 0 {
        Seq::empty()
    } else {
        let rest = run_deliveries(step_state(prev, ticks[0]), ticks.drop_first());
        match step_delivery(prev, ticks[0]) {
            Some(v) => seq![v] + rest,
            None => rest,
        }
    }
}

/// The last delivered version after a run of ticks.
pub open spec fn run_final(prev: Option<VersionView>, ticks: Seq<Option<VersionView>>) -> Option<
    VersionView,
>
    decreases ticks.len(),
{
    if ticks.len() == 0 {
        prev
    } else {
        run_final(step_state(prev, ticks[0]), ticks.drop_first())
    }
}

/// No run ever delivers the same version twice in a row, nor repeats the
/// version delivered just before the run started.
pub proof fn lemma_watch_never_repeats(prev: Option<VersionView>, ticks: Seq<Option<VersionView>>)
    ensures
        forall|i: int|
            1 <= i < run_deliveries(prev, ticks).len() ==> #[trigger] run_deliveries(
                prev,
                ticks,
            )[i] != run_deliveries(prev, ticks)[i - 1],
        run_deliveries(prev, ticks).len() > 0 ==> (prev matches Some(p) ==> run_deliveries(
            prev,
            ticks,
        )[0] != p),
        run_deliveries(prev, ticks).len() > 0 ==> run_final(prev, ticks) == Some(
            run_deliveries(prev, ticks).last(),
        ),
        run_deliveries(prev, ticks).len() == 0 ==> run_final(prev, ticks) == prev,
    decreases ticks.len(),
{
    if ticks.len() > 0 {
        let p1 = step_state(prev, ticks[0]);
        let rest = run_deliveries(p1, ticks.drop_first());
        lemma_watch_never_repeats(p1, ticks.drop_first());
        match step_delivery(prev, ticks[0]) {
            Some(v) => {
                let whole = seq![v] + rest;
                assert(whole[0] == v);
                assert(forall|i: int| 1 <= i < whole.len() ==> whole[i] == rest[i - 1]);
                if rest.len() > 0 {
                    assert(whole[1] != whole[0]);
                }
            },
            None => {},
        }
    }
}

/// The watch machine: the last delivered version, and whether the
/// subscription has ended.
pub struct SubscriptionSinks {
    previous: Option<RuntimeVersion>,
    terminated: bool,
}

impl View for SubscriptionSinks {
    type V = WatchView;

    closed spec fn view(&self) -> WatchView {
        WatchView {
            previous: match self.previous {
                Some(v) => Some(v@),
                None => None,
            },
            terminated: self.terminated,
        }
    }
}

impl SubscriptionSinks {
    /// A fresh watch: nothing delivered yet, not terminated.
    pub fn new() -> (r: SubscriptionSinks)
        ensures
            r@ == (WatchView { previous: None::<VersionView>, terminated: false }),
    {
        SubscriptionSinks { previous: None, terminated: false }
    }

    /// Feeds one tick.  A terminated watch delivers nothing and keeps its
    /// state; otherwise the tick's delivery is returned and remembered.
    pub fn on_tick(&mut self, tick: &VersionTick) -> (r: Option<RuntimeVersion>)
        ensures
            old(self)@.terminated ==> r is None && final(self)@ == old(self)@,
            !old(self)@.terminated ==> {
                &&& (match r {
                    Some(v) => step_delivery(old(self)@.previous, tick_view(*tick)) == Some(v@),
                    None => step_delivery(old(self)@.previous, tick_view(*tick)) is None,
                })
                &&& final(self)@ == (WatchView {
                    previous: step_state(old(self)@.previous, tick_view(*tick)),
                    terminated: false,
                })
            },
    {
        if self.terminated {
            return None;
        }
        match tick {
            VersionTick::Failed => None,
            VersionTick::Computed(v) => {
                let same = match &self.previous {
                    Some(p) => p == v,
                    None => false,
                };
                if same {
                    None
                } else {
                    self.previous = Some(v.duplicate());
                    Some(v.duplicate())
                }
            },
        }
    }

    /// Ends the subscription: nothing is delivered afterwards.  Unsubscribing
    /// an already-terminated watch changes nothing.
    pub fn unsubscribe(&mut self)
        ensures
            final(self)@ == (WatchView { previous: old(self)@.previous, terminated: true }),
    {
        self.terminated = true;
    }

    /// Runs a fresh subscription over a recorded feed: the version at
    /// subscription time is delivered first, then every tick is fed in feed
    /// order.  The returned sequence is exactly what the run delivers.
    pub fn subscribe(&mut self, initial: &RuntimeVersion, ticks: &Vec<VersionTick>) -> (out: Vec<
        RuntimeVersion,
    >)
        requires
            old(self)@ == (WatchView { previous: None::<VersionView>, terminated: false }),
        ensures
            out.deep_view() == run_deliveries(
                None,
                seq![Some(initial@)] + Seq::new(ticks@.len(), |i: int| tick_view(ticks@[i])),
            ),
            final(self)@.terminated == false,
            final(self)@.previous == run_final(
                None,
                seq![Some(initial@)] + Seq::new(ticks@.len(), |i: int| tick_view(ticks@[i])),
            ),
    {
        let ghost total = seq![Some(initial@)] + Seq::new(
            ticks@.len(),
            |i: int| tick_view(ticks@[i]),
        );
        let mut out: Vec<RuntimeVersion> = Vec::new();
        let first = self.on_tick(&VersionTick::Computed(initial.duplicate()));
        match first {
            Some(v) => {
                out.push(v);
            },
            None => {},
        }
        proof {
            assert(total.drop_first() =~= Seq::new(ticks@.len(), |i: int| tick_view(ticks@[i])));
            assert(total.skip(1) =~= total.drop_first());
            assert(out.deep_view() =~= seq![initial@]);
            assert(run_deliveries(None, total) == seq![initial@] + run_deliveries(
                self@.previous,
                total.skip(1),
            ));
            assert(out.deep_view() + run_deliveries(self@.previous, total.skip(1))
                =~= run_deliveries(None, total));
            assert(run_final(None, total) == run_final(self@.previous, total.skip(1)));
        }
        let mut i: usize = 0;
        while i < ticks.len()
            invariant
                i <= ticks@.len(),
                total == seq![Some(initial@)] + Seq::new(
                    ticks@.len(),
                    |k: int| tick_view(ticks@[k]),
                ),
                self@.terminated == false,
                out.deep_view() + run_deliveries(self@.previous, total.skip(1 + i as int))
                    =~= run_deliveries(None, total),
                run_final(None, total) == run_final(self@.previous, total.skip(1 + i as int)),
            decreases ticks@.len() - i,
        {
            let ghost pre_prev = self@.previous;
            let ghost pre_out = out.deep_view();
            proof {
                assert(total.skip(1 + i as int).drop_first() =~= total.skip(2 + i as int));
                assert(total.skip(1 + i as int)[0] == tick_view(ticks@[i as int]));
            }
            let d = self.on_tick(&ticks[i]);
            match d {
                Some(v) => {
                    let ghost vv = v@;
                    out.push(v);
                    proof {
                        assert(out.deep_view() =~= pre_out.push(vv));
                        assert(pre_out.push(vv) =~= pre_out + seq![vv]);
                    }
                },
                None => {},
            }
            i = i + 1;
        }
        proof {
            assert(total.skip(1 + ticks@.len() as int) =~= Seq::<Option<VersionView>>::empty());
            assert(out.deep_view() + Seq::<VersionView>::empty() =~= out.deep_view());
        }
        out
    }
}

} // verus!
