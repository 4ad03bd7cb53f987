//! Rolling per-symbol context used to score incoming insider filings.
use std::collections::VecDeque;
use vstd::hash_set::StringHashSet;
use vstd::prelude::*;

use crate::types::Direction;

verus! {

/// How many market ticks a symbol keeps; older ones are dropped first.
pub const TICK_HISTORY: usize = 512;

/// One insider transaction as the cluster detector sees it.
#[derive(Debug, Clone)]
pub struct InsiderEvent {
    pub filer_cik: String,
    pub direction: Direction,
    /// When the filing was observed, in nanoseconds since the Unix epoch.
    pub at: i64,
}

/// Rolling per-symbol context: recent ticks, and the recent insider
/// transactions used for cluster detection (multiple distinct insiders
/// trading the same direction close together is historically a stronger
/// signal than a single filing).
#[derive(Debug)]
pub struct SymbolState<T> {
    pub ticks: VecDeque<T>,
    pub recent_insider_events: VecDeque<InsiderEvent>,
}

/// The tick history after `tick` arrives: appended, and the oldest tick
/// dropped once the history would exceed its cap.
pub open spec fn ticks_after_push<T>(ticks: Seq<T>, tick: T) -> Seq<T> {
    if ticks.len() + 1 > TICK_HISTORY {
        ticks.push(tick).drop_first()
    } else {
        ticks.push(tick)
    }
}

/// How many events at the front of `events` are older than `cutoff`,
/// counted up to the first one that is not.
pub open spec fn stale_prefix_len(events: Seq<InsiderEvent>, cutoff: int) -> nat
    decreases events.len(),
{
    if events.len() == 0 {
        0
    } else if events[0].at < cutoff {
        1 + stale_prefix_len(events.drop_first(), cutoff)
    } else {
        0
    }
}

/// The event window after `ev` arrives with the given window length: `ev` is
/// appended, then events are dropped from the front while the front one is
/// older than `ev.at - window`.
pub open spec fn window_after_push(events: Seq<InsiderEvent>, ev: InsiderEvent, window: int) -> Seq<InsiderEvent> {
    let pushed = events.push(ev);
    pushed.skip(stale_prefix_len(pushed, ev.at - window) as int)
}

/// The distinct filer CIKs among the events that trade in direction `d`.
pub open spec fn filer_set(events: Seq<InsiderEvent>, d: Direction) -> Set<Seq<char>>
    decreases events.len(),
{
    if events.len() == 0 {
        Set::empty()
    } else {
        let rest = filer_set(events.drop_last(), d);
        if events.last().direction == d {
            rest.insert(events.last().filer_cik@)
        } else {
            rest
        }
    }
}

impl<T> SymbolState<T> {
    /// A state with no ticks and no insider events.
    pub fn new() -> (s: Self)
        ensures
            s.ticks@ == Seq::<T>::empty(),
            s.recent_insider_events@ == Seq::<InsiderEvent>::empty(),
    {
        SymbolState { ticks: VecDeque::new(), recent_insider_events: VecDeque::new() }
    }

    /// Records a market tick, keeping at most `TICK_HISTORY` of the newest.
    pub fn push_tick(&mut self, tick: T)
        ensures
            final(self).ticks@ == ticks_after_push(old(self).ticks@, tick),
            final(self).recent_insider_events@ == old(self).recent_insider_events@,
    {
        self.ticks.push_back(tick);
        if self.ticks.len() > TICK_HISTORY {
            self.ticks.pop_front();
        }
    }

    /// The most recent tick, if any.
    pub fn last_tick(&self) -> (t: Option<&T>)
        ensures
            self.ticks@.len() == 0 ==> t is None,
            self.ticks@.len() > 0 ==> t == Some(&self.ticks@.last()),
    {
        let n: usize = self.ticks.len();
        if n == 0 {
            None
        } else {
            Some(&self.ticks[n - 1])
        }
    }

    /// Records an insider transaction and trims the window: events older
    /// than `ev.at - cluster_window` (nanoseconds) are dropped from the
    /// front, stopping at the first event that is recent enough.
    pub fn push_insider_event(&mut self, ev: InsiderEvent, cluster_window: i64)
        ensures
            final(self).recent_insider_events@ == window_after_push(
                old(self).recent_insider_events@,
                ev,
                cluster_window as int,
            ),
            final(self).ticks@ == old(self).ticks@,
    {
        let ghost pushed = self.recent_insider_events@.push(ev);
        let ghost cut: int = ev.at - cluster_window;
        let cutoff: i128 = ev.at as i128 - cluster_window as i128;
        self.recent_insider_events.push_back(ev);
        let ghost mut popped: int = 0;
        assert(pushed.skip(0) =~= pushed);
        while self.recent_insider_events.len() > 0 && (self.recent_insider_events[0].at as i128) < cutoff
            invariant
                cutoff == cut,
                0 <= popped <= pushed.len(),
                self.recent_insider_events@ == pushed.skip(popped),
                stale_prefix_len(pushed, cut) == popped + stale_prefix_len(self.recent_insider_events@, cut),
                self.ticks@ == old(self).ticks@,
            decreases self.recent_insider_events@.len(),
        {
            let ghost before = self.recent_insider_events@;
            self.recent_insider_events.pop_front();
            proof {
                assert(self.recent_insider_events@ =~= before.drop_first());
                assert(pushed.skip(popped + 1) =~= before.drop_first());
                popped = popped + 1;
            }
        }
    }

    /// Count of distinct filers trading in `direction` among the events in
    /// the current window (already trimmed by `push_insider_event`).
    pub fn cluster_count(&self, direction: Direction) -> (n: usize)
        ensures
            n == filer_set(self.recent_insider_events@, direction).len(),
    {
        let mut ciks = StringHashSet::new();
        let len: usize = self.recent_insider_events.len();
        let mut i: usize = 0;
        while i < len
            invariant
                i <= len,
                len == self.recent_insider_events@.len(),
                ciks@ == filer_set(self.recent_insider_events@.take(i as int), direction),
            decreases len - i,
        {
            let e = &self.recent_insider_events[i];
            let ghost prefix = self.recent_insider_events@.take(i + 1);
            assert(prefix.drop_last() =~= self.recent_insider_events@.take(i as int));
            if e.direction == direction {
                ciks.insert(e.filer_cik.clone());
            }
            i = i + 1;
        }
        assert(self.recent_insider_events@.take(len as int) =~= self.recent_insider_events@);
        ciks.len()
    }
}

/// How many of `events` trade in direction `d`.
pub open spec fn direction_count(events: Seq<InsiderEvent>, d: Direction) -> nat
    decreases events.len(),
{
    if events.len() == 0 {
        0
    } else if events.last().direction == d {
        1 + direction_count(events.drop_last(), d)
    } else {
        direction_count(events.drop_last(), d)
    }
}

/// The tick history never grows past `TICK_HISTORY`, and its newest entry
/// is always the tick that arrived last.
pub proof fn lemma_tick_history_bounded<T>(ticks: Seq<T>, tick: T)
    requires
        ticks.len() <= TICK_HISTORY,
    ensures
        ticks_after_push(ticks, tick).len() <= TICK_HISTORY,
        ticks_after_push(ticks, tick).last() == tick,
        ticks.len() < TICK_HISTORY ==> ticks_after_push(ticks, tick) == ticks.push(tick),
{
}

proof fn lemma_stale_prefix(events: Seq<InsiderEvent>, cutoff: int)
    ensures
        stale_prefix_len(events, cutoff) <= events.len(),
        forall|i: int| 0 <= i < stale_prefix_len(events, cutoff) ==> #[trigger] events[i].at < cutoff,
        stale_prefix_len(events, cutoff) < events.len() ==> events[stale_prefix_len(events, cutoff) as int].at >= cutoff,
    decreases events.len(),
{
    if events.len() > 0 && events[0].at < cutoff {
        let rest = events.drop_first();
        lemma_stale_prefix(rest, cutoff);
        assert forall|i: int| 0 <= i < stale_prefix_len(events, cutoff) implies #[trigger] events[i].at < cutoff by {
            if i > 0 {
                assert(events[i] == rest[i - 1]);
            }
        }
        if stale_prefix_len(events, cutoff) < events.len() {
            assert(events[stale_prefix_len(events, cutoff) as int] == rest[stale_prefix_len(rest, cutoff) as int]);
        }
    }
}

/// Trimming the insider window drops exactly the run of events at the front
/// that are older than `ev.at - window`: what remains is a suffix of the old
/// window followed by `ev`, every dropped event is older than the cutoff,
/// the new front is not, and with a non-negative window `ev` itself stays.
pub proof fn lemma_window_trim(events: Seq<InsiderEvent>, ev: InsiderEvent, window: int)
    ensures
        ({
            let pushed = events.push(ev);
            let w = window_after_push(events, ev, window);
            let k: int = pushed.len() - w.len();
            &&& 0 <= k <= pushed.len()
            &&& w == pushed.skip(k)
            &&& forall|i: int| 0 <= i < k ==> #[trigger] pushed[i].at < ev.at - window
            &&& w.len() > 0 ==> w[0].at >= ev.at - window
            &&& window >= 0 ==> w.len() > 0 && w.last() == ev
        }),
{
    let pushed = events.push(ev);
    let cutoff: int = ev.at - window;
    lemma_stale_prefix(pushed, cutoff);
    let k: int = stale_prefix_len(pushed, cutoff) as int;
    let w = window_after_push(events, ev, window);
    assert(w.len() == pushed.len() - k);
    if w.len() > 0 {
        assert(w[0] == pushed[k]);
    }
    if window >= 0 {
        if k == pushed.len() {
            assert(pushed[pushed.len() - 1] == ev);
        }
        assert(w.last() == pushed.last());
    }
}

/// A filer is counted for direction `d` exactly when some event of the
/// window is theirs and trades in direction `d`.
pub proof fn lemma_filer_set_members(events: Seq<InsiderEvent>, d: Direction, cik: Seq<char>)
    ensures
        filer_set(events, d).contains(cik) <==> exists|i: int|
            0 <= i < events.len() && #[trigger] events[i].direction == d && events[i].filer_cik@ == cik,
    decreases events.len(),
{
    if events.len() > 0 {
        let rest = events.drop_last();
        lemma_filer_set_members(rest, d, cik);
        if filer_set(events, d).contains(cik) {
            if filer_set(rest, d).contains(cik) {
                let i: int = choose|i: int| 0 <= i < rest.len() && #[trigger] rest[i].direction == d && rest[i].filer_cik@ == cik;
                assert(events[i] == rest[i]);
            } else {
                assert(events[events.len() - 1].direction == d);
            }
        }
        if exists|i: int| 0 <= i < events.len() && #[trigger] events[i].direction == d && events[i].filer_cik@ == cik {
            let i: int = choose|i: int| 0 <= i < events.len() && #[trigger] events[i].direction == d && events[i].filer_cik@ == cik;
            if i < events.len() - 1 {
                assert(rest[i] == events[i]);
            }
        }
    }
}

/// The cluster count is finite, never exceeds the number of events trading in
/// that direction, and is positive as soon as one such event exists.
pub proof fn lemma_filer_set_bounds(events: Seq<InsiderEvent>, d: Direction)
    ensures
        filer_set(events, d).finite(),
        filer_set(events, d).len() <= direction_count(events, d),
        direction_count(events, d) <= events.len(),
        direction_count(events, d) > 0 ==> filer_set(events, d).len() > 0,
    decreases events.len(),
{
    if events.len() > 0 {
        lemma_filer_set_bounds(events.drop_last(), d);
        if events.last().direction == d {
            assert(filer_set(events, d).contains(events.last().filer_cik@));
        }
    }
}

/// Another event from a filer already counted for its direction leaves the
/// count unchanged; one from a new filer raises it by exactly one.
pub proof fn lemma_filer_set_push(events: Seq<InsiderEvent>, e: InsiderEvent)
    ensures
        filer_set(events, e.direction).contains(e.filer_cik@) ==> filer_set(events.push(e), e.direction).len() == filer_set(events, e.direction).len(),
        !filer_set(events, e.direction).contains(e.filer_cik@) ==> filer_set(events.push(e), e.direction).len() == filer_set(events, e.direction).len() + 1,
        forall|d: Direction| d != e.direction ==> filer_set(#[trigger] events.push(e), d) == filer_set(events, d),
{
    let pushed = events.push(e);
    assert(pushed.drop_last() =~= events);
    lemma_filer_set_bounds(events, e.direction);
    if filer_set(events, e.direction).contains(e.filer_cik@) {
        assert(filer_set(pushed, e.direction) =~= filer_set(events, e.direction));
    }
}

impl<T> Default for SymbolState<T> {
    fn default() -> (s: Self)
        ensures
            s.ticks@ == Seq::<T>::empty(),
            s.recent_insider_events@ == Seq::<InsiderEvent>::empty(),
    {
        SymbolState::new()
    }
}

} // verus!
