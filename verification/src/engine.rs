//! The signal engine's decisions: per-symbol state kept across events, and
//! the scoring of each insider filing against it.
use vstd::hash_map::StringHashMap;
use vstd::prelude::*;

use crate::scoring::{filing_score, score_points, strength_for, strength_of_score, NotionalTier};
use crate::state::{filer_set, ticks_after_push, window_after_push, InsiderEvent, SymbolState};
use crate::types::{is_open_market, Direction, Signal, SignalStrength, TransactionCode};

verus! {

/// Default length of the window over which distinct insiders trading the same
/// direction are counted: 14 days, in nanoseconds.
pub const DEFAULT_CLUSTER_WINDOW: i64 = 1_209_600_000_000_000;

/// What the engine reads of an insider filing.
#[derive(Debug, Clone)]
pub struct FilingFacts {
    pub accession_number: String,
    pub issuer_symbol: String,
    pub filer_cik: String,
    pub is_officer: bool,
    pub is_director: bool,
    pub is_ten_pct_owner: bool,
    pub code: TransactionCode,
    /// When the filing was observed, in nanoseconds since the Unix epoch.
    pub filed_at: i64,
}

/// The decision taken on a filing that clears the scoring bar.
#[derive(Debug, Clone, Copy, PartialEq, Eq, Structural)]
pub struct ScoreOutcome {
    pub direction: Direction,
    pub strength: SignalStrength,
    pub score: u32,
    /// Distinct insiders trading in `direction` within the window, this one included.
    pub cluster: usize,
}

/// The signal for a scored filing: the filing's symbol and accession number,
/// the outcome's direction and strength, with the given reason text and
/// generation time (nanoseconds since the Unix epoch).
pub fn signal_from(f: &FilingFacts, o: ScoreOutcome, reason: String, generated_at: i64) -> (s: Signal)
    ensures
        s.symbol@ == f.issuer_symbol@,
        s.source_accession@ == f.accession_number@,
        s.direction == o.direction,
        s.strength == o.strength,
        s.reason@ == reason@,
        s.generated_at == generated_at,
{
    Signal {
        symbol: f.issuer_symbol.clone(),
        direction: o.direction,
        strength: o.strength,
        reason,
        generated_at,
        source_accession: f.accession_number.clone(),
    }
}

/// A symbol's state as the contracts see it: its ticks and its event window.
pub type SymbolView<T> = (Seq<T>, Seq<InsiderEvent>);

/// The state kept for `symbol`, or the empty state when there is none yet.
pub open spec fn state_of<T>(m: Map<Seq<char>, SymbolView<T>>, symbol: Seq<char>) -> SymbolView<T> {
    if m.contains_key(symbol) {
        m[symbol]
    } else {
        (Seq::empty(), Seq::empty())
    }
}

/// The direction that an open-market code trades in.
pub open spec fn code_direction(code: TransactionCode) -> Direction {
    if code is Purchase {
        Direction::Buy
    } else {
        Direction::Sell
    }
}

/// Whether a filing is scored at all: only open-market purchases and sales
/// with a notional at or above the minimum.
pub open spec fn clears_filters(code: TransactionCode, tier: NotionalTier) -> bool {
    is_open_market(code) && (tier is Standard || tier is Large)
}

/// The event a scored filing adds to its symbol's window.
pub open spec fn filing_event(f: FilingFacts) -> InsiderEvent {
    InsiderEvent { filer_cik: f.filer_cik, direction: code_direction(f.code), at: f.filed_at }
}

/// A symbol's event window after a scored filing.
pub open spec fn events_after_filing(events: Seq<InsiderEvent>, f: FilingFacts, window: int) -> Seq<InsiderEvent> {
    window_after_push(events, filing_event(f), window)
}

/// The decision on a filing, given the symbol's event window before it.
pub open spec fn filing_outcome(
    events: Seq<InsiderEvent>,
    f: FilingFacts,
    tier: NotionalTier,
    window: int,
) -> Option<ScoreOutcome> {
    if !clears_filters(f.code, tier) {
        None
    } else {
        let d = code_direction(f.code);
        let cluster: nat = filer_set(events_after_filing(events, f, window), d).len();
        let score: int = filing_score(f.is_officer, f.is_director, f.is_ten_pct_owner, tier is Large, cluster as int);
        Some(
            ScoreOutcome {
                direction: d,
                strength: strength_for(score),
                score: score as u32,
                cluster: cluster as usize,
            },
        )
    }
}

/// Per-symbol state of the signal engine, keyed by ticker symbol.
pub struct SignalEngine<T> {
    cluster_window: i64,
    slots: StringHashMap<usize>,
    states: Vec<SymbolState<T>>,
}

impl<T> SignalEngine<T> {
    #[verifier::type_invariant]
    closed spec fn slots_valid(self) -> bool {
        &&& forall|k: Seq<char>| #[trigger] self.slots@.contains_key(k) ==> self.slots@[k] < self.states@.len()
        &&& forall|k1: Seq<char>, k2: Seq<char>|
            #[trigger] self.slots@.contains_key(k1) && #[trigger] self.slots@.contains_key(k2) && k1 != k2
                ==> self.slots@[k1] != self.slots@[k2]
    }

    /// The window length, in nanoseconds, used for cluster detection.
    pub closed spec fn window(&self) -> int {
        self.cluster_window as int
    }

    /// The state of every symbol seen so far.
    pub closed spec fn symbols(&self) -> Map<Seq<char>, SymbolView<T>> {
        Map::new(
            |k: Seq<char>| self.slots@.contains_key(k),
            |k: Seq<char>|
                (
                    self.states@[self.slots@[k] as int].ticks@,
                    self.states@[self.slots@[k] as int].recent_insider_events@,
                ),
        )
    }

    /// An engine with no symbols yet, counting clusters over `cluster_window` nanoseconds.
    pub fn new(cluster_window: i64) -> (e: Self)
        ensures
            e.window() == cluster_window,
            e.symbols() == Map::<Seq<char>, SymbolView<T>>::empty(),
    {
        let e = SignalEngine { cluster_window, slots: StringHashMap::new(), states: Vec::new() };
        assert(e.symbols() =~= Map::<Seq<char>, SymbolView<T>>::empty());
        e
    }

    /// The window length, in nanoseconds, used for cluster detection.
    pub fn cluster_window(&self) -> (w: i64)
        ensures
            w == self.window(),
    {
        self.cluster_window
    }

    /// Number of symbols with state.
    pub fn symbol_count(&self) -> (n: usize)
        ensures
            n == self.symbols().len(),
    {
        proof {
            use_type_invariant(self);
            assert(self.symbols().dom() =~= self.slots@.dom());
        }
        broadcast use vstd::hash_map::group_hash_map_axioms;
        self.slots.len()
    }

    /// The state kept for `symbol`, if any.
    pub fn symbol_state(&self, symbol: &str) -> (st: Option<&SymbolState<T>>)
        ensures
            match st {
                Some(s) => self.symbols().contains_key(symbol@) && self.symbols()[symbol@] == (
                    s.ticks@,
                    s.recent_insider_events@,
                ),
                None => !self.symbols().contains_key(symbol@),
            },
    {
        proof {
            use_type_invariant(self);
        }
        match self.slots.get(symbol) {
            Some(i) => Some(&self.states[*i]),
            None => None,
        }
    }

    /// The slot of `symbol`, creating an empty state for it when there is none.
    fn slot_for(&mut self, symbol: &str) -> (i: usize)
        ensures
            i < final(self).states@.len(),
            final(self).slots@.contains_key(symbol@),
            final(self).slots@[symbol@] == i,
            final(self).cluster_window == old(self).cluster_window,
            final(self).symbols() == old(self).symbols().insert(symbol@, state_of(old(self).symbols(), symbol@)),
    {
        proof {
            use_type_invariant(&*self);
        }
        match self.slots.get(symbol) {
            Some(i) => {
                let i: usize = *i;
                assert(self.symbols().insert(symbol@, state_of(self.symbols(), symbol@)) =~= self.symbols());
                i
            },
            None => {
                let ghost old_symbols = self.symbols();
                let i: usize = self.states.len();
                let mut slots = StringHashMap::new();
                std::mem::swap(&mut slots, &mut self.slots);
                slots.insert(symbol.to_owned(), i);
                let mut states = Vec::new();
                std::mem::swap(&mut states, &mut self.states);
                states.push(SymbolState::new());
                assert forall|k: Seq<char>| #[trigger] slots@.contains_key(k) implies slots@[k] < states@.len() by {
                    if k != symbol@ {
                        assert(old_symbols.contains_key(k));
                    }
                }
                *self = SignalEngine { cluster_window: self.cluster_window, slots, states };
                assert(self.symbols() =~= old_symbols.insert(symbol@, state_of(old_symbols, symbol@)));
                i
            },
        }
    }

    /// Records a market tick for `symbol`, creating the symbol's state on
    /// first sight.
    pub fn on_tick(&mut self, symbol: &str, tick: T)
        ensures
            final(self).window() == old(self).window(),
            final(self).symbols() == old(self).symbols().insert(
                symbol@,
                (
                    ticks_after_push(state_of(old(self).symbols(), symbol@).0, tick),
                    state_of(old(self).symbols(), symbol@).1,
                ),
            ),
    {
        let ghost before = self.symbols();
        let i: usize = self.slot_for(symbol);
        proof {
            use_type_invariant(&*self);
        }
        let ghost mid = self.states@;
        let ghost mid_symbols = self.symbols();
        assert(mid_symbols[symbol@] == state_of(before, symbol@));
        assert(mid[i as int].ticks@ == state_of(before, symbol@).0);
        assert(mid[i as int].recent_insider_events@ == state_of(before, symbol@).1);
        self.states[i].push_tick(tick);
        proof {
            use_type_invariant(&*self);
            assert forall|k: Seq<char>| #[trigger] self.slots@.contains_key(k) && k != symbol@ implies self.states@[self.slots@[k] as int]
                == mid[self.slots@[k] as int] by {}
            let target = mid_symbols.insert(
                symbol@,
                (ticks_after_push(state_of(before, symbol@).0, tick), state_of(before, symbol@).1),
            );
            assert forall|k: Seq<char>| #[trigger] self.symbols().contains_key(k) implies target.contains_key(k)
                && self.symbols()[k] == target[k] by {
                if k != symbol@ {
                    assert(mid_symbols[k] == (mid[self.slots@[k] as int].ticks@, mid[self.slots@[k] as int].recent_insider_events@));
                }
            }
            assert(self.symbols().dom() =~= target.dom());
            assert(self.symbols() =~= target);
            assert(target =~= before.insert(
                symbol@,
                (ticks_after_push(state_of(before, symbol@).0, tick), state_of(before, symbol@).1),
            ));
        }
    }

    /// Scores an insider filing. Only open-market purchases and sales whose
    /// notional reaches the minimum are scored; anything else yields `None`
    /// and leaves the engine as it was. A scored filing enters its symbol's
    /// cluster window, and the outcome carries the filing's direction, its
    /// score and strength, and the number of distinct insiders trading the
    /// same direction within the window.
    pub fn score_filing(&mut self, filing: &FilingFacts, tier: NotionalTier) -> (outcome: Option<ScoreOutcome>)
        ensures
            final(self).window() == old(self).window(),
            outcome == filing_outcome(
                state_of(old(self).symbols(), filing.issuer_symbol@).1,
                *filing,
                tier,
                old(self).window(),
            ),
            clears_filters(filing.code, tier) ==> final(self).symbols() == old(self).symbols().insert(
                filing.issuer_symbol@,
                (
                    state_of(old(self).symbols(), filing.issuer_symbol@).0,
                    events_after_filing(
                        state_of(old(self).symbols(), filing.issuer_symbol@).1,
                        *filing,
                        old(self).window(),
                    ),
                ),
            ),
            !clears_filters(filing.code, tier) ==> final(self).symbols() == old(self).symbols(),
            (tier == NotionalTier::Unpriced || tier == NotionalTier::BelowMinimum || !(filing.code
                == TransactionCode::Purchase || filing.code == TransactionCode::Sale)) ==> outcome is None
                && final(self).symbols() == old(self).symbols(),
            outcome matches Some(o) ==> final(self).symbols().contains_key(filing.issuer_symbol@) && o.cluster as int
                == filer_set(final(self).symbols()[filing.issuer_symbol@].1, o.direction).len(),
    {
        // Only open-market purchases/sales carry directional conviction; grants,
        // option exercises, and tax-withholding dispositions are comp mechanics.
        if !filing.code.is_open_market_signal() {
            return None;
        }
        match tier {
            NotionalTier::Unpriced | NotionalTier::BelowMinimum => {
                return None;
            },
            _ => {},
        }
        let direction = match filing.code {
            TransactionCode::Purchase => Direction::Buy,
            _ => Direction::Sell,
        };
        let ghost before = self.symbols();
        let ghost sym = filing.issuer_symbol@;
        let i: usize = self.slot_for(filing.issuer_symbol.as_str());
        let ev = InsiderEvent { filer_cik: filing.filer_cik.clone(), direction, at: filing.filed_at };
        assert(ev == filing_event(*filing));
        let window: i64 = self.cluster_window;
        proof {
            use_type_invariant(&*self);
        }
        let ghost mid = self.states@;
        let ghost mid_symbols = self.symbols();
        assert(mid_symbols[sym] == state_of(before, sym));
        assert(mid[i as int].ticks@ == state_of(before, sym).0);
        assert(mid[i as int].recent_insider_events@ == state_of(before, sym).1);
        self.states[i].push_insider_event(ev, window);
        proof {
            use_type_invariant(&*self);
            assert forall|k: Seq<char>| #[trigger] self.slots@.contains_key(k) && k != sym implies self.states@[self.slots@[k] as int]
                == mid[self.slots@[k] as int] by {}
            let target = mid_symbols.insert(
                sym,
                (state_of(before, sym).0, events_after_filing(state_of(before, sym).1, *filing, self.window())),
            );
            assert forall|k: Seq<char>| #[trigger] self.symbols().contains_key(k) implies target.contains_key(k)
                && self.symbols()[k] == target[k] by {
                if k != sym {
                    assert(mid_symbols[k] == (mid[self.slots@[k] as int].ticks@, mid[self.slots@[k] as int].recent_insider_events@));
                }
            }
            assert(self.symbols().dom() =~= target.dom());
            assert(self.symbols() =~= target);
        }
        let cluster: usize = self.states[i].cluster_count(direction);
        let large = match tier {
            NotionalTier::Large => true,
            _ => false,
        };
        let score: u32 = score_points(filing.is_officer, filing.is_director, filing.is_ten_pct_owner, large, cluster);
        let strength = strength_of_score(score);
        assert(self.symbols() =~= before.insert(
            sym,
            (state_of(before, sym).0, events_after_filing(state_of(before, sym).1, *filing, self.window())),
        ));
        Some(ScoreOutcome { direction, strength, score, cluster })
    }
}

/// A scored filing always counts its own insider (with a non-negative window
/// the filing itself stays in the window), trades in the direction of its
/// code, and its strength is the bucket of its score; a filing that does not
/// clear the filters is never scored.
pub proof fn lemma_scored_filing(events: Seq<InsiderEvent>, f: FilingFacts, tier: NotionalTier, window: int)
    requires
        window >= 0,
        events.len() < usize::MAX,
    ensures
        filing_outcome(events, f, tier, window) is Some <==> clears_filters(f.code, tier),
        filing_outcome(events, f, tier, window) matches Some(o) ==> {
            &&& o.cluster >= 1
            &&& (o.direction == Direction::Buy <==> f.code == TransactionCode::Purchase)
            &&& (o.direction == Direction::Sell <==> f.code == TransactionCode::Sale)
            &&& o.strength == strength_for(o.score as int)
            &&& (tier is Large ==> o.strength == SignalStrength::Strong)
            &&& o.score == filing_score(f.is_officer, f.is_director, f.is_ten_pct_owner, tier is Large, o.cluster as int)
        },
{
    if clears_filters(f.code, tier) {
        let ev = filing_event(f);
        let w = events_after_filing(events, f, window);
        crate::state::lemma_window_trim(events, ev, window);
        crate::state::lemma_filer_set_bounds(w, ev.direction);
        crate::state::lemma_filer_set_members(w, ev.direction, ev.filer_cik@);
        assert(w[w.len() - 1] == ev);
        assert(filer_set(w, ev.direction).contains(ev.filer_cik@));
        assert(filer_set(w, ev.direction).len() > 0) by {
            vstd::set_lib::lemma_set_empty_equivalency_len(filer_set(w, ev.direction));
        }
        let c: nat = filer_set(w, ev.direction).len();
        assert(c <= usize::MAX);
        let sc: int = filing_score(f.is_officer, f.is_director, f.is_ten_pct_owner, tier is Large, c as int);
        assert(1 <= sc <= 14);
        crate::scoring::lemma_cluster_and_size_weight(f.is_officer, f.is_director, f.is_ten_pct_owner, tier is Large, c as int);
    }
}

/// What decides whether a filing is scored, stated on the inputs: exactly the
/// open-market purchases and sales in the `Standard` or `Large` tier are
/// scored; an unpriced filing or one below the minimum never is, whatever its
/// code. A scored filing's cluster is the number of distinct filers trading
/// its direction in the symbol's window once the filing has entered it, with
/// no cap.
pub proof fn lemma_filing_outcome_law(events: Seq<InsiderEvent>, f: FilingFacts, tier: NotionalTier, window: int)
    requires
        events.len() < usize::MAX,
    ensures
        filing_outcome(events, f, tier, window) is Some <==> (
            (f.code == TransactionCode::Purchase || f.code == TransactionCode::Sale)
            && (tier == NotionalTier::Standard || tier == NotionalTier::Large)),
        tier == NotionalTier::Unpriced || tier == NotionalTier::BelowMinimum ==> filing_outcome(events, f, tier, window) is None,
        filing_outcome(events, f, tier, window) matches Some(o) ==> {
            &&& o.direction == (if f.code == TransactionCode::Purchase { Direction::Buy } else { Direction::Sell })
            &&& o.cluster as int == filer_set(
                window_after_push(events, InsiderEvent { filer_cik: f.filer_cik, direction: o.direction, at: f.filed_at }, window),
                o.direction,
            ).len()
        },
{
    if filing_outcome(events, f, tier, window) is Some {
        let d = code_direction(f.code);
        let w = events_after_filing(events, f, window);
        crate::state::lemma_filer_set_bounds(w, d);
        crate::state::lemma_window_trim(events, filing_event(f), window);
    }
}

} // verus!
