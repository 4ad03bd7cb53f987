use insider_tracker::engine::{signal_from, FilingFacts, ScoreOutcome, SignalEngine, DEFAULT_CLUSTER_WINDOW};
use insider_tracker::scoring::{score_points, strength_of_score, NotionalTier};
use insider_tracker::types::{Direction, SignalStrength, TransactionCode};

#[test]
fn score_points_add_up() {
    assert_eq!(score_points(false, false, false, false, 0), 1);
    assert_eq!(score_points(false, false, false, false, 1), 1);
    assert_eq!(score_points(false, false, false, true, 1), 6);
    assert_eq!(score_points(true, false, false, false, 1), 3);
    assert_eq!(score_points(true, true, true, true, 1), 10);
    assert_eq!(score_points(false, false, false, false, 2), 3);
    assert_eq!(score_points(false, false, false, false, 3), 5);
    assert_eq!(score_points(true, true, true, true, 9), 14);
}

#[test]
fn strength_buckets() {
    assert_eq!(strength_of_score(0), SignalStrength::Weak);
    assert_eq!(strength_of_score(2), SignalStrength::Weak);
    assert_eq!(strength_of_score(3), SignalStrength::Moderate);
    assert_eq!(strength_of_score(5), SignalStrength::Moderate);
    assert_eq!(strength_of_score(6), SignalStrength::Strong);
    assert_eq!(strength_of_score(11), SignalStrength::Strong);
}

#[test]
fn large_filing_alone_is_strong() {
    // A lone insider with no role: 6 (large) = strong.
    assert_eq!(strength_of_score(score_points(false, false, false, true, 1)), SignalStrength::Strong);
    assert_eq!(strength_of_score(score_points(false, false, false, true, 0)), SignalStrength::Strong);
    // The same filing below the strong threshold is weak.
    assert_eq!(strength_of_score(score_points(false, false, false, false, 1)), SignalStrength::Weak);
}

fn filing(symbol: &str, cik: &str, code: TransactionCode, at: i64) -> FilingFacts {
    FilingFacts {
        accession_number: "0000000000-24-000001".to_string(),
        issuer_symbol: symbol.to_string(),
        filer_cik: cik.to_string(),
        is_officer: false,
        is_director: false,
        is_ten_pct_owner: false,
        code,
        filed_at: at,
    }
}

#[test]
fn filtered_filings_leave_engine_untouched() {
    let mut e: SignalEngine<u32> = SignalEngine::new(DEFAULT_CLUSTER_WINDOW);
    assert_eq!(e.cluster_window(), 14 * 86_400_000_000_000);
    for code in [TransactionCode::Grant, TransactionCode::Exercise, TransactionCode::DispositionToIssuer, TransactionCode::Other('J')] {
        assert_eq!(e.score_filing(&filing("AAPL", "1", code, 0), NotionalTier::Large), None);
    }
    assert_eq!(e.score_filing(&filing("AAPL", "1", TransactionCode::Purchase, 0), NotionalTier::Unpriced), None);
    assert_eq!(e.score_filing(&filing("AAPL", "1", TransactionCode::Sale, 0), NotionalTier::BelowMinimum), None);
    assert_eq!(e.symbol_count(), 0);
    assert!(e.symbol_state("AAPL").is_none());
}

#[test]
fn cluster_buying_strengthens_signal() {
    let mut e: SignalEngine<u32> = SignalEngine::new(DEFAULT_CLUSTER_WINDOW);
    let r1 = e.score_filing(&filing("MSFT", "a", TransactionCode::Purchase, 1), NotionalTier::Standard);
    assert_eq!(r1, Some(ScoreOutcome { direction: Direction::Buy, strength: SignalStrength::Weak, score: 1, cluster: 1 }));
    let r2 = e.score_filing(&filing("MSFT", "b", TransactionCode::Purchase, 2), NotionalTier::Standard);
    assert_eq!(r2, Some(ScoreOutcome { direction: Direction::Buy, strength: SignalStrength::Moderate, score: 3, cluster: 2 }));
    // Same insider again does not grow the cluster.
    let r3 = e.score_filing(&filing("MSFT", "b", TransactionCode::Purchase, 3), NotionalTier::Standard);
    assert_eq!(r3.unwrap().cluster, 2);
    // A sale does not count toward buying.
    let r4 = e.score_filing(&filing("MSFT", "c", TransactionCode::Sale, 4), NotionalTier::Large);
    assert_eq!(r4, Some(ScoreOutcome { direction: Direction::Sell, strength: SignalStrength::Strong, score: 6, cluster: 1 }));
    let r5 = e.score_filing(&filing("MSFT", "d", TransactionCode::Purchase, 5), NotionalTier::Large);
    assert_eq!(r5, Some(ScoreOutcome { direction: Direction::Buy, strength: SignalStrength::Strong, score: 10, cluster: 3 }));
    // Other symbols are independent.
    let r6 = e.score_filing(&filing("TSLA", "a", TransactionCode::Purchase, 6), NotionalTier::Standard);
    assert_eq!(r6.unwrap().cluster, 1);
    assert_eq!(e.symbol_count(), 2);
    assert_eq!(e.symbol_state("MSFT").unwrap().recent_insider_events.len(), 5);
}

#[test]
fn cluster_window_expires_old_insiders() {
    let day = 86_400_000_000_000i64;
    let mut e: SignalEngine<u32> = SignalEngine::new(DEFAULT_CLUSTER_WINDOW);
    e.score_filing(&filing("X", "a", TransactionCode::Purchase, 0), NotionalTier::Standard);
    e.score_filing(&filing("X", "b", TransactionCode::Purchase, day), NotionalTier::Standard);
    let r = e.score_filing(&filing("X", "c", TransactionCode::Purchase, 15 * day), NotionalTier::Standard);
    assert_eq!(r.unwrap().cluster, 2);
}

#[test]
fn ticks_are_kept_per_symbol_and_do_not_affect_scores() {
    let mut e: SignalEngine<u32> = SignalEngine::new(DEFAULT_CLUSTER_WINDOW);
    e.on_tick("AAPL", 1);
    e.on_tick("AAPL", 2);
    e.on_tick("TSLA", 3);
    assert_eq!(e.symbol_count(), 2);
    assert_eq!(e.symbol_state("AAPL").unwrap().last_tick(), Some(&2));
    assert_eq!(e.symbol_state("TSLA").unwrap().ticks.len(), 1);
    let r = e.score_filing(&filing("AAPL", "a", TransactionCode::Purchase, 0), NotionalTier::Standard);
    assert_eq!(r.unwrap().score, 1);
    assert_eq!(e.symbol_state("AAPL").unwrap().ticks.len(), 2);
}

#[test]
fn roles_count_in_score() {
    let mut e: SignalEngine<u32> = SignalEngine::new(DEFAULT_CLUSTER_WINDOW);
    let mut f = filing("NVDA", "a", TransactionCode::Purchase, 0);
    f.is_officer = true;
    f.is_director = true;
    f.is_ten_pct_owner = true;
    let r = e.score_filing(&f, NotionalTier::Standard).unwrap();
    assert_eq!(r.score, 5);
    assert_eq!(r.strength, SignalStrength::Moderate);
}

#[test]
fn more_roles_size_or_cluster_never_weaken() {
    let rank = |s: SignalStrength| match s {
        SignalStrength::Weak => 0,
        SignalStrength::Moderate => 1,
        SignalStrength::Strong => 2,
    };
    let base = score_points(false, true, false, false, 1);
    for (o, d, t, l, c) in [(true, true, false, false, 1), (false, true, true, false, 1), (false, true, false, true, 1), (false, true, false, false, 2), (false, true, false, false, 5)] {
        let s = score_points(o, d, t, l, c);
        assert!(s >= base);
        assert!(rank(strength_of_score(s)) >= rank(strength_of_score(base)));
    }
    // Three distinct insiders: at least moderate; with a large notional, strong.
    assert_eq!(strength_of_score(score_points(false, false, false, false, 3)), SignalStrength::Moderate);
    assert_eq!(strength_of_score(score_points(false, false, false, true, 3)), SignalStrength::Strong);
}

#[test]
fn signal_carries_symbol_and_accession() {
    let mut e: SignalEngine<u32> = SignalEngine::new(DEFAULT_CLUSTER_WINDOW);
    let mut f = filing("AAPL", "C1", TransactionCode::Purchase, 1_704_844_800_000_000_000);
    f.accession_number = "A1".to_string();
    let o = e.score_filing(&f, NotionalTier::Standard).unwrap();
    assert_eq!(o.direction, Direction::Buy);
    assert_eq!(o.strength, SignalStrength::Weak);
    assert_eq!(e.symbol_state("AAPL").unwrap().recent_insider_events.len(), 1);
    let s = signal_from(&f, o, "why".to_string(), 42);
    assert_eq!(s.symbol, "AAPL");
    assert_eq!(s.source_accession, "A1");
    assert_eq!(s.direction, Direction::Buy);
    assert_eq!(s.strength, SignalStrength::Weak);
    assert_eq!(s.reason, "why");
    assert_eq!(s.generated_at, 42);
}

#[test]
fn large_purchase_by_lone_insider_is_strong_signal() {
    let mut e: SignalEngine<u32> = SignalEngine::new(DEFAULT_CLUSTER_WINDOW);
    let o = e.score_filing(&filing("AAPL", "C1", TransactionCode::Purchase, 0), NotionalTier::Large).unwrap();
    assert_eq!(o.strength, SignalStrength::Strong);
    assert_eq!(o.cluster, 1);
}
