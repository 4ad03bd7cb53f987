use insider_tracker::types::{Direction, Signal, SignalStrength, TransactionCode, DEFAULT_CHANNEL_CAPACITY};

#[test]
fn form4_letters_map_to_codes() {
    assert_eq!(TransactionCode::from_form4_code('P'), TransactionCode::Purchase);
    assert_eq!(TransactionCode::from_form4_code('S'), TransactionCode::Sale);
    assert_eq!(TransactionCode::from_form4_code('A'), TransactionCode::Grant);
    assert_eq!(TransactionCode::from_form4_code('M'), TransactionCode::Exercise);
    assert_eq!(TransactionCode::from_form4_code('F'), TransactionCode::DispositionToIssuer);
    assert_eq!(TransactionCode::from_form4_code('G'), TransactionCode::Other('G'));
    assert_eq!(TransactionCode::from_form4_code('p'), TransactionCode::Other('p'));
}

#[test]
fn only_purchases_and_sales_are_open_market() {
    assert!(TransactionCode::Purchase.is_open_market_signal());
    assert!(TransactionCode::Sale.is_open_market_signal());
    assert!(!TransactionCode::Grant.is_open_market_signal());
    assert!(!TransactionCode::Exercise.is_open_market_signal());
    assert!(!TransactionCode::DispositionToIssuer.is_open_market_signal());
    assert!(!TransactionCode::Other('P').is_open_market_signal());
    for c in ['P', 'S', 'A', 'M', 'F', 'J', 'x'] {
        assert_eq!(TransactionCode::from_form4_code(c).is_open_market_signal(), c == 'P' || c == 'S');
    }
}

#[test]
fn variant_names_match_debug() {
    assert_eq!(Direction::Buy.name(), format!("{:?}", Direction::Buy));
    assert_eq!(Direction::Sell.name(), "Sell");
    assert_eq!(SignalStrength::Weak.name(), "Weak");
    assert_eq!(SignalStrength::Moderate.name(), "Moderate");
    assert_eq!(SignalStrength::Strong.name(), format!("{:?}", SignalStrength::Strong));
}

#[test]
fn signal_renders_as_one_line() {
    let s = Signal {
        symbol: "AAPL".to_string(),
        direction: Direction::Buy,
        strength: SignalStrength::Strong,
        reason: "cluster of 3 insiders".to_string(),
        generated_at: 1_700_000_000_000_000_000,
        source_accession: "0000320193-24-000007".to_string(),
    };
    assert_eq!(s.describe(), "[Buy/Strong] AAPL — cluster of 3 insiders");
    let t = Signal { direction: Direction::Sell, strength: SignalStrength::Weak, reason: String::new(), ..s };
    assert_eq!(t.describe(), "[Sell/Weak] AAPL — ");
}

#[test]
fn channel_capacity_is_bounded() {
    assert_eq!(DEFAULT_CHANNEL_CAPACITY, 4096);
}
