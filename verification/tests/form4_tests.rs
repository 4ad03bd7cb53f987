use insider_tracker::form4::{transaction_code_of, transaction_date, FlagVal, TransactionDate};
use insider_tracker::types::TransactionCode;

#[test]
fn flags_read_leniently() {
    for t in ["1", "true", " 1", "1\n", "\t true \r\n", "\u{a0}1\u{3000}"] {
        assert!(FlagVal(t.to_string()).is_true(), "{t:?}");
    }
    for t in ["0", "false", "", "TRUE", "True", "11", "1 1", "yes", " ", "t rue"] {
        assert!(!FlagVal(t.to_string()).is_true(), "{t:?}");
    }
    assert!(!FlagVal::default().is_true());
}

#[test]
fn transaction_code_from_first_letter() {
    assert_eq!(transaction_code_of("P"), TransactionCode::Purchase);
    assert_eq!(transaction_code_of("S(1)"), TransactionCode::Sale);
    assert_eq!(transaction_code_of("M"), TransactionCode::Exercise);
    assert_eq!(transaction_code_of("Z"), TransactionCode::Other('Z'));
    assert_eq!(transaction_code_of("é"), TransactionCode::Other('é'));
    assert_eq!(transaction_code_of(""), TransactionCode::Other('?'));
}

#[test]
fn transaction_date_parses_day_or_falls_back() {
    assert_eq!(transaction_date("2024-01-10"), TransactionDate::OnDay(1_704_844_800));
    assert_eq!(transaction_date("1970-01-01"), TransactionDate::OnDay(0));
    assert_eq!(transaction_date("1969-12-31"), TransactionDate::OnDay(-86_400));
    assert_eq!(transaction_date("2024-02-30"), TransactionDate::Observed);
    assert_eq!(transaction_date("10/01/2024"), TransactionDate::Observed);
    assert_eq!(transaction_date(""), TransactionDate::Observed);
}
