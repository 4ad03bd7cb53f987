use insider_tracker::state::{InsiderEvent, SymbolState, TICK_HISTORY};
use insider_tracker::types::Direction;

const DAY: i64 = 86_400_000_000_000;

fn ev(cik: &str, direction: Direction, at: i64) -> InsiderEvent {
    InsiderEvent { filer_cik: cik.to_string(), direction, at }
}

fn ciks(st: &SymbolState<u32>) -> Vec<String> {
    st.recent_insider_events.iter().map(|e| e.filer_cik.clone()).collect()
}

#[test]
fn tick_history_is_capped_and_keeps_newest() {
    let mut st: SymbolState<u32> = SymbolState::new();
    assert!(st.last_tick().is_none());
    for i in 0..(TICK_HISTORY as u32 + 10) {
        st.push_tick(i);
        assert!(st.ticks.len() <= TICK_HISTORY);
        assert_eq!(st.last_tick(), Some(&i));
    }
    assert_eq!(TICK_HISTORY, 512);
    assert_eq!(st.ticks.len(), 512);
    assert_eq!(st.ticks.front(), Some(&10));
    assert!(st.recent_insider_events.is_empty());
}

#[test]
fn window_drops_events_older_than_cutoff() {
    let mut st: SymbolState<u32> = SymbolState::default();
    st.push_insider_event(ev("a", Direction::Buy, 0), 14 * DAY);
    st.push_insider_event(ev("b", Direction::Buy, 10 * DAY), 14 * DAY);
    assert_eq!(ciks(&st), vec!["a", "b"]);
    // cutoff = 15 days - 14 days = 1 day: "a" (day 0) goes, "b" stays.
    st.push_insider_event(ev("c", Direction::Sell, 15 * DAY), 14 * DAY);
    assert_eq!(ciks(&st), vec!["b", "c"]);
    // An event exactly at the cutoff stays.
    st.push_insider_event(ev("d", Direction::Buy, 24 * DAY), 14 * DAY);
    assert_eq!(ciks(&st), vec!["b", "c", "d"]);
}

#[test]
fn trimming_stops_at_first_recent_event() {
    let mut st: SymbolState<u32> = SymbolState::new();
    st.push_insider_event(ev("new", Direction::Buy, 20 * DAY), 14 * DAY);
    st.push_insider_event(ev("old", Direction::Buy, 0), 14 * DAY);
    // "old" arrived late; it stays because only the front run is trimmed.
    assert_eq!(ciks(&st), vec!["new", "old"]);
    st.push_insider_event(ev("later", Direction::Buy, 21 * DAY), 14 * DAY);
    assert_eq!(ciks(&st), vec!["new", "old", "later"]);
}

#[test]
fn negative_window_drops_the_event_itself() {
    let mut st: SymbolState<u32> = SymbolState::new();
    st.push_insider_event(ev("a", Direction::Buy, 5), -1);
    assert!(st.recent_insider_events.is_empty());
    st.push_insider_event(ev("b", Direction::Buy, 5), 0);
    assert_eq!(ciks(&st), vec!["b"]);
}

#[test]
fn extreme_times_do_not_overflow() {
    let mut st: SymbolState<u32> = SymbolState::new();
    st.push_insider_event(ev("a", Direction::Buy, i64::MIN), i64::MAX);
    st.push_insider_event(ev("b", Direction::Buy, i64::MAX), i64::MIN);
    assert!(st.recent_insider_events.is_empty());
}

#[test]
fn cluster_counts_distinct_filers_per_direction() {
    let mut st: SymbolState<u32> = SymbolState::new();
    assert_eq!(st.cluster_count(Direction::Buy), 0);
    st.push_insider_event(ev("a", Direction::Buy, 1), DAY);
    st.push_insider_event(ev("a", Direction::Buy, 2), DAY);
    st.push_insider_event(ev("b", Direction::Sell, 3), DAY);
    assert_eq!(st.cluster_count(Direction::Buy), 1);
    assert_eq!(st.cluster_count(Direction::Sell), 1);
    st.push_insider_event(ev("c", Direction::Buy, 4), DAY);
    st.push_insider_event(ev("b", Direction::Buy, 5), DAY);
    assert_eq!(st.cluster_count(Direction::Buy), 3);
    assert_eq!(st.cluster_count(Direction::Sell), 1);
}
