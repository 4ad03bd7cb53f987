use insider_tracker::feed::{
    choose_form4_document, extract_accession, filing_dir_url, is_accession_cuttable, FeedDedup, PollerConfig,
    SEEN_CAP,
};
use std::time::Duration;

#[test]
fn accession_from_index_link() {
    let href = "https://www.sec.gov/Archives/edgar/data/320193/000032019324000007/000032019324000007-index.htm";
    assert!(is_accession_cuttable(href));
    assert_eq!(extract_accession(href).as_deref(), Some("0000320193-24-000007"));
    assert_eq!(extract_accession("000032019324000007-index.htm").as_deref(), Some("0000320193-24-000007"));
    assert_eq!(extract_accession("a/b/123456789012345678901-index.htm").as_deref(), Some("1234567890-12-345678901"));
}

#[test]
fn accession_rejects_other_links() {
    assert_eq!(extract_accession("https://x/000032019324000007-index.html"), None);
    assert_eq!(extract_accession("https://x/000032019324000007.htm"), None);
    assert_eq!(extract_accession("https://x/00003201932400000-index.htm"), None);
    assert_eq!(extract_accession("https://x/-index.htm"), None);
    assert_eq!(extract_accession(""), None);
    assert_eq!(extract_accession("https://x/000032019324000007-index.htm/"), None);
}

#[test]
fn accession_cut_positions_must_start_characters() {
    // 'é' takes bytes 9..11, so byte 10 falls inside it.
    let href = "x/123456789é34567890-index.htm";
    assert!(!is_accession_cuttable(href));
    assert!(is_accession_cuttable("x/éé-index.htm"));
    assert_eq!(extract_accession("x/éé-index.htm"), None);
    // Non-ASCII before the last slash is harmless.
    assert_eq!(extract_accession("é/000032019324000007-index.htm").as_deref(), Some("0000320193-24-000007"));
}

#[test]
fn filing_directory_is_prefix_before_last_slash() {
    assert_eq!(
        filing_dir_url("https://www.sec.gov/Archives/edgar/data/1/0001-index.htm").as_deref(),
        Some("https://www.sec.gov/Archives/edgar/data/1")
    );
    assert_eq!(filing_dir_url("a/").as_deref(), Some("a"));
    assert_eq!(filing_dir_url("/x").as_deref(), Some(""));
    assert_eq!(filing_dir_url("no-slash"), None);
}

fn names(v: &[&str]) -> Vec<String> {
    v.iter().map(|s| s.to_string()).collect()
}

#[test]
fn primary_document_is_preferred() {
    let n = names(&["FilingSummary.xml", "form4.xml", "PRIMARY_DOC.XML"]);
    assert_eq!(choose_form4_document(&n).as_deref(), Some("PRIMARY_DOC.XML"));
    let n = names(&["primary_doc.xml", "primary_doc.xml"]);
    assert_eq!(choose_form4_document(&n).as_deref(), Some("primary_doc.xml"));
}

#[test]
fn fallback_skips_summary_and_non_xml() {
    let n = names(&["index.htm", "filingsummary.XML", "FilingSummary.xml", "wf-form4_123.xml", "other.xml"]);
    assert_eq!(choose_form4_document(&n).as_deref(), Some("wf-form4_123.xml"));
    // ".XML" is not ".xml": the fallback is case-sensitive.
    let n = names(&["doc.XML", "FilingSummary.xml"]);
    assert_eq!(choose_form4_document(&n), None);
    assert_eq!(choose_form4_document(&Vec::new()), None);
    let n = names(&["primary_doc.xmll", "a.xml"]);
    assert_eq!(choose_form4_document(&n).as_deref(), Some("a.xml"));
}

#[test]
fn dedup_hands_each_accession_on_once() {
    let mut d = FeedDedup::new();
    let a = "https://x/000032019324000007-index.htm";
    let b = "https://y/other/000032019324000007-index.htm";
    assert_eq!(d.accept_link(a).as_deref(), Some("0000320193-24-000007"));
    assert_eq!(d.accept_link(a), None);
    assert_eq!(d.accept_link(b), None);
    assert_eq!(d.accept_link("https://x/not-a-filing"), None);
    assert_eq!(d.seen_count(), 1);
    assert!(!d.end_cycle());
    assert_eq!(d.accept_link(a), None);
}

#[test]
fn dedup_forgets_everything_past_the_cap() {
    let mut d = FeedDedup::new();
    assert_eq!(SEEN_CAP, 50_000);
    for i in 0..=SEEN_CAP {
        let href = format!("x/{:018}-index.htm", i);
        assert!(d.accept_link(&href).is_some());
    }
    assert_eq!(d.seen_count(), SEEN_CAP + 1);
    assert!(d.end_cycle());
    assert_eq!(d.seen_count(), 0);
    assert!(d.accept_link("x/000000000000000000-index.htm").is_some());
    assert!(!d.end_cycle());
}

#[test]
fn poller_defaults() {
    let cfg = PollerConfig::default();
    assert_eq!(cfg.user_agent, "insider-trade-tracker/0.1 (set-your-contact@example.com)");
    assert_eq!(cfg.poll_interval, Duration::from_secs(3));
    assert_eq!(cfg.max_concurrent_fetches, 8);
    let copy = cfg.clone();
    assert_eq!(copy.poll_interval, cfg.poll_interval);
}

#[test]
fn directory_and_index_page_make_up_the_link() {
    let href = "https://www.sec.gov/Archives/edgar/data/320193/000032019324000007-index.htm";
    let dir = filing_dir_url(href).unwrap();
    assert_eq!(format!("{dir}/000032019324000007-index.htm"), href);
    let acc = extract_accession(href).unwrap();
    assert_eq!(acc.len(), 20);
    assert_eq!(acc.replace('-', ""), "000032019324000007");
}

#[test]
fn a_poll_run_hands_each_accession_on_once() {
    let mut d = FeedDedup::new();
    let links = [
        "https://x/000032019324000007-index.htm",
        "https://x/feed.atom",
        "https://y/000032019324000008-index.htm",
        "https://z/000032019324000007-index.htm",
        "https://y/000032019324000008-index.htm",
        "https://x/000032019324000009-index.htm",
    ];
    let handed: Vec<String> = links.iter().filter_map(|h| d.accept_link(h)).collect();
    assert_eq!(handed, vec!["0000320193-24-000007", "0000320193-24-000008", "0000320193-24-000009"]);
    assert_eq!(d.seen_count(), 3);
}
