//! Field-level rules of the Form 4 (ownership document) XML.
use chrono::{NaiveDate, NaiveTime};
use vstd::prelude::*;
use vstd::utf8::encode_utf8;

use crate::types::{form4_code, TransactionCode};

verus! {

broadcast use vstd::utf8::group_utf8_lib;

/// Unicode `White_Space`, the whitespace that `str::trim` removes.
pub open spec fn is_unicode_whitespace(c: char) -> bool {
    let u: u32 = c as u32;
    ||| 0x9 <= u <= 0xd
    ||| u == 0x20
    ||| u == 0x85
    ||| u == 0xa0
    ||| u == 0x1680
    ||| 0x2000 <= u <= 0x200a
    ||| u == 0x2028
    ||| u == 0x2029
    ||| u == 0x202f
    ||| u == 0x205f
    ||| u == 0x3000
}

/// `s` without its leading whitespace.
pub open spec fn trim_start(s: Seq<char>) -> Seq<char>
    decreases s.len(),
{
    if s.len() > 0 && is_unicode_whitespace(s[0]) {
        trim_start(s.drop_first())
    } else {
        s
    }
}

/// `s` without its trailing whitespace.
pub open spec fn trim_end(s: Seq<char>) -> Seq<char>
    decreases s.len(),
{
    if s.len() > 0 && is_unicode_whitespace(s.last()) {
        trim_end(s.drop_last())
    } else {
        s
    }
}

/// `s` without its leading and trailing whitespace.
pub open spec fn trimmed(s: Seq<char>) -> Seq<char> {
    trim_end(trim_start(s))
}

/// Calls `str::trim`, which returns the string without its leading and
/// trailing Unicode `White_Space` characters.
#[verifier::external_body]
fn trim(s: &str) -> (t: &str)
    ensures
        t@ == trimmed(s@),
{
    s.trim()
}

/// Whether two byte strings are equal.
fn bytes_equal(x: &[u8], y: &[u8]) -> (eq: bool)
    ensures
        eq == (x@ == y@),
{
    if x.len() != y.len() {
        return false;
    }
    let mut i: usize = 0;
    while i < x.len()
        invariant
            i <= x@.len(),
            x@.len() == y@.len(),
            forall|j: int| 0 <= j < i ==> #[trigger] x@[j] == y@[j],
        decreases x@.len() - i,
    {
        if x[i] != y[i] {
            return false;
        }
        i = i + 1;
    }
    assert(x@ =~= y@);
    true
}

/// Whether two strings are equal.
fn str_equal(a: &str, b: &str) -> (eq: bool)
    ensures
        eq == (a@ == b@),
{
    let eq = bytes_equal(a.as_bytes(), b.as_bytes());
    proof {
        vstd::utf8::encode_utf8_decode_utf8(a@);
        vstd::utf8::encode_utf8_decode_utf8(b@);
    }
    eq
}

/// A boolean flag of the ownership document. The SEC writes booleans
/// inconsistently as `0`/`1` or `false`/`true` text; they are read leniently.
#[derive(Debug)]
pub struct FlagVal(pub String);

/// Whether a flag's text reads as set: `1` or `true`, surrounding whitespace ignored.
pub open spec fn flag_is_set(text: Seq<char>) -> bool {
    trimmed(text) == "1"@ || trimmed(text) == "true"@
}

impl FlagVal {
    pub fn is_true(&self) -> (set: bool)
        ensures
            set == flag_is_set(self.0@),
    {
        let t = trim(self.0.as_str());
        str_equal(t, "1") || str_equal(t, "true")
    }
}

impl Default for FlagVal {
    /// An absent flag: empty text, which reads as not set.
    fn default() -> (f: Self)
        ensures
            f.0@ == Seq::<char>::empty(),
    {
        FlagVal(String::new())
    }
}

/// The transaction code of a Form 4 transaction: the code of its first
/// letter, or `Other('?')` when the coding is empty.
pub open spec fn coded_transaction(raw: Seq<char>) -> TransactionCode {
    if raw.len() > 0 {
        form4_code(raw[0])
    } else {
        TransactionCode::Other('?')
    }
}

/// Reads a transaction's `transactionCode` text.
pub fn transaction_code_of(raw: &str) -> (code: TransactionCode)
    ensures
        code == coded_transaction(raw@),
{
    if raw.is_empty() {
        TransactionCode::Other('?')
    } else {
        TransactionCode::from_form4_code(raw.get_char(0))
    }
}

/// The day a `transactionDate` text names, as the Unix time in seconds of
/// that day's midnight UTC, when the text parses as `%Y-%m-%d`.
pub uninterp spec fn form4_date_seconds(text: Seq<char>) -> Option<i64>;

/// Calls `chrono::NaiveDate::parse_from_str(text, "%Y-%m-%d")` and turns a
/// parsed date into the Unix time of its midnight UTC (`and_time` with
/// midnight, `and_utc`, `timestamp`). The result depends on the text alone
/// and is named `form4_date_seconds`; which texts parse is not stated.
#[verifier::external_body]
fn parse_form4_date(text: &str) -> (secs: Option<i64>)
    ensures
        secs == form4_date_seconds(text@),
{
    match NaiveDate::parse_from_str(text, "%Y-%m-%d") {
        Ok(d) => Some(d.and_time(NaiveTime::MIN).and_utc().timestamp()),
        Err(_) => None,
    }
}

/// When a transaction took place, as its filing tells it.
#[derive(Debug, Clone, Copy, PartialEq, Eq, Structural)]
pub enum TransactionDate {
    /// Midnight UTC of the filed day, in seconds since the Unix epoch.
    OnDay(i64),
    /// The filed date did not parse: the time the filing was observed stands in.
    Observed,
}

/// Reads a transaction's `transactionDate` value: the filed day when it
/// parses, otherwise the observation time.
pub fn transaction_date(text: &str) -> (d: TransactionDate)
    ensures
        d == match form4_date_seconds(text@) {
            Some(secs) => TransactionDate::OnDay(secs),
            None => TransactionDate::Observed,
        },
{
    match parse_form4_date(text) {
        Some(secs) => TransactionDate::OnDay(secs),
        None => TransactionDate::Observed,
    }
}

} // verus!
