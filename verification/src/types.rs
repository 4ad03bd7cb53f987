//! Shared domain types.
use vstd::prelude::*;

verus! {

/// Capacity of every bounded event channel of the pipeline. Bounded on
/// purpose: falling behind must show as back-pressure, never be hidden.
pub const DEFAULT_CHANNEL_CAPACITY: usize = 4096;

/// SEC Form 4 transaction codes we care about (subset of Table I/II of Form 4).
#[derive(Debug, Clone, Copy, PartialEq, Eq, Structural)]
pub enum TransactionCode {
    /// Open market or private purchase
    Purchase,
    /// Open market or private sale
    Sale,
    /// Grant, award, or other acquisition from the company
    Grant,
    /// Option exercise
    Exercise,
    /// Disposition to the issuer (e.g. tax withholding)
    DispositionToIssuer,
    /// Any other one-letter code, kept as it was filed.
    Other(char),
}

/// The code that a Form 4 letter stands for.
pub open spec fn form4_code(c: char) -> TransactionCode {
    if c == 'P' {
        TransactionCode::Purchase
    } else if c == 'S' {
        TransactionCode::Sale
    } else if c == 'A' {
        TransactionCode::Grant
    } else if c == 'M' {
        TransactionCode::Exercise
    } else if c == 'F' {
        TransactionCode::DispositionToIssuer
    } else {
        TransactionCode::Other(c)
    }
}

/// Whether a code carries open-market conviction.
pub open spec fn is_open_market(code: TransactionCode) -> bool {
    code is Purchase || code is Sale
}

impl TransactionCode {
    pub fn from_form4_code(c: char) -> (code: Self)
        ensures
            code == form4_code(c),
    {
        match c {
            'P' => TransactionCode::Purchase,
            'S' => TransactionCode::Sale,
            'A' => TransactionCode::Grant,
            'M' => TransactionCode::Exercise,
            'F' => TransactionCode::DispositionToIssuer,
            other => TransactionCode::Other(other),
        }
    }

    /// Whether this code represents genuine open-market conviction
    /// (as opposed to comp-related grants/withholding, which are noisy).
    pub fn is_open_market_signal(&self) -> (b: bool)
        ensures
            b == is_open_market(*self),
    {
        match self {
            TransactionCode::Purchase | TransactionCode::Sale => true,
            _ => false,
        }
    }
}

/// Each named code has exactly one letter, and every other letter is kept
/// as it was filed.
pub proof fn lemma_form4_letters(c: char)
    ensures
        form4_code(c) == TransactionCode::Purchase <==> c == 'P',
        form4_code(c) == TransactionCode::Sale <==> c == 'S',
        form4_code(c) == TransactionCode::Grant <==> c == 'A',
        form4_code(c) == TransactionCode::Exercise <==> c == 'M',
        form4_code(c) == TransactionCode::DispositionToIssuer <==> c == 'F',
        c != 'P' && c != 'S' && c != 'A' && c != 'M' && c != 'F' ==> form4_code(c) == TransactionCode::Other(c),
        form4_code(c) matches TransactionCode::Other(x) ==> x == c,
{
}

/// Only the letters `P` and `S` classify as open-market codes.
pub proof fn lemma_open_market_letters(c: char)
    ensures
        is_open_market(form4_code(c)) <==> (c == 'P' || c == 'S'),
{
}

/// Side of an insider trade, and of the signal it produces.
#[derive(Debug, Clone, Copy, PartialEq, Eq, Structural)]
pub enum Direction {
    Buy,
    Sell,
}

/// Side of a market data event.
#[derive(Debug, Clone, Copy, PartialEq, Eq, Structural)]
pub enum TickSide {
    Bid,
    Ask,
    Trade,
}

/// Strength bucket of an emitted signal.
#[derive(Debug, Clone, Copy, PartialEq, Eq, Structural)]
pub enum SignalStrength {
    Weak,
    Moderate,
    Strong,
}

/// The name under which a direction is printed.
pub open spec fn direction_name(d: Direction) -> Seq<char> {
    match d {
        Direction::Buy => "Buy"@,
        Direction::Sell => "Sell"@,
    }
}

/// The name under which a strength is printed.
pub open spec fn strength_name(s: SignalStrength) -> Seq<char> {
    match s {
        SignalStrength::Weak => "Weak"@,
        SignalStrength::Moderate => "Moderate"@,
        SignalStrength::Strong => "Strong"@,
    }
}

impl Direction {
    /// The variant's name, as `{:?}` prints it.
    pub fn name(&self) -> (s: &'static str)
        ensures
            s@ == direction_name(*self),
    {
        match self {
            Direction::Buy => "Buy",
            Direction::Sell => "Sell",
        }
    }
}

impl SignalStrength {
    /// The variant's name, as `{:?}` prints it.
    pub fn name(&self) -> (s: &'static str)
        ensures
            s@ == strength_name(*self),
    {
        match self {
            SignalStrength::Weak => "Weak",
            SignalStrength::Moderate => "Moderate",
            SignalStrength::Strong => "Strong",
        }
    }
}

/// A trading signal derived from an insider filing.
#[derive(Debug, Clone)]
pub struct Signal {
    pub symbol: String,
    pub direction: Direction,
    pub strength: SignalStrength,
    pub reason: String,
    /// When the signal was generated, in nanoseconds since the Unix epoch.
    pub generated_at: i64,
    /// Accession number of the triggering filing, for auditability.
    pub source_accession: String,
}

/// The one-line rendering of a signal: `[Dir/Strength] SYMBOL — reason`.
pub open spec fn signal_line(direction: Direction, strength: SignalStrength, symbol: Seq<char>, reason: Seq<char>) -> Seq<char> {
    "["@ + direction_name(direction) + "/"@ + strength_name(strength) + "] "@ + symbol + " — "@ + reason
}

impl Signal {
    /// Renders the signal as one line of text.
    pub fn describe(&self) -> (line: String)
        ensures
            line@ == signal_line(self.direction, self.strength, self.symbol@, self.reason@),
    {
        let mut line = String::new();
        line.append("[");
        line.append(self.direction.name());
        line.append("/");
        line.append(self.strength.name());
        line.append("] ");
        line.append(self.symbol.as_str());
        line.append(" — ");
        line.append(self.reason.as_str());
        line
    }
}

} // verus!
