//! The battery state of the earbuds and the case, as shown to the user.
use vstd::prelude::*;

use crate::text::{decimal_chars, push_char, push_decimal};

verus! {

/// Battery levels in percent (`None` where unavailable), whether the dongle is
/// reachable, and whether any level is known.
#[derive(Clone, Copy, Debug, PartialEq, Eq, Structural)]
pub struct BatteryStatus {
    pub left: Option<u8>,
    pub right: Option<u8>,
    pub case: Option<u8>,
    pub connected: bool,
    pub known: bool,
}

/// The smaller of two optional levels, ignoring absent ones.
pub open spec fn min_level(a: Option<u8>, b: Option<u8>) -> Option<u8> {
    match (a, b) {
        (Some(x), Some(y)) => Some(if x <= y { x } else { y }),
        (Some(x), None) => Some(x),
        (None, _) => b,
    }
}

/// How a level is written for the user: `85%`, or `?` when unavailable.
pub open spec fn percent_text(value: Option<u8>) -> Seq<char> {
    match value {
        Some(p) => decimal_chars(p as nat).push('%'),
        None => seq!['?'],
    }
}

impl BatteryStatus {
    /// The status built from optional levels: connected, and known exactly
    /// when at least one level is present.
    pub open spec fn from_levels(left: Option<u8>, right: Option<u8>, case: Option<u8>) -> Self {
        BatteryStatus {
            left,
            right,
            case,
            connected: true,
            known: left is Some || right is Some || case is Some,
        }
    }

    pub open spec fn displayable(self) -> bool {
        self.connected && self.known
    }

    /// The four menu lines: status, left, right and case. A connected dongle
    /// shows each level, `?` where it is unknown (an earbud in the case, or no
    /// answer to the query); a disconnected one shows `--`.
    pub open spec fn lines(self) -> Seq<Seq<char>> {
        if self.connected {
            seq![
                "Status: Connected"@,
                "Left: "@ + percent_text(self.left),
                "Right: "@ + percent_text(self.right),
                "Case: "@ + percent_text(self.case),
            ]
        } else {
            seq!["Status: Disconnected"@, "Left: --"@, "Right: --"@, "Case: --"@]
        }
    }

    pub fn disconnected() -> (s: Self)
        ensures
            s == (BatteryStatus { left: None, right: None, case: None, connected: false, known: false }),
    {
        Self { left: None, right: None, case: None, connected: false, known: false }
    }

    pub fn unknown_connected() -> (s: Self)
        ensures
            s == (BatteryStatus { left: None, right: None, case: None, connected: true, known: false }),
    {
        Self { left: None, right: None, case: None, connected: true, known: false }
    }

    pub fn with_levels(left: u8, right: u8, case: u8) -> (s: Self)
        ensures
            s == Self::from_levels(Some(left), Some(right), Some(case)),
            s.known,
    {
        Self::with_optional_levels(Some(left), Some(right), Some(case))
    }

    pub fn with_optional_levels(left: Option<u8>, right: Option<u8>, case: Option<u8>) -> (s: Self)
        ensures
            s == Self::from_levels(left, right, case),
    {
        Self {
            left,
            right,
            case,
            connected: true,
            known: left.is_some() || right.is_some() || case.is_some(),
        }
    }

    /// The lowest level among those present.
    pub fn min_percent(&self) -> (m: Option<u8>)
        ensures
            m == min_level(min_level(self.left, self.right), self.case),
    {
        let mut m = self.left;
        if let Some(r) = self.right {
            m = match m {
                Some(x) => Some(if x <= r { x } else { r }),
                None => Some(r),
            };
        }
        if let Some(c) = self.case {
            m = match m {
                Some(x) => Some(if x <= c { x } else { c }),
                None => Some(c),
            };
        }
        m
    }

    pub fn has_displayable_values(&self) -> (b: bool)
        ensures
            b == self.displayable(),
    {
        self.connected && self.known
    }

    pub fn summary_lines(&self) -> (lines: [String; 4])
        ensures
            lines@.len() == 4,
            lines@[0]@ == self.lines()[0],
            lines@[1]@ == self.lines()[1],
            lines@[2]@ == self.lines()[2],
            lines@[3]@ == self.lines()[3],
    {
        if self.connected {
            [
                String::from_str("Status: Connected"),
                labelled_percent("Left: ", self.left),
                labelled_percent("Right: ", self.right),
                labelled_percent("Case: ", self.case),
            ]
        } else {
            [
                String::from_str("Status: Disconnected"),
                String::from_str("Left: --"),
                String::from_str("Right: --"),
                String::from_str("Case: --"),
            ]
        }
    }

    pub fn format_level(value: Option<u8>) -> (text: String)
        ensures
            text@ == percent_text(value),
    {
        format_percent(value)
    }
}

/// `label` followed by the rendering of `value`.
fn labelled_percent(label: &str, value: Option<u8>) -> (text: String)
    ensures
        text@ == label@ + percent_text(value),
{
    let mut text = String::from_str(label);
    push_percent(&mut text, value);
    text
}

/// Appends the rendering of `value`.
pub fn push_percent(s: &mut String, value: Option<u8>)
    ensures
        final(s)@ == old(s)@ + percent_text(value),
{
    let ghost before = s@;
    match value {
        Some(p) => {
            push_decimal(s, p as u128);
            push_char(s, '%');
            assert(s@ =~= before + percent_text(value));
        },
        None => {
            push_char(s, '?');
            assert(s@ =~= before + percent_text(value));
        },
    }
}

fn format_percent(value: Option<u8>) -> (text: String)
    ensures
        text@ == percent_text(value),
{
    let mut text = String::new();
    push_percent(&mut text, value);
    assert(text@ =~= percent_text(value));
    text
}

/// The lowest level is present exactly when some level is, is no higher than
/// any present level, and is one of them.
pub proof fn lemma_min_percent_is_lowest(left: Option<u8>, right: Option<u8>, case: Option<u8>)
    ensures
        ({
            let m = min_level(min_level(left, right), case);
            &&& (m is Some <==> (left is Some || right is Some || case is Some))
            &&& (m matches Some(v) ==> (left matches Some(l) ==> v <= l) && (right matches Some(r)
                ==> v <= r) && (case matches Some(c) ==> v <= c))
            &&& (m matches Some(v) ==> (left == Some(v) || right == Some(v) || case == Some(v)))
        }),
{
}

/// A status built from levels is connected, and it has something to show
/// exactly when one level is present.
pub proof fn lemma_levels_displayable(left: Option<u8>, right: Option<u8>, case: Option<u8>)
    ensures
        BatteryStatus::from_levels(left, right, case).connected,
        BatteryStatus::from_levels(left, right, case).displayable() <==> (left is Some
            || right is Some || case is Some),
{
}

} // verus!
