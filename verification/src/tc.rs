//! Timecode models: the closed set of supported frame-rate tags with its
//! string round-trip, and the hour/minute/second/frame quadruple with its
//! canonical display form.

use crate::scan::str_eq;
use vstd::prelude::*;

verus! {

/// The closed set of supported frame-rate tags, including drop-frame
/// variants. Each variant has exactly one canonical string token.
#[derive(Debug, PartialEq, Eq, Clone, Copy, Structural)]
pub enum TimeCodeFormat {
    Fps24,
    Fps25,
    Fps30,
    Fps30DropFrame,
    Fps50,
    Fps60,
    Fps60DropFrame,
}

/// The canonical token of a frame-rate variant.
pub open spec fn spec_format_token(v: TimeCodeFormat) -> Seq<char> {
    match v {
        TimeCodeFormat::Fps24 => "24"@,
        TimeCodeFormat::Fps25 => "25"@,
        TimeCodeFormat::Fps30 => "30"@,
        TimeCodeFormat::Fps30DropFrame => "30DF"@,
        TimeCodeFormat::Fps50 => "50"@,
        TimeCodeFormat::Fps60 => "60"@,
        TimeCodeFormat::Fps60DropFrame => "60DF"@,
    }
}

/// Exact, case-sensitive match of a token against the seven canonical
/// tokens; anything else is no match.
pub open spec fn spec_parse_format(s: Seq<char>) -> Option<TimeCodeFormat> {
    if s == "24"@ {
        Some(TimeCodeFormat::Fps24)
    } else if s == "25"@ {
        Some(TimeCodeFormat::Fps25)
    } else if s == "30"@ {
        Some(TimeCodeFormat::Fps30)
    } else if s == "30DF"@ {
        Some(TimeCodeFormat::Fps30DropFrame)
    } else if s == "50"@ {
        Some(TimeCodeFormat::Fps50)
    } else if s == "60"@ {
        Some(TimeCodeFormat::Fps60)
    } else if s == "60DF"@ {
        Some(TimeCodeFormat::Fps60DropFrame)
    } else {
        None
    }
}

impl TimeCodeFormat {
    /// Parses a frame-rate token; `None` on any string that is not one of
    /// the seven canonical tokens.
    pub fn from_str(s: &str) -> (r: Option<TimeCodeFormat>)
        ensures
            r == spec_parse_format(s@),
    {
        if str_eq(s, "24") {
            Some(TimeCodeFormat::Fps24)
        } else if str_eq(s, "25") {
            Some(TimeCodeFormat::Fps25)
        } else if str_eq(s, "30") {
            Some(TimeCodeFormat::Fps30)
        } else if str_eq(s, "30DF") {
            Some(TimeCodeFormat::Fps30DropFrame)
        } else if str_eq(s, "50") {
            Some(TimeCodeFormat::Fps50)
        } else if str_eq(s, "60") {
            Some(TimeCodeFormat::Fps60)
        } else if str_eq(s, "60DF") {
            Some(TimeCodeFormat::Fps60DropFrame)
        } else {
            None
        }
    }

    /// The canonical token of this variant; total, never fails.
    pub fn as_str(&self) -> (r: &'static str)
        ensures
            r@ == spec_format_token(*self),
    {
        match self {
            TimeCodeFormat::Fps24 => "24",
            TimeCodeFormat::Fps25 => "25",
            TimeCodeFormat::Fps30 => "30",
            TimeCodeFormat::Fps30DropFrame => "30DF",
            TimeCodeFormat::Fps50 => "50",
            TimeCodeFormat::Fps60 => "60",
            TimeCodeFormat::Fps60DropFrame => "60DF",
        }
    }
}

impl Default for TimeCodeFormat {
    /// The placeholder variant; never produced by a parsing failure.
    fn default() -> (r: Self)
        ensures
            r == TimeCodeFormat::Fps30,
    {
        TimeCodeFormat::Fps30
    }
}

/// Law: every frame-rate variant survives the string round-trip — parsing
/// the canonical token of `v` yields exactly `Some(v)`.
pub proof fn lemma_format_round_trip(v: TimeCodeFormat)
    ensures
        spec_parse_format(spec_format_token(v)) == Some(v),
{
    reveal_strlit("24");
    reveal_strlit("25");
    reveal_strlit("30");
    reveal_strlit("30DF");
    reveal_strlit("50");
    reveal_strlit("60");
    reveal_strlit("60DF");
    match v {
        TimeCodeFormat::Fps24 => {
        },
        TimeCodeFormat::Fps25 => {
            assert("25"@[1] != "24"@[1]);
        },
        TimeCodeFormat::Fps30 => {
            assert("30"@[0] != "24"@[0]);
            assert("30"@[1] != "25"@[1]);
        },
        TimeCodeFormat::Fps30DropFrame => {
            assert("30DF"@.len() != "24"@.len());
            assert("30DF"@.len() != "25"@.len());
            assert("30DF"@.len() != "30"@.len());
        },
        TimeCodeFormat::Fps50 => {
            assert("50"@[0] != "24"@[0]);
            assert("50"@[0] != "25"@[0]);
            assert("50"@[0] != "30"@[0]);
            assert("50"@.len() != "30DF"@.len());
        },
        TimeCodeFormat::Fps60 => {
            assert("60"@[0] != "24"@[0]);
            assert("60"@[0] != "25"@[0]);
            assert("60"@[0] != "30"@[0]);
            assert("60"@.len() != "30DF"@.len());
            assert("60"@[0] != "50"@[0]);
        },
        TimeCodeFormat::Fps60DropFrame => {
            assert("60DF"@.len() != "24"@.len());
            assert("60DF"@.len() != "25"@.len());
            assert("60DF"@.len() != "30"@.len());
            assert("60DF"@[0] != "30DF"@[0]);
            assert("60DF"@.len() != "50"@.len());
            assert("60DF"@.len() != "60"@.len());
        },
    }
}

/// Law: the token mapping is a bijection over the closed variant set — a
/// token that parses to `v` is exactly the canonical token of `v`.
pub proof fn lemma_format_parse_then_token(s: Seq<char>, v: TimeCodeFormat)
    requires
        spec_parse_format(s) == Some(v),
    ensures
        spec_format_token(v) == s,
{
}

/// A timecode quadruple. No upper-bound validation against the frame rate
/// is performed: the frame may exceed the nominal rate.
#[derive(Debug, PartialEq, Eq, Clone, Copy, Structural)]
pub struct TimeCode {
    pub hour: u32,
    pub minute: u32,
    pub second: u32,
    pub frame: u32,
}

/// The decimal digit character for `d` (`d < 10` expected).
pub open spec fn spec_digit_char(d: nat) -> char
    recommends
        d < 10,
{
    if d == 0 {
        '0'
    } else if d == 1 {
        '1'
    } else if d == 2 {
        '2'
    } else if d == 3 {
        '3'
    } else if d == 4 {
        '4'
    } else if d == 5 {
        '5'
    } else if d == 6 {
        '6'
    } else if d == 7 {
        '7'
    } else if d == 8 {
        '8'
    } else {
        '9'
    }
}

/// The decimal rendering of `n`, most significant digit first, with no
/// leading zeros (a single `'0'` for zero itself).
pub open spec fn spec_dec_digits(n: nat) -> Seq<char>
    decreases n,
{
    if n < 10 {
        seq![spec_digit_char(n)]
    } else {
        spec_dec_digits(n / 10) + seq![spec_digit_char(n % 10)]
    }
}

/// The decimal rendering of `n`, zero-padded on the left to at least two
/// digits.
pub open spec fn spec_pad2(n: nat) -> Seq<char> {
    if n < 10 {
        seq!['0'] + spec_dec_digits(n)
    } else {
        spec_dec_digits(n)
    }
}

/// The canonical display form of a timecode: `HH:MM:SS;FF`, each field
/// zero-padded to at least two digits.
pub open spec fn spec_timecode_display(t: TimeCode) -> Seq<char> {
    spec_pad2(t.hour as nat) + seq![':'] + spec_pad2(t.minute as nat) + seq![':'] + spec_pad2(
        t.second as nat,
    ) + seq![';'] + spec_pad2(t.frame as nat)
}

/// The one-character string for a decimal digit.
fn digit_str(d: u32) -> (r: &'static str)
    requires
        d < 10,
    ensures
        r@ == seq![spec_digit_char(d as nat)],
{
    proof {
        reveal_strlit("0");
        reveal_strlit("1");
        reveal_strlit("2");
        reveal_strlit("3");
        reveal_strlit("4");
        reveal_strlit("5");
        reveal_strlit("6");
        reveal_strlit("7");
        reveal_strlit("8");
        reveal_strlit("9");
    }
    let r: &'static str = if d == 0 {
        "0"
    } else if d == 1 {
        "1"
    } else if d == 2 {
        "2"
    } else if d == 3 {
        "3"
    } else if d == 4 {
        "4"
    } else if d == 5 {
        "5"
    } else if d == 6 {
        "6"
    } else if d == 7 {
        "7"
    } else if d == 8 {
        "8"
    } else {
        "9"
    };
    proof {
        assert(r@ =~= seq![spec_digit_char(d as nat)]);
    }
    r
}

/// Renders `x` in decimal, most significant digit first.
fn u32_dec_string(x: u32) -> (r: String)
    ensures
        r@ == spec_dec_digits(x as nat),
    decreases x,
{
    if x < 10 {
        String::from_str(digit_str(x))
    } else {
        let q: u32 = x / 10;
        let rem: u32 = x % 10;
        proof {
            assert(q < x) by (nonlinear_arith)
                requires
                    x >= 10,
                    q == x / 10,
            ;
        }
        let s = u32_dec_string(q);
        s.concat(digit_str(rem))
    }
}

/// Renders `x` in decimal, most significant digit first.
pub(crate) fn usize_dec_string(x: usize) -> (r: String)
    ensures
        r@ == spec_dec_digits(x as nat),
    decreases x,
{
    if x < 10 {
        String::from_str(digit_str(x as u32))
    } else {
        let q: usize = x / 10;
        let rem: usize = x % 10;
        proof {
            assert(q < x) by (nonlinear_arith)
                requires
                    x >= 10,
                    q == x / 10,
            ;
        }
        let s = usize_dec_string(q);
        s.concat(digit_str(rem as u32))
    }
}

/// Renders `x` in decimal, zero-padded to at least two digits.
fn pad2_string(x: u32) -> (r: String)
    ensures
        r@ == spec_pad2(x as nat),
{
    if x < 10 {
        proof {
            reveal_strlit("0");
        }
        let s = String::from_str("0");
        let r = s.concat(digit_str(x));
        proof {
            assert(r@ =~= spec_pad2(x as nat));
        }
        r
    } else {
        u32_dec_string(x)
    }
}

impl TimeCode {
    /// The canonical display form `HH:MM:SS;FF`.
    pub fn display(&self) -> (r: String)
        ensures
            r@ == spec_timecode_display(*self),
    {
        let mut s = pad2_string(self.hour);
        s.append(":");
        let m = pad2_string(self.minute);
        s.append(m.as_str());
        s.append(":");
        let sec = pad2_string(self.second);
        s.append(sec.as_str());
        s.append(";");
        let f = pad2_string(self.frame);
        s.append(f.as_str());
        proof {
            reveal_strlit(":");
            reveal_strlit(";");
            assert(":"@ =~= seq![':']);
            assert(";"@ =~= seq![';']);
            assert(s@ =~= spec_timecode_display(*self));
        }
        s
    }
}

impl From<(u32, u32, u32, u32)> for TimeCode {
    /// Builds a timecode from `(hour, minute, second, frame)`.
    fn from(t: (u32, u32, u32, u32)) -> (r: Self) {
        TimeCode { hour: t.0, minute: t.1, second: t.2, frame: t.3 }
    }
}

impl vstd::std_specs::convert::FromSpecImpl<(u32, u32, u32, u32)> for TimeCode {
    open spec fn obeys_from_spec() -> bool {
        true
    }

    open spec fn from_spec(t: (u32, u32, u32, u32)) -> TimeCode {
        TimeCode { hour: t.0, minute: t.1, second: t.2, frame: t.3 }
    }
}

} // verus!
