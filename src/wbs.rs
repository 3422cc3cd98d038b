//! The project identifier ("WBS element") and its three textual encodings.
//!
//! Recognised encodings, each matched against the whole string:
//! - cost center: `S-<any text without a line feed>-2-<2ddd>`; the four-digit
//!   group is the number.
//! - hard dollar: `D-<7 digits>-<5 digits>`.
//! - legacy: `S-<7 digits>-2-<2 digits>`.
//!
//! The three are mutually exclusive (see `lemma_encodings_exclusive`); they are
//! still tried in the order above.
//!
//! Formatting gives back every hard dollar and legacy text that parses (see
//! `lemma_format_after_parse`), but writes a cost center as its bare number,
//! without the `S-...-2-` frame. That asymmetry is deliberate: downstream
//! comparisons use the bare number.

use vstd::prelude::*;
use crate::digits::{
    all_digits, decimal, decimal_string, digits_value, is_digit, lemma_decimal_of_digits,
    lemma_digits_bound, lemma_padded_of_digits, padded_decimal, padded_decimal_string,
    parse_decimal_range, pow10,
};

verus! {

/// A project identifier.
#[derive(Clone, Debug, PartialEq, Eq, Hash, PartialOrd)]
pub enum Wbs {
    /// No identifier.
    NoWbs,
    /// Cost center identifier.
    CostCenter { cc: u32 },
    /// Hard dollar identifier: a capital job and a sequence id.
    Hd { job: String, id: u32 },
    /// Legacy identifier: a job and a shipment number.
    Legacy { job: String, shipment: u32 },
}

/// The variant of a [`Wbs`], without its fields.
#[derive(Clone, Copy, Debug, PartialEq, Eq, Structural)]
pub enum WbsKind {
    NoWbs,
    CostCenter,
    Hd,
    Legacy,
}

/// Failures of identifier parsing and conversion.
#[derive(Clone, Debug, PartialEq, Eq)]
pub enum WbsError {
    /// The text matches none of the three encodings.
    MalformedIdentifier(String),
    /// Only legacy and hard dollar identifiers can become hard dollar ones.
    InvalidPromotion(WbsKind),
    /// Only a hard dollar identifier has a sequence id to replace.
    NotHardDollar(WbsKind),
}

/// The mathematical value of a [`Wbs`].
pub enum WbsView {
    NoWbs,
    CostCenter { cc: u32 },
    Hd { job: Seq<char>, id: u32 },
    Legacy { job: Seq<char>, shipment: u32 },
}

impl View for Wbs {
    type V = WbsView;

    open spec fn view(&self) -> WbsView {
        match self {
            Wbs::NoWbs => WbsView::NoWbs,
            Wbs::CostCenter { cc } => WbsView::CostCenter { cc: *cc },
            Wbs::Hd { job, id } => WbsView::Hd { job: job@, id: *id },
            Wbs::Legacy { job, shipment } => WbsView::Legacy { job: job@, shipment: *shipment },
        }
    }
}

pub open spec fn kind_of(w: WbsView) -> WbsKind {
    match w {
        WbsView::NoWbs => WbsKind::NoWbs,
        WbsView::CostCenter { .. } => WbsKind::CostCenter,
        WbsView::Hd { .. } => WbsKind::Hd,
        WbsView::Legacy { .. } => WbsKind::Legacy,
    }
}

/// `s` is `S-<any text without a line feed>-2-<2ddd>`.
pub open spec fn is_cost_center_text(s: Seq<char>) -> bool {
    &&& s.len() >= 9
    &&& s[0] == 'S' && s[1] == '-'
    &&& forall|i: int| 2 <= i < s.len() - 7 ==> #[trigger] s[i] != '\n'
    &&& s[s.len() - 7] == '-' && s[s.len() - 6] == '2' && s[s.len() - 5] == '-'
    &&& s[s.len() - 4] == '2'
    &&& all_digits(s.subrange(s.len() - 4, s.len() as int))
}

/// `s` is `D-<7 digits>-<5 digits>`.
pub open spec fn is_hard_dollar_text(s: Seq<char>) -> bool {
    &&& s.len() == 15
    &&& s[0] == 'D' && s[1] == '-'
    &&& all_digits(s.subrange(2, 9))
    &&& s[9] == '-'
    &&& all_digits(s.subrange(10, 15))
}

/// `s` is `S-<7 digits>-2-<2 digits>`.
pub open spec fn is_legacy_text(s: Seq<char>) -> bool {
    &&& s.len() == 14
    &&& s[0] == 'S' && s[1] == '-'
    &&& all_digits(s.subrange(2, 9))
    &&& s[9] == '-' && s[10] == '2' && s[11] == '-'
    &&& all_digits(s.subrange(12, 14))
}

/// What `raw` denotes: `None` where it is non-empty and matches no encoding.
pub open spec fn parse_spec(raw: Seq<char>) -> Option<WbsView> {
    if raw.len() == 0 {
        Some(WbsView::NoWbs)
    } else if is_cost_center_text(raw) {
        Some(
            WbsView::CostCenter {
                cc: digits_value(raw.subrange(raw.len() - 4, raw.len() as int)) as u32,
            },
        )
    } else if is_hard_dollar_text(raw) {
        Some(WbsView::Hd { job: raw.subrange(2, 9), id: digits_value(raw.subrange(10, 15)) as u32 })
    } else if is_legacy_text(raw) {
        Some(
            WbsView::Legacy {
                job: raw.subrange(2, 9),
                shipment: digits_value(raw.subrange(12, 14)) as u32,
            },
        )
    } else {
        None
    }
}

/// The canonical text of an identifier.
pub open spec fn format_spec(w: WbsView) -> Seq<char> {
    match w {
        WbsView::NoWbs => Seq::empty(),
        WbsView::CostCenter { cc } => decimal(cc as nat),
        WbsView::Hd { job, id } => seq!['D', '-'] + job + seq!['-'] + padded_decimal(id as nat, 5),
        WbsView::Legacy { job, shipment } => seq!['S', '-'] + job + seq!['-', '2', '-']
            + padded_decimal(shipment as nat, 2),
    }
}

/// Promotion to a hard dollar identifier, where it is defined.
pub open spec fn promote_spec(w: WbsView, new_id: u32) -> Option<WbsView> {
    match w {
        WbsView::Hd { .. } => Some(w),
        WbsView::Legacy { job, .. } => Some(WbsView::Hd { job, id: new_id }),
        _ => None,
    }
}

/// No character `from..to` of `s` is a line feed.
fn no_line_feed(s: &str, from: usize, to: usize) -> (r: bool)
    requires
        to <= s@.len(),
    ensures
        r == (forall|i: int| from <= i < to ==> #[trigger] s@[i] != '\n'),
{
    let mut i: usize = from;
    while i < to
        invariant
            from <= i,
            to <= s@.len(),
            forall|j: int| from <= j < i ==> #[trigger] s@[j] != '\n',
        decreases to - i,
    {
        let c = s.get_char(i);
        if c == '\n' {
            assert(s@[i as int] == '\n');
            return false;
        }
        i = i + 1;
    }
    true
}

/// Characters `from..to` of `s` are digits.
fn digits_at(s: &str, from: usize, to: usize) -> (r: bool)
    requires
        from <= to <= s@.len(),
    ensures
        r == all_digits(s@.subrange(from as int, to as int)),
{
    let ghost t = s@.subrange(from as int, to as int);
    let mut i: usize = from;
    while i < to
        invariant
            from <= i <= to <= s@.len(),
            t == s@.subrange(from as int, to as int),
            forall|j: int| 0 <= j < i - from ==> is_digit(#[trigger] t[j]),
        decreases to - i,
    {
        let c = s.get_char(i);
        assert(t[i - from] == c);
        if !('0' <= c && c <= '9') {
            return false;
        }
        i = i + 1;
    }
    true
}

/// The value of characters `from..to` of `s`, known to be at most nine digits.
fn group_value(s: &str, from: usize, to: usize) -> (r: u32)
    requires
        from < to <= s@.len(),
        to - from <= 9,
        all_digits(s@.subrange(from as int, to as int)),
    ensures
        r == digits_value(s@.subrange(from as int, to as int)),
{
    let ghost t = s@.subrange(from as int, to as int);
    proof {
        lemma_digits_bound(t);
        lemma_pow10_le_nine(t.len());
    }
    let r = parse_decimal_range(s, from, to);
    r.unwrap()
}

proof fn lemma_pow10_le_nine(n: nat)
    requires
        n <= 9,
    ensures
        pow10(n) <= 1_000_000_000,
{
    reveal_with_fuel(pow10, 10);
}

impl Wbs {
    /// Parses an identifier. The empty string is [`Wbs::NoWbs`]; any other text
    /// must match one of the three encodings, tried in the order cost center,
    /// hard dollar, legacy.
    pub fn parse(raw: &str) -> (r: Result<Wbs, WbsError>)
        ensures
            match r {
                Ok(w) => parse_spec(raw@) == Some(w@),
                Err(e) => parse_spec(raw@) is None && (e matches WbsError::MalformedIdentifier(t)
                    && t@ == raw@),
            },
    {
        let n = raw.unicode_len();
        if n == 0 {
            return Ok(Wbs::NoWbs);
        }
        if n >= 9 && raw.get_char(0) == 'S' && raw.get_char(1) == '-' && no_line_feed(raw, 2, n - 7)
            && raw.get_char(n - 7) == '-' && raw.get_char(n - 6) == '2' && raw.get_char(n - 5) == '-' && raw.get_char(n - 4)
            == '2' && digits_at(raw, n - 4, n) {
            let cc = group_value(raw, n - 4, n);
            return Ok(Wbs::CostCenter { cc });
        }
        if n == 15 && raw.get_char(0) == 'D' && raw.get_char(1) == '-' && digits_at(raw, 2, 9)
            && raw.get_char(9) == '-' && digits_at(raw, 10, 15) {
            let job = raw.substring_char(2, 9).to_owned();
            let id = group_value(raw, 10, 15);
            return Ok(Wbs::Hd { job, id });
        }
        if n == 14 && raw.get_char(0) == 'S' && raw.get_char(1) == '-' && digits_at(raw, 2, 9)
            && raw.get_char(9) == '-' && raw.get_char(10) == '2' && raw.get_char(11) == '-'
            && digits_at(raw, 12, 14) {
            let job = raw.substring_char(2, 9).to_owned();
            let shipment = group_value(raw, 12, 14);
            return Ok(Wbs::Legacy { job, shipment });
        }
        Err(WbsError::MalformedIdentifier(raw.to_owned()))
    }

    /// The canonical text: `""`, the bare cost center number,
    /// `D-<job>-<id, at least 5 digits>` or `S-<job>-2-<shipment, at least 2 digits>`,
    /// numbers padded with leading zeros.
    pub fn format(&self) -> (r: String)
        ensures
            r@ == format_spec(self@),
    {
        proof {
            reveal_strlit("D-");
            reveal_strlit("S-");
            reveal_strlit("-");
            reveal_strlit("-2-");
        }
        match self {
            Wbs::NoWbs => String::new(),
            Wbs::CostCenter { cc } => decimal_string(*cc),
            Wbs::Hd { job, id } => {
                let mut s = String::from_str("D-");
                s.append(job.as_str());
                s.append("-");
                let d = padded_decimal_string(*id, 5);
                s.append(d.as_str());
                assert(s@ =~= format_spec(self@));
                s
            },
            Wbs::Legacy { job, shipment } => {
                let mut s = String::from_str("S-");
                s.append(job.as_str());
                s.append("-2-");
                let d = padded_decimal_string(*shipment, 2);
                s.append(d.as_str());
                assert(s@ =~= format_spec(self@));
                s
            },
        }
    }

    /// Which variant this is.
    pub fn kind(&self) -> (r: WbsKind)
        ensures
            r == kind_of(self@),
    {
        match self {
            Wbs::NoWbs => WbsKind::NoWbs,
            Wbs::CostCenter { .. } => WbsKind::CostCenter,
            Wbs::Hd { .. } => WbsKind::Hd,
            Wbs::Legacy { .. } => WbsKind::Legacy,
        }
    }

    /// Replaces the sequence id of a hard dollar identifier.
    pub fn set_id(self, new_id: u32) -> (r: Result<Wbs, WbsError>)
        ensures
            match self@ {
                WbsView::Hd { job, .. } => r matches Ok(w) && w@ == WbsView::Hd { job, id: new_id },
                _ => r matches Err(e) && e == WbsError::NotHardDollar(kind_of(self@)),
            },
    {
        let k = self.kind();
        match self {
            Wbs::Hd { job, .. } => Ok(Wbs::Hd { job, id: new_id }),
            _ => Err(WbsError::NotHardDollar(k)),
        }
    }

    /// Promotes a planned identifier to a hard dollar one. A legacy identifier
    /// keeps its job and takes `id`; a hard dollar one is returned unchanged.
    pub fn into_hd_wbs(self, id: u32) -> (r: Result<Wbs, WbsError>)
        ensures
            match promote_spec(self@, id) {
                Some(v) => r matches Ok(w) && w@ == v,
                None => r matches Err(e) && e == WbsError::InvalidPromotion(kind_of(self@)),
            },
            self@ is Hd ==> r == Ok::<Wbs, WbsError>(self),
    {
        let k = self.kind();
        match self {
            Wbs::Hd { .. } => Ok(self),
            Wbs::Legacy { job, .. } => Ok(Wbs::Hd { job, id }),
            _ => Err(WbsError::InvalidPromotion(k)),
        }
    }
}

/// No text matches two of the encodings, so the order in which they are
/// tried never decides the result.
pub proof fn lemma_encodings_exclusive(s: Seq<char>)
    ensures
        !(is_cost_center_text(s) && is_hard_dollar_text(s)),
        !(is_cost_center_text(s) && is_legacy_text(s)),
        !(is_hard_dollar_text(s) && is_legacy_text(s)),
{
    if is_cost_center_text(s) && is_legacy_text(s) {
        assert(s.subrange(2, 9)[5] == s[7]);
        assert(is_digit(s[7]));
    }
}

/// Parsing then formatting gives back every hard dollar and legacy text; a
/// cost center text gives back its four-digit group alone.
pub proof fn lemma_format_after_parse(s: Seq<char>)
    ensures
        is_cost_center_text(s) ==> (parse_spec(s) matches Some(w) && format_spec(w)
            == s.subrange(s.len() - 4, s.len() as int)),
        is_hard_dollar_text(s) ==> (parse_spec(s) matches Some(w) && format_spec(w) == s),
        is_legacy_text(s) ==> (parse_spec(s) matches Some(w) && format_spec(w) == s),
{
    lemma_encodings_exclusive(s);
    if is_cost_center_text(s) {
        let g = s.subrange(s.len() - 4, s.len() as int);
        assert(g[0] == '2');
        lemma_decimal_of_digits(g);
        lemma_digits_bound(g);
        reveal_with_fuel(pow10, 5);
    }
    if is_hard_dollar_text(s) {
        let g = s.subrange(10, 15);
        lemma_padded_of_digits(g);
        lemma_digits_bound(g);
        reveal_with_fuel(pow10, 6);
        assert(format_spec(parse_spec(s).unwrap()) =~= s);
    }
    if is_legacy_text(s) {
        let g = s.subrange(12, 14);
        lemma_padded_of_digits(g);
        lemma_digits_bound(g);
        reveal_with_fuel(pow10, 3);
        assert(format_spec(parse_spec(s).unwrap()) =~= s);
    }
}

} // verus!
