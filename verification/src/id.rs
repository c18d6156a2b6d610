//! The id component of an identifier: a tagged value that is either a
//! number or a text, with its own grammar, canonical rendering, equality and
//! total order.

use crate::escape::{all_safe, escape_content, quote_name};
use crate::parse::{
    digit_run_len, digits_to_u64, ident_raw, lemma_digit_run_len_props, lemma_parse_table_bounds,
    open_bracket, scan_digit_run, spec_parse_table,
};
use crate::text::{
    all_digits, all_val_chars, chars_cmp, digits_val, lemma_chars_cmp_eq, render_i64, render_int,
};
use core::cmp::Ordering;
use vstd::prelude::*;

verus! {

/// The id part of an identifier: polymorphic over its shape, with a numeric
/// and a textual variant.
#[derive(Debug, Clone)]
pub enum Id {
    Number(i64),
    Text(String),
}

/// The mathematical value of an [`Id`].
pub enum IdView {
    Number(int),
    Text(Seq<char>),
}

impl View for Id {
    type V = IdView;

    open spec fn view(&self) -> IdView {
        match self {
            Id::Number(n) => IdView::Number(*n as int),
            Id::Text(t) => IdView::Text(t@),
        }
    }
}

/// An id value that an `Id` can hold: its number fits the machine integer.
pub open spec fn id_wf(id: IdView) -> bool {
    match id {
        IdView::Number(n) => i64::MIN <= n <= i64::MAX,
        IdView::Text(_) => true,
    }
}

/// Magnitude bound of the most negative number the id grammar accepts.
pub open spec fn neg_magnitude_max() -> int {
    0x8000_0000_0000_0000
}

/// Largest positive number the id grammar accepts.
pub open spec fn pos_max() -> int {
    0x7fff_ffff_ffff_ffff
}

/// Recognizes an id component: a minus sign followed by digits is a negative
/// number; a bare token of digits within machine range is a nonnegative
/// number; any other name token (bare or quoted) is a text.
pub open spec fn spec_parse_id(s: Seq<char>) -> Option<(IdView, int)> {
    if s.len() > 0 && s[0] == '-' {
        let k = digit_run_len(s.skip(1));
        if k == 0 {
            None
        } else {
            let v = digits_val(s.skip(1).take(k));
            if v <= neg_magnitude_max() {
                Some((IdView::Number(-(v as int)), 1 + k))
            } else {
                None
            }
        }
    } else {
        match spec_parse_table(s) {
            None => None,
            Some((content, n)) => {
                if s[0] != '`' && s[0] != open_bracket() && all_digits(content) && digits_val(
                    content,
                ) <= pos_max() {
                    Some((IdView::Number(digits_val(content) as int), n))
                } else {
                    Some((IdView::Text(content), n))
                }
            },
        }
    }
}

/// A successful id token consumes at least one character and no more than
/// the input.
pub proof fn lemma_parse_id_bounds(s: Seq<char>)
    ensures
        spec_parse_id(s) matches Some((idv, n)) ==> 1 <= n <= s.len() && id_wf(idv),
{
    if s.len() > 0 && s[0] == '-' {
        crate::parse::lemma_digit_run_len_props(s.skip(1));
    } else {
        lemma_parse_table_bounds(s);
    }
}

/// Scans an id component beginning at `from`, matching [`spec_parse_id`];
/// on success returns the component and the index just past it.
pub fn id(s: &str, from: usize) -> (r: Option<(Id, usize)>)
    requires
        from <= s@.len(),
    ensures
        spec_parse_id(s@.skip(from as int)) is None ==> r is None,
        spec_parse_id(s@.skip(from as int)) matches Some((idv, n)) ==> r matches Some(rr)
            && rr.0@ == idv && rr.1 == from + n && from + n <= s@.len(),
{
    let ghost sp = s@.skip(from as int);
    let n = s.unicode_len();
    if from < n && s.get_char(from) == '-' {
        proof {
            assert(sp[0] == s@[from as int]);
            assert(sp.skip(1) =~= s@.skip(from + 1));
        }
        let dend = scan_digit_run(s, from + 1);
        let ghost k = digit_run_len(s@.skip(from + 1));
        if dend == from + 1 {
            return None;
        }
        proof {
            lemma_digit_run_len_props(s@.skip(from + 1));
            assert(s@.subrange(from + 1, dend as int) =~= s@.skip(from + 1).take(k));
            assert(forall|j: int|
                0 <= j < k ==> #[trigger] s@.skip(from + 1).take(k)[j] == s@.skip(from + 1)[j]);
        }
        match digits_to_u64(s, from + 1, dend) {
            None => {
                proof {
                    assert(digits_val(sp.skip(1).take(k)) > u64::MAX);
                }
                None
            },
            Some(v) => {
                if v <= 0x8000_0000_0000_0000u64 {
                    let num: i64 = if v == 0x8000_0000_0000_0000u64 {
                        i64::MIN
                    } else {
                        -(v as i64)
                    };
                    proof {
                        assert(num as int == -(v as int));
                    }
                    Some((Id::Number(num), dend))
                } else {
                    None
                }
            },
        }
    } else {
        proof {
            if sp.len() > 0 {
                assert(sp[0] == s@[from as int]);
            }
        }
        match ident_raw(s, from) {
            None => None,
            Some((content, j)) => {
                proof {
                    lemma_parse_table_bounds(sp);
                }
                let c0 = s.get_char(from);
                if c0 != '`' && c0 != '\u{27E8}' {
                    let clen = content.as_str().unicode_len();
                    let dend = scan_digit_run(content.as_str(), 0);
                    proof {
                        assert(content@.skip(0) =~= content@);
                        lemma_digit_run_len_props(content@);
                        if dend == clen {
                            assert(all_digits(content@));
                        } else {
                            assert(!is_digit_at(content@, digit_run_len(content@)));
                            assert(!all_digits(content@));
                        }
                    }
                    if dend == clen {
                        proof {
                            assert(content@.subrange(0, clen as int) =~= content@);
                        }
                        match digits_to_u64(content.as_str(), 0, clen) {
                            Some(v) => {
                                if v <= 0x7fff_ffff_ffff_ffffu64 {
                                    Some((Id::Number(v as i64), j))
                                } else {
                                    Some((Id::Text(content), j))
                                }
                            },
                            None => Some((Id::Text(content), j)),
                        }
                    } else {
                        Some((Id::Text(content), j))
                    }
                } else {
                    Some((Id::Text(content), j))
                }
            },
        }
    }
}

/// Helper predicate naming a digit at one position.
pub open spec fn is_digit_at(s: Seq<char>, j: int) -> bool {
    crate::text::is_digit(s[j])
}

/// A text id needs quotes when it is empty, holds an unsafe character, or
/// could be mistaken for a number when read back.
pub open spec fn id_needs_quotes(s: Seq<char>) -> bool {
    s.len() == 0 || !all_val_chars(s) || all_digits(s)
}

/// The canonical rendering of an id component: numbers in decimal, texts
/// bare when that reads back as the same text, quoted otherwise.
pub open spec fn spec_render_id(id: IdView) -> Seq<char> {
    match id {
        IdView::Number(n) => render_int(n),
        IdView::Text(t) => if id_needs_quotes(t) {
            seq!['`'] + escape_content(t, '`') + seq!['`']
        } else {
            t
        },
    }
}

/// Order between two id values: numbers before texts, numbers by value,
/// texts lexicographically.
pub open spec fn id_cmp(a: IdView, b: IdView) -> Ordering {
    match (a, b) {
        (IdView::Number(x), IdView::Number(y)) => if x < y {
            Ordering::Less
        } else if x == y {
            Ordering::Equal
        } else {
            Ordering::Greater
        },
        (IdView::Number(_), IdView::Text(_)) => Ordering::Less,
        (IdView::Text(_), IdView::Number(_)) => Ordering::Greater,
        (IdView::Text(x), IdView::Text(y)) => chars_cmp(x, y),
    }
}

/// The order finds two id values equal exactly when they are equal.
pub proof fn lemma_id_cmp_eq(a: IdView, b: IdView)
    ensures
        id_cmp(a, b) == Ordering::Equal <==> a == b,
{
    if let (IdView::Text(x), IdView::Text(y)) = (a, b) {
        lemma_chars_cmp_eq(x, y);
    }
}

impl Id {
    /// The canonical text of this id, matching [`spec_render_id`].
    pub fn to_text(&self) -> (r: String)
        ensures
            r@ == spec_render_id(self@),
    {
        match self {
            Id::Number(n) => render_i64(*n),
            Id::Text(t) => {
                let tlen = t.as_str().unicode_len();
                let dend = scan_digit_run(t.as_str(), 0);
                proof {
                    assert(t@.skip(0) =~= t@);
                    lemma_digit_run_len_props(t@);
                    if dend == tlen {
                        assert(all_digits(t@));
                    } else {
                        assert(!is_digit_at(t@, digit_run_len(t@)));
                        assert(!all_digits(t@));
                    }
                }
                if tlen > 0 && dend < tlen && all_safe(t.as_str()) {
                    t.clone()
                } else {
                    quote_name(t.as_str())
                }
            },
        }
    }

    /// Compares two id values in the order of [`id_cmp`].
    pub fn compare(&self, other: &Id) -> (r: Ordering)
        ensures
            r == id_cmp(self@, other@),
    {
        match (self, other) {
            (Id::Number(x), Id::Number(y)) => {
                if *x < *y {
                    Ordering::Less
                } else if *x == *y {
                    Ordering::Equal
                } else {
                    Ordering::Greater
                }
            },
            (Id::Number(_), Id::Text(_)) => Ordering::Less,
            (Id::Text(_), Id::Number(_)) => Ordering::Greater,
            (Id::Text(x), Id::Text(y)) => crate::text::str_cmp(x.as_str(), y.as_str()),
        }
    }
}

impl PartialEq for Id {
    /// Two id values are equal when their views are.
    fn eq(&self, other: &Id) -> (r: bool) {
        match (self, other) {
            (Id::Number(x), Id::Number(y)) => *x == *y,
            (Id::Text(x), Id::Text(y)) => *x == *y,
            _ => false,
        }
    }
}

impl vstd::std_specs::cmp::PartialEqSpecImpl for Id {
    open spec fn obeys_eq_spec() -> bool {
        true
    }

    open spec fn eq_spec(&self, other: &Id) -> bool {
        self@ == other@
    }
}

impl PartialOrd for Id {
    /// The order of [`id_cmp`]; always defined.
    fn partial_cmp(&self, other: &Id) -> (r: Option<Ordering>) {
        Some(self.compare(other))
    }
}

impl vstd::std_specs::cmp::PartialOrdSpecImpl for Id {
    open spec fn obeys_partial_cmp_spec() -> bool {
        true
    }

    open spec fn partial_cmp_spec(&self, other: &Id) -> Option<Ordering> {
        Some(id_cmp(self@, other@))
    }
}

impl From<String> for Id {
    /// A plain string becomes a text id, kept verbatim.
    fn from(v: String) -> (r: Id) {
        Id::Text(v)
    }
}

impl vstd::std_specs::convert::FromSpecImpl<String> for Id {
    open spec fn obeys_from_spec() -> bool {
        true
    }

    open spec fn from_spec(v: String) -> Id {
        Id::Text(v)
    }
}

impl From<i64> for Id {
    /// A number becomes a numeric id, kept verbatim.
    fn from(v: i64) -> (r: Id) {
        Id::Number(v)
    }
}

impl vstd::std_specs::convert::FromSpecImpl<i64> for Id {
    open spec fn obeys_from_spec() -> bool {
        true
    }

    open spec fn from_spec(v: i64) -> Id {
        Id::Number(v)
    }
}

} // verus!
