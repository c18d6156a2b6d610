//! The composite record identifier `table:id`: its recognizer, its
//! canonical rendering, and its equality and order.

use crate::escape::{escape_table, escape_table_str};
use crate::id::{id, id_cmp, id_wf, spec_parse_id, spec_render_id, Id, IdView};
use crate::parse::{ident_raw, lemma_parse_table_bounds, spec_parse_table};
use crate::text::chars_cmp;
use core::cmp::Ordering;
use vstd::prelude::*;

verus! {

/// A record identifier: a table name and an id component within it.
#[derive(Debug, Clone)]
pub struct Thing {
    pub tb: String,
    pub id: Id,
}

/// The mathematical value of a [`Thing`].
pub struct ThingView {
    pub tb: Seq<char>,
    pub id: IdView,
}

impl View for Thing {
    type V = ThingView;

    open spec fn view(&self) -> ThingView {
        ThingView { tb: self.tb@, id: self.id@ }
    }
}

/// An identifier value that a `Thing` can hold.
pub open spec fn thing_wf(t: ThingView) -> bool {
    id_wf(t.id)
}

/// Failure of the recognizer, each with the position (in characters) of the
/// offending part of the input.
#[derive(Debug, Clone, Copy, PartialEq, Eq, Structural)]
pub enum ParseError {
    /// The input does not open with a well-formed table token.
    MalformedTable(usize),
    /// No `:` follows the table token; holds the position where it was
    /// expected.
    MissingSeparator(usize),
    /// The id component could not be read; holds the position just past the
    /// separator.
    ComponentParseFailure(usize),
}

/// The mathematical value of a [`ParseError`].
pub enum ParseErrorView {
    MalformedTable(int),
    MissingSeparator(int),
    ComponentParseFailure(int),
}

impl View for ParseError {
    type V = ParseErrorView;

    open spec fn view(&self) -> ParseErrorView {
        match self {
            ParseError::MalformedTable(p) => ParseErrorView::MalformedTable(*p as int),
            ParseError::MissingSeparator(p) => ParseErrorView::MissingSeparator(*p as int),
            ParseError::ComponentParseFailure(p) => ParseErrorView::ComponentParseFailure(
                *p as int,
            ),
        }
    }
}

/// Recognizes a leading identifier `table ':' id` and tells how many
/// characters it spans; otherwise tells exactly which part failed, and
/// where. No partial identifier is ever produced.
pub open spec fn spec_parse_thing(s: Seq<char>) -> Result<(ThingView, int), ParseErrorView> {
    match spec_parse_table(s) {
        None => Err(ParseErrorView::MalformedTable(0)),
        Some((tb, n)) => {
            if n == s.len() || s[n] != ':' {
                Err(ParseErrorView::MissingSeparator(n))
            } else {
                match spec_parse_id(s.skip(n + 1)) {
                    None => Err(ParseErrorView::ComponentParseFailure(n + 1)),
                    Some((idv, m)) => Ok((ThingView { tb, id: idv }, n + 1 + m)),
                }
            }
        },
    }
}

/// A recognized identifier spans at least three characters, at most the
/// input, and holds a well-formed value.
pub proof fn lemma_parse_thing_bounds(s: Seq<char>)
    ensures
        spec_parse_thing(s) matches Ok((tv, n)) ==> 3 <= n <= s.len() && thing_wf(tv),
{
    lemma_parse_table_bounds(s);
    if let Some((tb, n)) = spec_parse_table(s) {
        if n < s.len() && s[n] == ':' {
            crate::id::lemma_parse_id_bounds(s.skip(n + 1));
        }
    }
}

/// Consumes a leading identifier of `i`, returning it with the unconsumed
/// remainder of the input; matches [`spec_parse_thing`], failure for
/// failure.
pub fn thing(i: &str) -> (r: Result<(&str, Thing), ParseError>)
    ensures
        spec_parse_thing(i@) matches Ok((tv, n)) ==> r matches Ok(rr) && rr.1@ == tv && rr.0@
            == i@.skip(n),
        spec_parse_thing(i@) matches Err(e) ==> r matches Err(re) && re@ == e,
{
    let n = i.unicode_len();
    proof {
        assert(i@.skip(0) =~= i@);
    }
    match ident_raw(i, 0) {
        None => Err(ParseError::MalformedTable(0)),
        Some((tb, j)) => {
            if j >= n {
                return Err(ParseError::MissingSeparator(j));
            }
            let c = i.get_char(j);
            if c != ':' {
                Err(ParseError::MissingSeparator(j))
            } else {
                match id(i, j + 1) {
                    None => Err(ParseError::ComponentParseFailure(j + 1)),
                    Some((v, m)) => {
                        let rest = i.substring_char(m, n);
                        proof {
                            assert(i@.subrange(m as int, n as int) =~= i@.skip(m as int));
                        }
                        Ok((rest, Thing { tb, id: v }))
                    },
                }
            }
        },
    }
}

/// The canonical, grammar-safe text of an identifier: the escaped table,
/// the separator, and the canonical id.
pub open spec fn spec_render_thing(t: ThingView) -> Seq<char> {
    escape_table(t.tb) + seq![':'] + spec_render_id(t.id)
}

/// Order between two identifiers: by table first, and by id only between
/// equal tables.
pub open spec fn thing_cmp(a: ThingView, b: ThingView) -> Ordering {
    if chars_cmp(a.tb, b.tb) == Ordering::Equal {
        id_cmp(a.id, b.id)
    } else {
        chars_cmp(a.tb, b.tb)
    }
}

impl Thing {
    /// The canonical text of this identifier, matching
    /// [`spec_render_thing`].
    pub fn to_text(&self) -> (r: String)
        ensures
            r@ == spec_render_thing(self@),
    {
        let mut r = escape_table_str(self.tb.as_str());
        r.append(":");
        let idt = self.id.to_text();
        r.append(idt.as_str());
        proof {
            reveal_strlit(":");
            assert(r@ =~= escape_table(self.tb@) + seq![':'] + spec_render_id(self.id@));
        }
        r
    }

    /// Compares two identifiers in the order of [`thing_cmp`].
    pub fn compare(&self, other: &Thing) -> (r: Ordering)
        ensures
            r == thing_cmp(self@, other@),
    {
        match crate::text::str_cmp(self.tb.as_str(), other.tb.as_str()) {
            Ordering::Equal => self.id.compare(&other.id),
            Ordering::Less => Ordering::Less,
            Ordering::Greater => Ordering::Greater,
        }
    }
}

impl PartialEq for Thing {
    /// Two identifiers are equal when their views are.
    fn eq(&self, other: &Thing) -> (r: bool) {
        self.tb == other.tb && self.id == other.id
    }
}

impl vstd::std_specs::cmp::PartialEqSpecImpl for Thing {
    open spec fn obeys_eq_spec() -> bool {
        true
    }

    open spec fn eq_spec(&self, other: &Thing) -> bool {
        self@ == other@
    }
}

impl PartialOrd for Thing {
    /// The order of [`thing_cmp`]; always defined.
    fn partial_cmp(&self, other: &Thing) -> (r: Option<Ordering>) {
        Some(self.compare(other))
    }
}

impl vstd::std_specs::cmp::PartialOrdSpecImpl for Thing {
    open spec fn obeys_partial_cmp_spec() -> bool {
        true
    }

    open spec fn partial_cmp_spec(&self, other: &Thing) -> Option<Ordering> {
        Some(thing_cmp(self@, other@))
    }
}

impl From<(String, Id)> for Thing {
    /// Direct construction from a table name and a ready id component.
    fn from(v: (String, Id)) -> (r: Thing) {
        Thing { tb: v.0, id: v.1 }
    }
}

impl vstd::std_specs::convert::FromSpecImpl<(String, Id)> for Thing {
    open spec fn obeys_from_spec() -> bool {
        true
    }

    open spec fn from_spec(v: (String, Id)) -> Thing {
        Thing { tb: v.0, id: v.1 }
    }
}

impl From<(String, String)> for Thing {
    /// Direct construction from a table name and a plain string id.
    fn from(v: (String, String)) -> (r: Thing) {
        Thing { tb: v.0, id: Id::Text(v.1) }
    }
}

impl vstd::std_specs::convert::FromSpecImpl<(String, String)> for Thing {
    open spec fn obeys_from_spec() -> bool {
        true
    }

    open spec fn from_spec(v: (String, String)) -> Thing {
        Thing { tb: v.0, id: Id::Text(v.1) }
    }
}

impl From<(String, i64)> for Thing {
    /// Direct construction from a table name and a numeric id.
    fn from(v: (String, i64)) -> (r: Thing) {
        Thing { tb: v.0, id: Id::Number(v.1) }
    }
}

impl vstd::std_specs::convert::FromSpecImpl<(String, i64)> for Thing {
    open spec fn obeys_from_spec() -> bool {
        true
    }

    open spec fn from_spec(v: (String, i64)) -> Thing {
        Thing { tb: v.0, id: Id::Number(v.1) }
    }
}

} // verus!
