//! Dual-mode structured encoding of an identifier: a single display string
//! for human-oriented media, and a two-field record for machine-oriented
//! media, the only mode that decodes.

use crate::id::{spec_render_id, Id, IdView};
use crate::text::{lemma_chars_cmp_eq, str_cmp};
use crate::thing::{Thing, ThingView};
use core::cmp::Ordering;
use vstd::prelude::*;

verus! {

/// A primitive value inside an encoded record.
#[derive(Debug)]
pub enum FieldValue {
    Text(String),
    Int(i64),
}

/// The mathematical value of a [`FieldValue`].
pub enum FieldValueView {
    Text(Seq<char>),
    Int(int),
}

impl View for FieldValue {
    type V = FieldValueView;

    open spec fn view(&self) -> FieldValueView {
        match self {
            FieldValue::Text(s) => FieldValueView::Text(s@),
            FieldValue::Int(n) => FieldValueView::Int(*n as int),
        }
    }
}

impl FieldValue {
    /// A copy with the same value.
    pub fn duplicate(&self) -> (r: FieldValue)
        ensures
            r@ == self@,
    {
        match self {
            FieldValue::Text(s) => FieldValue::Text(s.clone()),
            FieldValue::Int(n) => FieldValue::Int(*n),
        }
    }
}

/// One named field of an encoded record.
#[derive(Debug)]
pub struct EncodedField {
    pub name: String,
    pub value: FieldValue,
}

/// The mathematical value of an [`EncodedField`].
pub struct EncodedFieldView {
    pub name: Seq<char>,
    pub value: FieldValueView,
}

impl View for EncodedField {
    type V = EncodedFieldView;

    open spec fn view(&self) -> EncodedFieldView {
        EncodedFieldView { name: self.name@, value: self.value@ }
    }
}

/// An encoded identifier: a plain string in human-readable mode, a record
/// of named fields in structured mode.
#[derive(Debug)]
pub enum Encoded {
    Text(String),
    Record(Vec<EncodedField>),
}

/// The mathematical value of an [`Encoded`].
pub enum EncodedView {
    Text(Seq<char>),
    Record(Seq<EncodedFieldView>),
}

impl View for Encoded {
    type V = EncodedView;

    open spec fn view(&self) -> EncodedView {
        match self {
            Encoded::Text(s) => EncodedView::Text(s@),
            Encoded::Record(fields) => EncodedView::Record(
                fields@.map_values(|f: EncodedField| f@),
            ),
        }
    }
}

/// Name of the record field holding the raw table string.
pub open spec fn table_field_name() -> Seq<char> {
    seq!['t', 'a', 'b', 'l', 'e']
}

/// Name of the record field holding the id component.
pub open spec fn id_field_name() -> Seq<char> {
    seq!['i', 'd']
}

/// The structured encoding of an id component: its value, unescaped.
pub open spec fn spec_encode_id(id: IdView) -> FieldValueView {
    match id {
        IdView::Number(n) => FieldValueView::Int(n),
        IdView::Text(t) => FieldValueView::Text(t),
    }
}

/// The id component a decoded field stands for.
pub open spec fn spec_decode_id(v: FieldValueView) -> IdView {
    match v {
        FieldValueView::Int(n) => IdView::Number(n),
        FieldValueView::Text(t) => IdView::Text(t),
    }
}

/// The encoding of an identifier for the chosen medium. Human-readable mode
/// writes the raw table string, unescaped, before the separator and the
/// canonical id; structured mode writes the two named fields verbatim.
pub open spec fn spec_serialize(t: ThingView, human_readable: bool) -> EncodedView {
    if human_readable {
        EncodedView::Text(t.tb + seq![':'] + spec_render_id(t.id))
    } else {
        EncodedView::Record(
            seq![
                EncodedFieldView { name: table_field_name(), value: FieldValueView::Text(t.tb) },
                EncodedFieldView { name: id_field_name(), value: spec_encode_id(t.id) },
            ],
        )
    }
}

/// The value of the first field with the given name, if any.
pub open spec fn find_field(fields: Seq<EncodedFieldView>, name: Seq<char>) -> Option<
    FieldValueView,
>
    decreases fields.len(),
{
    if fields.len() == 0 {
        None
    } else if fields[0].name == name {
        Some(fields[0].value)
    } else {
        find_field(fields.drop_first(), name)
    }
}

/// Failure of structured decoding.
#[derive(Debug, Clone, Copy, PartialEq, Eq, Structural)]
pub enum DecodeError {
    /// The encoded form is not a record with both named fields.
    FieldMissing,
    /// The table field does not hold a string.
    FieldTypeMismatch,
}

/// Decoding of the structured mode: the record must hold a table field with
/// a string and an id field; anything else is rejected, never coerced.
pub open spec fn spec_deserialize(e: EncodedView) -> Result<ThingView, DecodeError> {
    match e {
        EncodedView::Text(_) => Err(DecodeError::FieldMissing),
        EncodedView::Record(fields) => match find_field(fields, table_field_name()) {
            None => Err(DecodeError::FieldMissing),
            Some(FieldValueView::Int(_)) => Err(DecodeError::FieldTypeMismatch),
            Some(FieldValueView::Text(tb)) => match find_field(fields, id_field_name()) {
                None => Err(DecodeError::FieldMissing),
                Some(v) => Ok(ThingView { tb, id: spec_decode_id(v) }),
            },
        },
    }
}

/// Encodes an identifier for the chosen medium, matching
/// [`spec_serialize`].
pub fn serialize(t: &Thing, human_readable: bool) -> (r: Encoded)
    ensures
        r@ == spec_serialize(t@, human_readable),
{
    if human_readable {
        let mut s = t.tb.clone();
        s.append(":");
        let idt = t.id.to_text();
        s.append(idt.as_str());
        proof {
            reveal_strlit(":");
            assert(s@ =~= t@.tb + seq![':'] + spec_render_id(t@.id));
        }
        Encoded::Text(s)
    } else {
        let mut fields: Vec<EncodedField> = Vec::new();
        let tname = String::from_str("table");
        let iname = String::from_str("id");
        fields.push(EncodedField { name: tname, value: FieldValue::Text(t.tb.clone()) });
        let idval = match &t.id {
            Id::Number(n) => FieldValue::Int(*n),
            Id::Text(s) => FieldValue::Text(s.clone()),
        };
        fields.push(EncodedField { name: iname, value: idval });
        proof {
            reveal_strlit("table");
            reveal_strlit("id");
            assert("table"@ =~= table_field_name());
            assert("id"@ =~= id_field_name());
            let m = fields@.map_values(|f: EncodedField| f@);
            assert(m.len() == 2);
            assert(m =~= seq![fields@[0]@, fields@[1]@]);
            assert(spec_serialize(t@, false) matches EncodedView::Record(g) && g =~= m);
        }
        Encoded::Record(fields)
    }
}

/// Finds the first field with the given name, matching [`find_field`].
fn lookup(fields: &Vec<EncodedField>, name: &str) -> (r: Option<FieldValue>)
    ensures
        ({
            let fv = find_field(fields@.map_values(|f: EncodedField| f@), name@);
            match r {
                Some(v) => fv == Some(v@),
                None => fv is None,
            }
        }),
{
    let ghost m = fields@.map_values(|f: EncodedField| f@);
    let n = fields.len();
    let mut i: usize = 0;
    proof {
        assert(m.skip(0) =~= m);
    }
    while i < n
        invariant
            i <= n == fields@.len(),
            m == fields@.map_values(|f: EncodedField| f@),
            find_field(m, name@) == find_field(m.skip(i as int), name@),
        decreases n - i,
    {
        let matches_name = match str_cmp(fields[i].name.as_str(), name) {
            Ordering::Equal => true,
            _ => false,
        };
        proof {
            lemma_chars_cmp_eq(fields@[i as int].name@, name@);
            assert(m.skip(i as int)[0] == m[i as int]);
        }
        if matches_name {
            return Some(fields[i].value.duplicate());
        }
        proof {
            assert(m.skip(i as int).drop_first() =~= m.skip(i + 1));
        }
        i = i + 1;
    }
    proof {
        assert(m.skip(n as int) =~= Seq::<EncodedFieldView>::empty());
    }
    None
}

/// Decodes the structured mode, matching [`spec_deserialize`]: the exact
/// identifier comes back, or a distinguishable error.
pub fn deserialize(e: &Encoded) -> (r: Result<Thing, DecodeError>)
    ensures
        spec_deserialize(e@) matches Ok(tv) ==> r matches Ok(t) && t@ == tv,
        spec_deserialize(e@) matches Err(er) ==> r matches Err(re) && re == er,
{
    match e {
        Encoded::Text(_) => Err(DecodeError::FieldMissing),
        Encoded::Record(fields) => {
            proof {
                reveal_strlit("table");
                reveal_strlit("id");
                assert("table"@ =~= table_field_name());
                assert("id"@ =~= id_field_name());
            }
            match lookup(fields, "table") {
                None => Err(DecodeError::FieldMissing),
                Some(FieldValue::Int(_)) => Err(DecodeError::FieldTypeMismatch),
                Some(FieldValue::Text(tb)) => match lookup(fields, "id") {
                    None => Err(DecodeError::FieldMissing),
                    Some(FieldValue::Int(n)) => Ok(Thing { tb, id: Id::Number(n) }),
                    Some(FieldValue::Text(t)) => Ok(Thing { tb, id: Id::Text(t) }),
                },
            }
        },
    }
}

} // verus!
