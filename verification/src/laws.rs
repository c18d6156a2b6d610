//! The laws that relate the recognizer, the renderer and the two encoding
//! modes, proved over the specifications that the executable functions are
//! verified against.

use crate::encode::{
    find_field, id_field_name, spec_decode_id, spec_deserialize, spec_encode_id, spec_serialize,
    table_field_name, DecodeError, EncodedFieldView, EncodedView, FieldValueView,
};
use crate::escape::{escape_content, escape_table, table_needs_quotes};
use crate::id::{
    id_cmp, id_needs_quotes, id_wf, lemma_id_cmp_eq, neg_magnitude_max, pos_max, spec_parse_id,
    spec_render_id, IdView,
};
use crate::parse::{
    digit_run_len, lemma_digit_run_len_is, lemma_val_run_len_is, open_bracket, parse_quoted,
    spec_parse_table, val_run_len,
};
use crate::text::{
    all_digits, all_val_chars, chars_cmp, dec_digits, digits_val, is_digit, is_val_char,
    lemma_chars_cmp_eq, lemma_dec_digits_val,
};
use crate::thing::{spec_parse_thing, spec_render_thing, thing_cmp, thing_wf, ThingView};
use core::cmp::Ordering;
use vstd::prelude::*;

verus! {

/// Reading a quoted body undoes escaping: the escaped content, the closing
/// delimiter, and anything after are read back as the original content, the
/// delimiter consumed, the rest untouched.
pub proof fn lemma_parse_quoted_escape(s: Seq<char>, close: char, rest: Seq<char>)
    requires
        close != '\\',
    ensures
        parse_quoted(escape_content(s, close) + seq![close] + rest, close) == Some(
            (s, escape_content(s, close).len() as int + 1),
        ),
    decreases s.len(),
{
    let e = escape_content(s, close);
    let full = e + seq![close] + rest;
    if s.len() == 0 {
        assert(full =~= seq![close] + rest);
        assert(full[0] == close);
    } else {
        let c = s[0];
        let e2 = escape_content(s.drop_first(), close);
        let full2 = e2 + seq![close] + rest;
        lemma_parse_quoted_escape(s.drop_first(), close, rest);
        if c == close || c == '\\' {
            assert(e =~= seq!['\\', c] + e2);
            assert(full[0] == '\\' && full[1] == c);
            assert(full.len() >= 2);
            assert(full.skip(2) =~= full2);
            assert(seq![c] + s.drop_first() =~= s);
        } else {
            assert(e =~= seq![c] + e2);
            assert(full[0] == c);
            assert(full.skip(1) =~= full2);
            assert(seq![c] + s.drop_first() =~= s);
        }
    }
}

/// Reading a name token undoes the grammar-safe spelling: the escaped table
/// followed by anything that cannot extend a bare name is read back as the
/// table itself.
pub proof fn lemma_parse_table_escape(tb: Seq<char>, rest: Seq<char>)
    requires
        rest.len() > 0 ==> !is_val_char(rest[0]),
    ensures
        spec_parse_table(escape_table(tb) + rest) == Some((tb, escape_table(tb).len() as int)),
{
    let et = escape_table(tb);
    let full = et + rest;
    if table_needs_quotes(tb) {
        let e = escape_content(tb, '`');
        assert(et =~= seq!['`'] + e + seq!['`']);
        assert(full[0] == '`');
        assert(full.skip(1) =~= e + seq!['`'] + rest);
        lemma_parse_quoted_escape(tb, '`', rest);
    } else {
        assert(full[0] == tb[0]);
        assert(is_val_char(tb[0]));
        assert(full[0] != '`' && full[0] != open_bracket());
        assert(forall|j: int| 0 <= j < tb.len() ==> full[j] == #[trigger] tb[j]);
        lemma_val_run_len_is(full, tb.len() as int);
        assert(full.take(tb.len() as int) =~= tb);
    }
}

/// Reading an id token undoes its canonical rendering.
pub proof fn lemma_parse_id_render(id: IdView)
    requires
        id_wf(id),
    ensures
        spec_parse_id(spec_render_id(id)) == Some((id, spec_render_id(id).len() as int)),
{
    let s = spec_render_id(id);
    match id {
        IdView::Number(n) => {
            if n >= 0 {
                lemma_dec_digits_val(n as nat);
                assert(s == dec_digits(n as nat));
                assert(is_digit(s[0]));
                assert(s[0] != '-' && s[0] != '`' && s[0] != open_bracket());
                assert(forall|j: int| 0 <= j < s.len() ==> is_val_char(#[trigger] s[j]));
                lemma_val_run_len_is(s, s.len() as int);
                assert(s.take(s.len() as int) =~= s);
                assert(digits_val(s) == n);
                assert(digits_val(s) <= pos_max());
            } else {
                let d = dec_digits((-n) as nat);
                lemma_dec_digits_val((-n) as nat);
                assert(s =~= seq!['-'] + d);
                assert(s[0] == '-');
                assert(s.skip(1) =~= d);
                lemma_digit_run_len_is(d, d.len() as int);
                assert(digit_run_len(s.skip(1)) == d.len());
                assert(s.skip(1).take(d.len() as int) =~= d);
                assert(digits_val(d) == -n);
                assert(digits_val(d) <= neg_magnitude_max());
                assert(-(digits_val(d) as int) == n);
            }
        },
        IdView::Text(t) => {
            if id_needs_quotes(t) {
                let e = escape_content(t, '`');
                assert(s =~= seq!['`'] + e + seq!['`']);
                assert(s[0] == '`');
                assert(s.skip(1) =~= e + seq!['`'] + Seq::<char>::empty());
                lemma_parse_quoted_escape(t, '`', Seq::empty());
                assert(spec_parse_table(s) == Some((t, s.len() as int)));
            } else {
                assert(s == t);
                assert(t.len() > 0 && all_val_chars(t) && !all_digits(t));
                assert(is_val_char(t[0]));
                assert(t[0] != '-' && t[0] != '`' && t[0] != open_bracket());
                lemma_val_run_len_is(t, t.len() as int);
                assert(t.take(t.len() as int) =~= t);
                assert(spec_parse_table(s) == Some((t, t.len() as int)));
            }
        },
    }
}

/// Parsing is the left inverse of canonical rendering: the canonical text
/// of any identifier is recognized in full and yields that identifier back,
/// with nothing left over.
pub proof fn lemma_parse_render_roundtrip(t: ThingView)
    requires
        thing_wf(t),
    ensures
        spec_parse_thing(spec_render_thing(t)) == Ok::<_, crate::thing::ParseErrorView>(
            (t, spec_render_thing(t).len() as int),
        ),
{
    let et = escape_table(t.tb);
    let rid = spec_render_id(t.id);
    let full = spec_render_thing(t);
    assert(full =~= et + (seq![':'] + rid));
    assert(!is_val_char(':'));
    assert((seq![':'] + rid)[0] == ':');
    lemma_parse_table_escape(t.tb, seq![':'] + rid);
    let n = et.len() as int;
    assert(full[n] == ':');
    assert(n < full.len());
    assert(full.skip(n + 1) =~= rid);
    lemma_parse_id_render(t.id);
    assert(spec_parse_id(full.skip(n + 1)) == Some((t.id, rid.len() as int)));
    assert(ThingView { tb: t.tb, id: t.id } == t);
    assert(n + 1 + rid.len() == full.len());
}

/// The order finds two identifiers equal exactly when they are equal.
pub proof fn lemma_thing_cmp_eq(a: ThingView, b: ThingView)
    ensures
        thing_cmp(a, b) == Ordering::Equal <==> a == b,
{
    lemma_chars_cmp_eq(a.tb, b.tb);
    lemma_id_cmp_eq(a.id, b.id);
    if thing_cmp(a, b) == Ordering::Equal {
        assert(a =~= b);
    }
}

/// The order between identifiers is lexicographic: tables decide first, and
/// the id components decide only between equal tables.
pub proof fn lemma_thing_cmp_lexicographic(a: ThingView, b: ThingView)
    ensures
        chars_cmp(a.tb, b.tb) != Ordering::Equal ==> thing_cmp(a, b) == chars_cmp(a.tb, b.tb),
        a.tb == b.tb ==> thing_cmp(a, b) == id_cmp(a.id, b.id),
{
    lemma_chars_cmp_eq(a.tb, b.tb);
}

/// Structured-mode decoding undoes structured-mode encoding exactly, for
/// every identifier, the table string and the id component both preserved
/// verbatim.
pub proof fn lemma_serialize_roundtrip(t: ThingView)
    ensures
        spec_deserialize(spec_serialize(t, false)) == Ok::<_, DecodeError>(t),
{
    let fields = seq![
        EncodedFieldView { name: table_field_name(), value: FieldValueView::Text(t.tb) },
        EncodedFieldView { name: id_field_name(), value: spec_encode_id(t.id) },
    ];
    assert(spec_serialize(t, false) == EncodedView::Record(fields));
    assert(fields[0].name == table_field_name());
    assert(find_field(fields, table_field_name()) == Some(FieldValueView::Text(t.tb)));
    assert(table_field_name().len() != id_field_name().len());
    assert(fields[0].name != id_field_name());
    let second = seq![EncodedFieldView { name: id_field_name(), value: spec_encode_id(t.id) }];
    assert(fields.drop_first() =~= second);
    assert(find_field(second, id_field_name()) == Some(spec_encode_id(t.id)));
    assert(find_field(fields, id_field_name()) == Some(spec_encode_id(t.id)));
    assert(spec_decode_id(spec_encode_id(t.id)) == t.id);
    assert(ThingView { tb: t.tb, id: t.id } == t);
}

/// Human-readable mode writes the raw table, the separator and the
/// canonical id, with no table escaping.
pub proof fn lemma_human_readable_form(t: ThingView)
    ensures
        spec_serialize(t, true) == EncodedView::Text(t.tb + seq![':'] + spec_render_id(t.id)),
{
}

/// Human-readable mode is write-only: no text form ever decodes.
pub proof fn lemma_human_readable_write_only(s: Seq<char>)
    ensures
        spec_deserialize(EncodedView::Text(s)) == Err::<ThingView, _>(DecodeError::FieldMissing),
{
}

} // verus!
