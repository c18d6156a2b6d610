//! Quoting and escaping of names that may hold characters the grammar
//! reserves. One escaping utility is shared by every quoted form: a backslash
//! protects the closing delimiter and the backslash itself.

use crate::text::{all_val_chars, val_char};
use vstd::prelude::*;

verus! {

/// The escaped spelling of one character inside a form closed by `close`.
pub open spec fn escape_char(c: char, close: char) -> Seq<char> {
    if c == close || c == '\\' {
        seq!['\\', c]
    } else {
        seq![c]
    }
}

/// The escaped spelling of a whole name inside a form closed by `close`.
pub open spec fn escape_content(s: Seq<char>, close: char) -> Seq<char>
    decreases s.len(),
{
    if s.len() == 0 {
        Seq::empty()
    } else {
        escape_char(s[0], close) + escape_content(s.drop_first(), close)
    }
}

/// Escaping distributes over concatenation.
pub proof fn lemma_escape_content_concat(a: Seq<char>, b: Seq<char>, close: char)
    ensures
        escape_content(a + b, close) == escape_content(a, close) + escape_content(b, close),
    decreases a.len(),
{
    if a.len() == 0 {
        assert(a + b =~= b);
        assert(escape_content(a, close) + escape_content(b, close) =~= escape_content(b, close));
    } else {
        assert((a + b).drop_first() =~= a.drop_first() + b);
        lemma_escape_content_concat(a.drop_first(), b, close);
        assert(escape_char(a[0], close) + (escape_content(a.drop_first(), close) + escape_content(
            b,
            close,
        )) =~= (escape_char(a[0], close) + escape_content(a.drop_first(), close)) + escape_content(
            b,
            close,
        ));
    }
}

/// A name needs quotes when it is empty or holds a character outside the
/// safe set.
pub open spec fn table_needs_quotes(s: Seq<char>) -> bool {
    s.len() == 0 || !all_val_chars(s)
}

/// The grammar-safe spelling of a table name: bare when every character is
/// safe, otherwise backtick-quoted with escaping.
pub open spec fn escape_table(s: Seq<char>) -> Seq<char> {
    if table_needs_quotes(s) {
        seq!['`'] + escape_content(s, '`') + seq!['`']
    } else {
        s
    }
}

/// Wraps a name in backticks, escaping its content; matches the quoted arm
/// of [`escape_table`].
pub fn quote_name(s: &str) -> (r: String)
    ensures
        r@ == seq!['`'] + escape_content(s@, '`') + seq!['`'],
{
    let n = s.unicode_len();
    let mut r = String::from_str("`");
    proof {
        reveal_strlit("`");
        reveal_strlit("\\");
        assert(r@ =~= seq!['`']);
    }
    let mut i: usize = 0;
    while i < n
        invariant
            n == s@.len(),
            i <= n,
            r@ == seq!['`'] + escape_content(s@.take(i as int), '`'),
        decreases n - i,
    {
        let ghost pre = s@.take(i as int);
        let c = s.get_char(i);
        if c == '`' || c == '\\' {
            r.append("\\");
        }
        r.append(s.substring_char(i, i + 1));
        proof {
            reveal_strlit("\\");
            assert("\\"@ =~= seq!['\\']);
            assert(s@.subrange(i as int, i + 1) =~= seq![c]);
            assert(s@.take(i + 1) =~= pre + seq![c]);
            lemma_escape_content_concat(pre, seq![c], '`');
            assert(seq![c].drop_first() =~= Seq::<char>::empty());
            assert(escape_content(Seq::<char>::empty(), '`') =~= Seq::<char>::empty());
            assert(escape_content(seq![c], '`') =~= escape_char(c, '`'));
            assert(r@ =~= (seq!['`'] + escape_content(pre, '`')) + escape_char(c, '`'));
            assert(r@ =~= seq!['`'] + escape_content(s@.take(i + 1), '`'));
        }
        i = i + 1;
    }
    r.append("`");
    proof {
        reveal_strlit("`");
        assert(s@.take(n as int) =~= s@);
        assert(r@ =~= seq!['`'] + escape_content(s@, '`') + seq!['`']);
    }
    r
}

/// Whether every character of `s` is a safe value character.
pub fn all_safe(s: &str) -> (r: bool)
    ensures
        r == all_val_chars(s@),
{
    let n = s.unicode_len();
    let mut i: usize = 0;
    while i < n
        invariant
            n == s@.len(),
            i <= n,
            forall|j: int| 0 <= j < i ==> crate::text::is_val_char(#[trigger] s@[j]),
        decreases n - i,
    {
        if !val_char(s.get_char(i)) {
            return false;
        }
        i = i + 1;
    }
    true
}

/// The grammar-safe spelling of a table name, matching [`escape_table`].
pub fn escape_table_str(s: &str) -> (r: String)
    ensures
        r@ == escape_table(s@),
{
    if s.unicode_len() > 0 && all_safe(s) {
        String::from_str(s)
    } else {
        quote_name(s)
    }
}

} // verus!
