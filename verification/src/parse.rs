//! The token grammar: bare runs of safe characters, and quoted forms with
//! backslash escaping. Every scanner is specified against a recursive
//! recognizer over the character sequence.

use crate::text::{digit, is_digit, is_val_char, val_char};
use vstd::prelude::*;

verus! {

/// Opening delimiter of the bracket-quoted form.
pub open spec fn open_bracket() -> char {
    '\u{27E8}'
}

/// Closing delimiter of the bracket-quoted form.
pub open spec fn close_bracket() -> char {
    '\u{27E9}'
}

/// Length of the longest prefix made of safe value characters.
pub open spec fn val_run_len(s: Seq<char>) -> int
    decreases s.len(),
{
    if s.len() == 0 || !is_val_char(s[0]) {
        0
    } else {
        1 + val_run_len(s.skip(1))
    }
}

/// Length of the longest prefix made of decimal digits.
pub open spec fn digit_run_len(s: Seq<char>) -> int
    decreases s.len(),
{
    if s.len() == 0 || !is_digit(s[0]) {
        0
    } else {
        1 + digit_run_len(s.skip(1))
    }
}

/// The run length is the first position whose character leaves the class.
pub proof fn lemma_val_run_len_is(s: Seq<char>, k: int)
    requires
        0 <= k <= s.len(),
        forall|j: int| 0 <= j < k ==> is_val_char(#[trigger] s[j]),
        k == s.len() || !is_val_char(s[k]),
    ensures
        val_run_len(s) == k,
    decreases k,
{
    if k == 0 {
    } else {
        lemma_val_run_len_is(s.skip(1), k - 1);
    }
}

/// The run length is the first position whose character leaves the class.
pub proof fn lemma_digit_run_len_is(s: Seq<char>, k: int)
    requires
        0 <= k <= s.len(),
        forall|j: int| 0 <= j < k ==> is_digit(#[trigger] s[j]),
        k == s.len() || !is_digit(s[k]),
    ensures
        digit_run_len(s) == k,
    decreases k,
{
    if k == 0 {
    } else {
        lemma_digit_run_len_is(s.skip(1), k - 1);
    }
}

/// Basic facts about a run: it lies within the input, its characters belong
/// to the class, and it is maximal.
pub proof fn lemma_val_run_len_props(s: Seq<char>)
    ensures
        0 <= val_run_len(s) <= s.len(),
        forall|j: int| 0 <= j < val_run_len(s) ==> is_val_char(#[trigger] s[j]),
        val_run_len(s) < s.len() ==> !is_val_char(s[val_run_len(s)]),
    decreases s.len(),
{
    if s.len() != 0 && is_val_char(s[0]) {
        lemma_val_run_len_props(s.skip(1));
        assert forall|j: int| 0 <= j < val_run_len(s) implies is_val_char(#[trigger] s[j]) by {
            if j > 0 {
                assert(is_val_char(s.skip(1)[j - 1]));
            }
        }
    }
}

/// Basic facts about a digit run: it lies within the input, its characters
/// are digits, and it is maximal.
pub proof fn lemma_digit_run_len_props(s: Seq<char>)
    ensures
        0 <= digit_run_len(s) <= s.len(),
        forall|j: int| 0 <= j < digit_run_len(s) ==> is_digit(#[trigger] s[j]),
        digit_run_len(s) < s.len() ==> !is_digit(s[digit_run_len(s)]),
    decreases s.len(),
{
    if s.len() != 0 && is_digit(s[0]) {
        lemma_digit_run_len_props(s.skip(1));
        assert forall|j: int| 0 <= j < digit_run_len(s) implies is_digit(#[trigger] s[j]) by {
            if j > 0 {
                assert(is_digit(s.skip(1)[j - 1]));
            }
        }
    }
}

/// Scans to the end of the run of safe value characters beginning at `from`.
pub fn scan_val_run(s: &str, from: usize) -> (r: usize)
    requires
        from <= s@.len(),
    ensures
        r == from + val_run_len(s@.skip(from as int)),
        from <= r <= s@.len(),
{
    let n = s.unicode_len();
    let mut i: usize = from;
    while i < n && val_char(s.get_char(i))
        invariant
            from <= i <= n == s@.len(),
            forall|j: int| from <= j < i ==> is_val_char(#[trigger] s@[j]),
        decreases n - i,
    {
        i = i + 1;
    }
    proof {
        let sk = s@.skip(from as int);
        assert(forall|j: int| 0 <= j < i - from ==> sk[j] == s@[j + from]);
        lemma_val_run_len_is(sk, i - from);
    }
    i
}

/// Scans to the end of the run of decimal digits beginning at `from`.
pub fn scan_digit_run(s: &str, from: usize) -> (r: usize)
    requires
        from <= s@.len(),
    ensures
        r == from + digit_run_len(s@.skip(from as int)),
        from <= r <= s@.len(),
{
    let n = s.unicode_len();
    let mut i: usize = from;
    while i < n && digit(s.get_char(i))
        invariant
            from <= i <= n == s@.len(),
            forall|j: int| from <= j < i ==> is_digit(#[trigger] s@[j]),
        decreases n - i,
    {
        i = i + 1;
    }
    proof {
        let sk = s@.skip(from as int);
        assert(forall|j: int| 0 <= j < i - from ==> sk[j] == s@[j + from]);
        lemma_digit_run_len_is(sk, i - from);
    }
    i
}

/// Recognizes the body of a quoted form, after its opening delimiter: the
/// content ends at the first unescaped `close`; a backslash passes the next
/// character through, whatever it is. Yields the unescaped content and the
/// count of characters consumed, the closing delimiter included. Fails when
/// the input ends before an unescaped `close`.
pub open spec fn parse_quoted(s: Seq<char>, close: char) -> Option<(Seq<char>, int)>
    decreases s.len(),
{
    if s.len() == 0 {
        None
    } else if s[0] == close {
        Some((Seq::empty(), 1))
    } else if s[0] == '\\' {
        if s.len() == 1 {
            None
        } else {
            match parse_quoted(s.skip(2), close) {
                None => None,
                Some((c, n)) => Some((seq![s[1]] + c, 2 + n)),
            }
        }
    } else {
        match parse_quoted(s.skip(1), close) {
            None => None,
            Some((c, n)) => Some((seq![s[0]] + c, 1 + n)),
        }
    }
}

/// A successful quoted body consumes at least its closing delimiter and no
/// more than the input.
pub proof fn lemma_parse_quoted_bounds(s: Seq<char>, close: char)
    ensures
        parse_quoted(s, close) matches Some((c, n)) ==> 1 <= n <= s.len(),
    decreases s.len(),
{
    if s.len() != 0 && s[0] != close {
        if s[0] == '\\' {
            if s.len() > 1 {
                lemma_parse_quoted_bounds(s.skip(2), close);
            }
        } else {
            lemma_parse_quoted_bounds(s.skip(1), close);
        }
    }
}

/// Scans a quoted body beginning at `from` (just past the opening
/// delimiter), matching [`parse_quoted`]; on success returns the unescaped
/// content and the index just past the closing delimiter.
pub fn scan_quoted(s: &str, from: usize, close: char) -> (r: Option<(String, usize)>)
    requires
        from <= s@.len(),
    ensures
        parse_quoted(s@.skip(from as int), close) is None ==> r is None,
        parse_quoted(s@.skip(from as int), close) matches Some((c, n)) ==> r matches Some(rr)
            && rr.0@ == c && rr.1 == from + n && from + n <= s@.len(),
{
    let ghost sp = s@.skip(from as int);
    let n = s.unicode_len();
    let mut i: usize = from;
    let mut out = String::new();
    proof {
        if let Some((c, m)) = parse_quoted(sp, close) {
            assert(Seq::<char>::empty() + c =~= c);
        }
    }
    loop
        invariant
            from <= i <= n == s@.len(),
            sp == s@.skip(from as int),
            parse_quoted(sp, close) == (match parse_quoted(s@.skip(i as int), close) {
                None => None::<(Seq<char>, int)>,
                Some((c, m)) => Some((out@ + c, (i - from) + m)),
            }),
        decreases n - i,
    {
        if i >= n {
            proof {
                assert(s@.skip(i as int) =~= Seq::<char>::empty());
            }
            return None;
        }
        let ghost si = s@.skip(i as int);
        proof {
            assert(si.len() == n - i);
            assert(si[0] == s@[i as int]);
        }
        let c = s.get_char(i);
        if c == close {
            proof {
                assert(parse_quoted(si, close) == Some((Seq::<char>::empty(), 1int)));
                assert(out@ + Seq::<char>::empty() =~= out@);
            }
            return Some((out, i + 1));
        }
        if c == '\\' {
            if i + 1 >= n {
                proof {
                    assert(si.len() == 1);
                    assert(parse_quoted(si, close) is None);
                }
                return None;
            }
            let ghost c2 = s@[i + 1];
            let ghost old_out = out@;
            out.append(s.substring_char(i + 1, i + 2));
            proof {
                assert(s@.subrange(i + 1, i + 2) =~= seq![c2]);
                assert(si.skip(2) =~= s@.skip(i + 2));
                assert(si[1] == s@[i + 1]);
                if let Some((c3, m)) = parse_quoted(s@.skip(i + 2), close) {
                    assert(old_out + (seq![c2] + c3) =~= out@ + c3);
                }
            }
            i = i + 2;
        } else {
            let ghost old_out = out@;
            out.append(s.substring_char(i, i + 1));
            proof {
                assert(s@.subrange(i as int, i + 1) =~= seq![c]);
                assert(si.skip(1) =~= s@.skip(i + 1));
                if let Some((c3, m)) = parse_quoted(s@.skip(i + 1), close) {
                    assert(old_out + (seq![c] + c3) =~= out@ + c3);
                }
            }
            i = i + 1;
        }
    }
}

/// Recognizes a raw name token: a quoted form when the input opens with a
/// backtick or an opening angle bracket, otherwise a nonempty bare run of
/// safe value characters. Yields the name and the count of characters
/// consumed.
pub open spec fn spec_parse_table(s: Seq<char>) -> Option<(Seq<char>, int)> {
    if s.len() == 0 {
        None
    } else if s[0] == '`' {
        match parse_quoted(s.skip(1), '`') {
            None => None,
            Some((c, n)) => Some((c, 1 + n)),
        }
    } else if s[0] == open_bracket() {
        match parse_quoted(s.skip(1), close_bracket()) {
            None => None,
            Some((c, n)) => Some((c, 1 + n)),
        }
    } else {
        if val_run_len(s) == 0 {
            None
        } else {
            Some((s.take(val_run_len(s)), val_run_len(s)))
        }
    }
}

/// A successful name token consumes at least one character and no more than
/// the input.
pub proof fn lemma_parse_table_bounds(s: Seq<char>)
    ensures
        spec_parse_table(s) matches Some((c, n)) ==> 1 <= n <= s.len(),
{
    if s.len() != 0 {
        if s[0] == '`' {
            lemma_parse_quoted_bounds(s.skip(1), '`');
        } else if s[0] == open_bracket() {
            lemma_parse_quoted_bounds(s.skip(1), close_bracket());
        } else {
            lemma_val_run_len_props(s);
        }
    }
}

/// Scans a raw name token beginning at `from`, matching
/// [`spec_parse_table`]; on success returns the name and the index just past
/// the token.
pub fn ident_raw(s: &str, from: usize) -> (r: Option<(String, usize)>)
    requires
        from <= s@.len(),
    ensures
        spec_parse_table(s@.skip(from as int)) is None ==> r is None,
        spec_parse_table(s@.skip(from as int)) matches Some((c, n)) ==> r matches Some(rr)
            && rr.0@ == c && rr.1 == from + n && from + n <= s@.len(),
{
    let ghost sp = s@.skip(from as int);
    let n = s.unicode_len();
    if from >= n {
        proof {
            assert(sp =~= Seq::<char>::empty());
        }
        return None;
    }
    proof {
        assert(sp[0] == s@[from as int]);
        assert(sp.skip(1) =~= s@.skip(from + 1));
    }
    let c0 = s.get_char(from);
    if c0 == '`' {
        match scan_quoted(s, from + 1, '`') {
            None => None,
            Some((content, j)) => Some((content, j)),
        }
    } else if c0 == '\u{27E8}' {
        match scan_quoted(s, from + 1, '\u{27E9}') {
            None => None,
            Some((content, j)) => Some((content, j)),
        }
    } else {
        let end = scan_val_run(s, from);
        if end == from {
            return None;
        }
        let content = s.substring_char(from, end).to_owned();
        proof {
            assert(s@.subrange(from as int, end as int) =~= sp.take(val_run_len(sp)));
        }
        Some((content, end))
    }
}

/// Reads the value of a digit run; `None` when it exceeds the largest `u64`.
pub fn digits_to_u64(s: &str, from: usize, to: usize) -> (r: Option<u64>)
    requires
        from <= to <= s@.len(),
        crate::text::all_digits(s@.subrange(from as int, to as int)),
    ensures
        ({
            let v = crate::text::digits_val(s@.subrange(from as int, to as int));
            match r {
                Some(x) => x == v,
                None => v > u64::MAX,
            }
        }),
{
    let ghost sub = s@.subrange(from as int, to as int);
    let mut acc: u64 = 0;
    let mut i: usize = from;
    while i < to
        invariant
            from <= i <= to <= s@.len(),
            sub == s@.subrange(from as int, to as int),
            crate::text::all_digits(sub),
            acc == crate::text::digits_val(sub.take(i - from)),
        decreases to - i,
    {
        let c = s.get_char(i);
        proof {
            assert(sub[i - from] == s@[i as int]);
            assert(is_digit(c));
        }
        let d: u64 = ((c as u32) - 0x30) as u64;
        proof {
            assert(d == crate::text::digit_val(c));
            assert(d < 10);
        }
        if acc > (u64::MAX - d) / 10 {
            proof {
                let q = ((u64::MAX - d) / 10) as int;
                vstd::arithmetic::div_mod::lemma_fundamental_div_mod((u64::MAX - d) as int, 10);
                vstd::arithmetic::div_mod::lemma_mod_bound((u64::MAX - d) as int, 10);
                assert(acc as int >= q + 1);
                assert(acc as int * 10 >= (q + 1) * 10) by (nonlinear_arith)
                    requires
                        acc as int >= q + 1,
                ;
                crate::text::lemma_digits_val_snoc(sub.take(i - from), c);
                assert(sub.take(i - from).push(c) =~= sub.take(i - from + 1));
                assert(crate::text::digits_val(sub.take(i - from + 1)) > u64::MAX);
                crate::text::lemma_digits_val_prefix_le(sub, i - from + 1);
            }
            return None;
        }
        proof {
            crate::text::lemma_digits_val_snoc(sub.take(i - from), c);
            assert(sub.take(i - from).push(c) =~= sub.take(i - from + 1));
        }
        acc = acc * 10 + d;
        i = i + 1;
    }
    proof {
        assert(sub.take(to - from) =~= sub);
    }
    Some(acc)
}

} // verus!
