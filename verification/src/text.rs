//! Character classes and decimal digit arithmetic shared by the grammar,
//! the renderer, and the ordering of identifiers.

use core::cmp::Ordering;
use vstd::prelude::*;

verus! {

/// The safe "value characters": ASCII alphanumerics and `_`. A table name or
/// an unquoted token may be written bare exactly when every character is one
/// of these.
pub open spec fn is_val_char(c: char) -> bool {
    ('0' <= c && c <= '9') || ('A' <= c && c <= 'Z') || ('a' <= c && c <= 'z') || c == '_'
}

/// ASCII decimal digit.
pub open spec fn is_digit(c: char) -> bool {
    '0' <= c && c <= '9'
}

/// Numeric value of an ASCII decimal digit.
pub open spec fn digit_val(c: char) -> nat
    recommends
        is_digit(c),
{
    ((c as int) - ('0' as int)) as nat
}

/// The digit character for a value below ten.
pub open spec fn digit_char(d: nat) -> char
    recommends
        d < 10,
{
    ((d + 0x30) as u8) as char
}

/// Executable mirror of [`is_val_char`].
pub fn val_char(c: char) -> (r: bool)
    ensures
        r == is_val_char(c),
{
    ('0' <= c && c <= '9') || ('A' <= c && c <= 'Z') || ('a' <= c && c <= 'z') || c == '_'
}

/// Executable mirror of [`is_digit`].
pub fn digit(c: char) -> (r: bool)
    ensures
        r == is_digit(c),
{
    '0' <= c && c <= '9'
}

/// Every character of `s` is a safe value character.
pub open spec fn all_val_chars(s: Seq<char>) -> bool {
    forall|i: int| 0 <= i < s.len() ==> is_val_char(#[trigger] s[i])
}

/// Every character of `s` is a decimal digit.
pub open spec fn all_digits(s: Seq<char>) -> bool {
    forall|i: int| 0 <= i < s.len() ==> is_digit(#[trigger] s[i])
}

/// The decimal rendering of a nonnegative value, most significant digit
/// first, with no sign and no leading zero (a lone `0` for zero).
pub open spec fn dec_digits(m: nat) -> Seq<char>
    decreases m,
{
    if m < 10 {
        seq![digit_char(m)]
    } else {
        dec_digits(m / 10) + seq![digit_char(m % 10)]
    }
}

/// The decimal rendering of any integer: a `-` sign before the digits of the
/// magnitude when the value is negative.
pub open spec fn render_int(n: int) -> Seq<char> {
    if n >= 0 {
        dec_digits(n as nat)
    } else {
        seq!['-'] + dec_digits((-n) as nat)
    }
}

/// The value of a digit string, most significant digit first.
pub open spec fn digits_val(s: Seq<char>) -> nat
    decreases s.len(),
{
    if s.len() == 0 {
        0
    } else {
        digits_val(s.drop_last()) * 10 + digit_val(s.last())
    }
}

/// Reading one more digit multiplies the value so far by ten and adds it.
pub proof fn lemma_digits_val_snoc(s: Seq<char>, c: char)
    ensures
        digits_val(s.push(c)) == digits_val(s) * 10 + digit_val(c),
{
    assert(s.push(c).drop_last() =~= s);
}

/// A digit string is worth at least any of its prefixes.
pub proof fn lemma_digits_val_prefix_le(s: Seq<char>, i: int)
    requires
        0 <= i <= s.len(),
    ensures
        digits_val(s.take(i)) <= digits_val(s),
    decreases s.len() - i,
{
    if i < s.len() {
        lemma_digits_val_snoc(s.take(i), s[i]);
        assert(s.take(i).push(s[i]) =~= s.take(i + 1));
        lemma_digits_val_prefix_le(s, i + 1);
    } else {
        assert(s.take(i) =~= s);
    }
}

/// A decimal rendering is a nonempty digit string worth the value it renders.
pub proof fn lemma_dec_digits_val(m: nat)
    ensures
        dec_digits(m).len() >= 1,
        all_digits(dec_digits(m)),
        digits_val(dec_digits(m)) == m,
    decreases m,
{
    if m < 10 {
        assert(dec_digits(m) =~= seq![digit_char(m)]);
        assert(dec_digits(m).drop_last() =~= Seq::<char>::empty());
        assert(digit_char(m) as int == m + 0x30);
        assert('0' as int == 0x30);
        assert(is_digit(digit_char(m)));
        assert(digit_val(digit_char(m)) == m);
        assert(digits_val(dec_digits(m)) == digits_val(Seq::<char>::empty()) * 10 + digit_val(
            digit_char(m),
        ));
    } else {
        lemma_dec_digits_val(m / 10);
        let pre = dec_digits(m / 10);
        let c = digit_char(m % 10);
        assert(dec_digits(m) =~= pre.push(c));
        lemma_digits_val_snoc(pre, c);
        assert(is_digit(c) && digit_val(c) == m % 10);
        assert(forall|i: int|
            0 <= i < pre.push(c).len() ==> is_digit(#[trigger] pre.push(c)[i]));
    }
}

/// The one-character string for a digit value, matching [`digit_char`].
pub fn digit_str(d: u8) -> (r: &'static str)
    requires
        d < 10,
    ensures
        r@ == seq![digit_char(d as nat)],
{
    proof {
        reveal_strlit("0");
        reveal_strlit("1");
        reveal_strlit("2");
        reveal_strlit("3");
        reveal_strlit("4");
        reveal_strlit("5");
        reveal_strlit("6");
        reveal_strlit("7");
        reveal_strlit("8");
        reveal_strlit("9");
    }
    let r = match d {
        0 => "0",
        1 => "1",
        2 => "2",
        3 => "3",
        4 => "4",
        5 => "5",
        6 => "6",
        7 => "7",
        8 => "8",
        _ => "9",
    };
    proof {
        assert(r@ =~= seq![digit_char(d as nat)]);
    }
    r
}

/// Renders a value in decimal, matching [`dec_digits`].
pub fn render_u64(m: u64) -> (r: String)
    ensures
        r@ == dec_digits(m as nat),
{
    let mut rev: Vec<u8> = Vec::new();
    let mut v: u64 = m;
    loop
        invariant_except_break
            forall|j: int| 0 <= j < rev@.len() ==> #[trigger] rev@[j] < 10,
            dec_digits(m as nat) == dec_digits(v as nat) + rev@.map_values(
                |d: u8| digit_char(d as nat),
            ).reverse(),
        ensures
            forall|j: int| 0 <= j < rev@.len() ==> #[trigger] rev@[j] < 10,
            dec_digits(m as nat) == rev@.map_values(|d: u8| digit_char(d as nat)).reverse(),
        decreases v,
    {
        let d: u8 = (v % 10) as u8;
        let ghost c = digit_char((v % 10) as nat);
        let ghost old_chars = rev@.map_values(|x: u8| digit_char(x as nat));
        rev.push(d);
        proof {
            assert(rev@.map_values(|x: u8| digit_char(x as nat)) =~= old_chars.push(c));
            assert(seq![c] + old_chars.reverse() =~= old_chars.push(c).reverse());
        }
        if v < 10 {
            proof {
                assert(dec_digits(v as nat) =~= seq![c]);
                assert(dec_digits(v as nat) + old_chars.reverse() =~= seq![c]
                    + old_chars.reverse());
            }
            break;
        }
        proof {
            assert(dec_digits(v as nat) =~= dec_digits((v / 10) as nat) + seq![c]);
            assert(dec_digits((v / 10) as nat) + (seq![c] + old_chars.reverse()) =~= (dec_digits(
                (v / 10) as nat,
            ) + seq![c]) + old_chars.reverse());
        }
        v = v / 10;
    }
    let ghost chars = rev@.map_values(|d: u8| digit_char(d as nat));
    let mut r = String::new();
    let n = rev.len();
    let mut i: usize = 0;
    while i < n
        invariant
            n == rev@.len(),
            i <= n,
            chars == rev@.map_values(|d: u8| digit_char(d as nat)),
            forall|j: int| 0 <= j < rev@.len() ==> #[trigger] rev@[j] < 10,
            r@ == chars.reverse().take(i as int),
        decreases n - i,
    {
        r.append(digit_str(rev[n - 1 - i]));
        proof {
            assert(chars.reverse().take(i as int) + seq![chars[n - 1 - i as int]] =~= chars
                .reverse()
                .take(i + 1));
        }
        i = i + 1;
    }
    proof {
        assert(chars.reverse().take(n as int) =~= chars.reverse());
    }
    r
}

/// Lexicographic order on character sequences, by Unicode code point. A
/// proper prefix sorts before any of its extensions.
pub open spec fn chars_cmp(a: Seq<char>, b: Seq<char>) -> Ordering
    decreases a.len(),
{
    if a.len() == 0 && b.len() == 0 {
        Ordering::Equal
    } else if a.len() == 0 {
        Ordering::Less
    } else if b.len() == 0 {
        Ordering::Greater
    } else if a[0] != b[0] {
        if (a[0] as u32) < (b[0] as u32) {
            Ordering::Less
        } else {
            Ordering::Greater
        }
    } else {
        chars_cmp(a.drop_first(), b.drop_first())
    }
}

/// The order finds two sequences equal exactly when they are equal.
pub proof fn lemma_chars_cmp_eq(a: Seq<char>, b: Seq<char>)
    ensures
        chars_cmp(a, b) == Ordering::Equal <==> a == b,
    decreases a.len(),
{
    if a.len() != 0 && b.len() != 0 && a[0] == b[0] {
        lemma_chars_cmp_eq(a.drop_first(), b.drop_first());
        if a.drop_first() == b.drop_first() && a[0] == b[0] {
            assert forall|j: int| 0 <= j < a.len() implies a[j] == b[j] by {
                if j > 0 {
                    assert(a[j] == a.drop_first()[j - 1]);
                    assert(b[j] == b.drop_first()[j - 1]);
                }
            }
            assert(a =~= b);
        }
        if a == b {
            assert(a.drop_first() =~= b.drop_first());
        }
    } else if a.len() == 0 && b.len() == 0 {
        assert(a =~= b);
    }
}

/// Stripping an equal prefix does not change the order.
proof fn lemma_chars_cmp_skip(a: Seq<char>, b: Seq<char>, i: int)
    requires
        0 <= i <= a.len(),
        i <= b.len(),
        forall|j: int| 0 <= j < i ==> a[j] == b[j],
    ensures
        chars_cmp(a, b) == chars_cmp(a.skip(i), b.skip(i)),
    decreases i,
{
    if i > 0 {
        assert(a.len() != 0 && b.len() != 0 && a[0] == b[0]);
        assert(a.drop_first() =~= a.skip(1));
        assert(b.drop_first() =~= b.skip(1));
        lemma_chars_cmp_skip(a.skip(1), b.skip(1), i - 1);
        assert(a.skip(1).skip(i - 1) =~= a.skip(i));
        assert(b.skip(1).skip(i - 1) =~= b.skip(i));
    } else {
        assert(a.skip(0) =~= a);
        assert(b.skip(0) =~= b);
    }
}

/// Compares two strings in the order of [`chars_cmp`].
pub fn str_cmp(a: &str, b: &str) -> (r: Ordering)
    ensures
        r == chars_cmp(a@, b@),
{
    let an = a.unicode_len();
    let bn = b.unicode_len();
    let n = if an < bn {
        an
    } else {
        bn
    };
    let mut i: usize = 0;
    while i < n
        invariant
            n <= an == a@.len(),
            n <= bn == b@.len(),
            i <= n,
            forall|j: int| 0 <= j < i ==> a@[j] == b@[j],
        decreases n - i,
    {
        let ca = a.get_char(i);
        let cb = b.get_char(i);
        if ca != cb {
            proof {
                lemma_chars_cmp_skip(a@, b@, i as int);
            }
            if (ca as u32) < (cb as u32) {
                return Ordering::Less;
            } else {
                return Ordering::Greater;
            }
        }
        i = i + 1;
    }
    proof {
        lemma_chars_cmp_skip(a@, b@, n as int);
    }
    if an < bn {
        Ordering::Less
    } else if bn < an {
        Ordering::Greater
    } else {
        proof {
            assert(a@.skip(n as int) =~= Seq::<char>::empty());
            assert(b@.skip(n as int) =~= Seq::<char>::empty());
        }
        Ordering::Equal
    }
}

/// Renders any value in decimal, matching [`render_int`].
pub fn render_i64(n: i64) -> (r: String)
    ensures
        r@ == render_int(n as int),
{
    if n >= 0 {
        render_u64(n as u64)
    } else {
        let mag: u64 = ((-(n + 1)) as u64) + 1;
        let mut r = String::from_str("-");
        proof {
            reveal_strlit("-");
        }
        let digits = render_u64(mag);
        r.append(digits.as_str());
        proof {
            assert(r@ =~= seq!['-'] + dec_digits(mag as nat));
            assert(mag as int == -(n as int));
        }
        r
    }
}

} // verus!

