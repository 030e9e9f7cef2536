//! String groundwork: the decimal format used by the `last_modified`
//! column, and the code-point lexicographic order used for sorted
//! listings.

use vstd::prelude::*;

verus! {

/// A decimal digit.
pub open spec fn spec_is_digit(c: char) -> bool {
    48 <= c as u32 <= 57
}

/// Every character of `s` is a decimal digit.
pub open spec fn spec_all_digits(s: Seq<char>) -> bool {
    forall|i: int| 0 <= i < s.len() ==> spec_is_digit(#[trigger] s[i])
}

/// The number a digit string denotes.
pub open spec fn spec_dec_value(s: Seq<char>) -> int
    decreases s.len(),
{
    if s.len() == 0 {
        0
    } else {
        spec_dec_value(s.drop_last()) * 10 + (s.last() as u32 - 48)
    }
}

/// What parsing a `last_modified` string yields: its value when the
/// string is nonempty, all digits, and fits in a `u64`; nothing
/// otherwise.
pub open spec fn spec_parse_u64(s: Seq<char>) -> Option<u64> {
    if s.len() > 0 && spec_all_digits(s) && spec_dec_value(s) <= u64::MAX {
        Some(spec_dec_value(s) as u64)
    } else {
        None
    }
}

/// The character of a digit.
pub open spec fn spec_digit_char(d: int) -> char {
    if d == 0 {
        '0'
    } else if d == 1 {
        '1'
    } else if d == 2 {
        '2'
    } else if d == 3 {
        '3'
    } else if d == 4 {
        '4'
    } else if d == 5 {
        '5'
    } else if d == 6 {
        '6'
    } else if d == 7 {
        '7'
    } else if d == 8 {
        '8'
    } else {
        '9'
    }
}

/// The decimal string of a number, most significant digit first, no
/// leading zeros but for the number 0 itself.
pub open spec fn spec_dec_string(n: int) -> Seq<char>
    decreases n,
{
    if n < 10 {
        seq![spec_digit_char(n)]
    } else {
        spec_dec_string(n / 10).push(spec_digit_char(n % 10))
    }
}

/// The value of a digit string never goes below zero.
pub proof fn lemma_dec_value_nonneg(s: Seq<char>)
    requires
        spec_all_digits(s),
    ensures
        spec_dec_value(s) >= 0,
    decreases s.len(),
{
    if s.len() > 0 {
        assert(spec_is_digit(s[s.len() - 1]));
        lemma_dec_value_nonneg(s.drop_last());
    }
}

/// Extending a digit string to the right never shrinks its value.
pub proof fn lemma_dec_value_prefix_le(s: Seq<char>, i: int)
    requires
        spec_all_digits(s),
        0 <= i <= s.len(),
    ensures
        spec_dec_value(s.take(i)) <= spec_dec_value(s),
    decreases s.len() - i,
{
    assert forall|j: int| 0 <= j < s.take(i).len() implies spec_is_digit(#[trigger] s.take(i)[j]) by {
        assert(s.take(i)[j] == s[j]);
    }
    if i < s.len() {
        lemma_dec_value_prefix_le(s, i + 1);
        let t = s.take(i + 1);
        assert(t.drop_last() =~= s.take(i));
        assert(t.last() == s[i]);
        assert(spec_is_digit(s[i]));
        lemma_dec_value_nonneg(s.take(i));
        assert(spec_dec_value(t) == spec_dec_value(s.take(i)) * 10 + (s[i] as u32 - 48));
    } else {
        assert(s.take(i) =~= s);
    }
}

/// Parse a decimal string: the value when `s` is nonempty, all
/// digits, and fits in a `u64`; `None` otherwise.
pub fn parse_u64(s: &str) -> (r: Option<u64>)
    ensures
        r == spec_parse_u64(s@),
{
    let n = s.unicode_len();
    if n == 0 {
        return None;
    }
    let mut acc: u64 = 0;
    let mut i: usize = 0;
    while i < n
        invariant
            0 < n == s@.len(),
            0 <= i <= n,
            spec_all_digits(s@.take(i as int)),
            acc == spec_dec_value(s@.take(i as int)),
        decreases n - i,
    {
        let c = s.get_char(i);
        let code: u32 = c as u32;
        if code < 48 || code > 57 {
            proof {
                assert(!spec_is_digit(s@[i as int]));
                assert(!spec_all_digits(s@));
            }
            return None;
        }
        let d: u64 = (code - 48) as u64;
        proof {
            assert(s@.take(i + 1).drop_last() =~= s@.take(i as int));
            assert(s@.take(i + 1).last() == s@[i as int]);
            assert forall|j: int| 0 <= j < i + 1 implies spec_is_digit(
                #[trigger] s@.take(i + 1)[j],
            ) by {
                assert(s@.take(i + 1)[j] == s@[j]);
            }
        }
        if acc > (u64::MAX - d) / 10 {
            proof {
                lemma_dec_value_nonneg(s@.take(i as int));
                assert(spec_dec_value(s@.take(i + 1)) == acc * 10 + d);
                assert(spec_dec_value(s@.take(i + 1)) > u64::MAX) by {
                    assert(acc >= (u64::MAX - d) / 10 + 1);
                    assert((acc * 10) >= ((u64::MAX - d) / 10 + 1) * 10) by (nonlinear_arith)
                        requires
                            acc >= (u64::MAX - d) / 10 + 1,
                    ;
                }
                if spec_all_digits(s@) && spec_dec_value(s@) <= u64::MAX {
                    lemma_dec_value_prefix_le(s@, i + 1);
                }
            }
            return None;
        }
        acc = acc * 10 + d;
        i += 1;
    }
    proof {
        assert(s@.take(n as int) =~= s@);
    }
    Some(acc)
}

/// The one-character string of a digit.
fn digit_str(d: u64) -> (r: &'static str)
    requires
        d < 10,
    ensures
        r@ =~= seq![spec_digit_char(d as int)],
{
    let table = "0123456789";
    proof {
        reveal_strlit("0123456789");
    }
    let i = d as usize;
    table.substring_char(i, i + 1)
}

/// Format a number the way the store's `last_modified` column holds
/// it: plain decimal.
pub fn u64_to_dec_string(n: u64) -> (r: String)
    ensures
        r@ == spec_dec_string(n as int),
    decreases n,
{
    if n < 10 {
        String::from_str(digit_str(n))
    } else {
        let mut s = u64_to_dec_string(n / 10);
        s.append(digit_str(n % 10));
        proof {
            assert(s@ =~= spec_dec_string((n / 10) as int).push(spec_digit_char((n % 10) as int)));
        }
        s
    }
}

/// A digit character read back as a number.
pub proof fn lemma_digit_char_value(d: int)
    requires
        0 <= d <= 9,
    ensures
        spec_is_digit(spec_digit_char(d)),
        spec_digit_char(d) as u32 - 48 == d,
{
}

/// A formatted number is all digits and parses back to itself: the
/// round trip through the store's text column loses nothing.
pub proof fn lemma_dec_string_roundtrip(n: int)
    requires
        0 <= n,
    ensures
        spec_dec_string(n).len() > 0,
        spec_all_digits(spec_dec_string(n)),
        spec_dec_value(spec_dec_string(n)) == n,
    decreases n,
{
    if n < 10 {
        lemma_digit_char_value(n);
        let s = spec_dec_string(n);
        assert(s =~= seq![spec_digit_char(n)]);
        assert(s.drop_last() =~= Seq::<char>::empty());
        assert(s.last() == spec_digit_char(n));
        assert(spec_dec_value(s.drop_last()) == 0);
        assert(spec_dec_value(s) == 0 * 10 + (spec_digit_char(n) as u32 - 48));
    } else {
        lemma_dec_string_roundtrip(n / 10);
        lemma_digit_char_value(n % 10);
        let s = spec_dec_string(n);
        assert(s == spec_dec_string(n / 10).push(spec_digit_char(n % 10)));
        assert(s.drop_last() =~= spec_dec_string(n / 10));
        assert(s.last() == spec_digit_char(n % 10));
        assert forall|i: int| 0 <= i < s.len() implies spec_is_digit(#[trigger] s[i]) by {
            if i < s.len() - 1 {
                assert(s[i] == spec_dec_string(n / 10)[i]);
            }
        }
        assert(spec_dec_value(s) == (n / 10) * 10 + n % 10);
    }
}

/// Parsing what was formatted gives the number back.
pub proof fn lemma_parse_of_dec_string(n: u64)
    ensures
        spec_parse_u64(spec_dec_string(n as int)) == Some(n),
{
    lemma_dec_string_roundtrip(n as int);
}

/// Code-point lexicographic "less than or equal" on strings: the
/// order of Rust's own string comparison, since UTF-8 byte order
/// coincides with code-point order.
pub open spec fn spec_lex_le(a: Seq<char>, b: Seq<char>) -> bool
    decreases a.len(),
{
    if a.len() == 0 {
        true
    } else if b.len() == 0 {
        false
    } else if (a[0] as u32) < (b[0] as u32) {
        true
    } else if (a[0] as u32) > (b[0] as u32) {
        false
    } else {
        spec_lex_le(a.drop_first(), b.drop_first())
    }
}

/// Strict lexicographic order.
pub open spec fn spec_lex_lt(a: Seq<char>, b: Seq<char>) -> bool {
    spec_lex_le(a, b) && a != b
}

/// Two characters with one code point are one character.
pub proof fn lemma_char_eq_of_u32(a: char, b: char)
    requires
        a as u32 == b as u32,
    ensures
        a == b,
{
    vstd::utf8::char_u32_cast(a, a as u32);
    vstd::utf8::char_u32_cast(b, b as u32);
}

/// Every string is at or below itself.
pub proof fn lemma_lex_le_reflexive(a: Seq<char>)
    ensures
        spec_lex_le(a, a),
    decreases a.len(),
{
    if a.len() > 0 {
        lemma_lex_le_reflexive(a.drop_first());
    }
}

/// Lexicographic order is total: two strings always compare one way
/// or the other.
pub proof fn lemma_lex_le_total(a: Seq<char>, b: Seq<char>)
    ensures
        spec_lex_le(a, b) || spec_lex_le(b, a),
    decreases a.len(),
{
    if a.len() > 0 && b.len() > 0 && a[0] as u32 == b[0] as u32 {
        lemma_lex_le_total(a.drop_first(), b.drop_first());
    }
}

/// Two strings each at or below the other are equal.
pub proof fn lemma_lex_le_antisymmetric(a: Seq<char>, b: Seq<char>)
    requires
        spec_lex_le(a, b),
        spec_lex_le(b, a),
    ensures
        a == b,
    decreases a.len(),
{
    if a.len() == 0 {
        assert(b.len() == 0);
        assert(a =~= b);
    } else {
        assert(a[0] as u32 == b[0] as u32);
        lemma_char_eq_of_u32(a[0], b[0]);
        lemma_lex_le_antisymmetric(a.drop_first(), b.drop_first());
        assert(a =~= seq![a[0]] + a.drop_first());
        assert(b =~= seq![b[0]] + b.drop_first());
    }
}

/// Lexicographic order is transitive.
pub proof fn lemma_lex_le_transitive(a: Seq<char>, b: Seq<char>, c: Seq<char>)
    requires
        spec_lex_le(a, b),
        spec_lex_le(b, c),
    ensures
        spec_lex_le(a, c),
    decreases a.len(),
{
    if a.len() > 0 {
        assert(b.len() > 0);
        assert(c.len() > 0);
        let ka = a[0] as u32;
        let kb = b[0] as u32;
        let kc = c[0] as u32;
        assert(ka <= kb);
        assert(kb <= kc);
        if ka == kc {
            lemma_char_eq_of_u32(a[0], b[0]);
            lemma_char_eq_of_u32(b[0], c[0]);
            lemma_lex_le_transitive(a.drop_first(), b.drop_first(), c.drop_first());
        }
    }
}

/// Compare two strings in code-point lexicographic order.
pub fn str_lex_le(a: &str, b: &str) -> (r: bool)
    ensures
        r == spec_lex_le(a@, b@),
{
    let an = a.unicode_len();
    let bn = b.unicode_len();
    let mut i: usize = 0;
    proof {
        assert(a@.skip(0) =~= a@);
        assert(b@.skip(0) =~= b@);
    }
    loop
        invariant
            0 <= i <= an,
            i <= bn,
            an == a@.len(),
            bn == b@.len(),
            spec_lex_le(a@, b@) == spec_lex_le(a@.skip(i as int), b@.skip(i as int)),
            forall|j: int| 0 <= j < i ==> a@[j] == b@[j],
        decreases an - i,
    {
        if i >= an {
            proof {
                assert(a@.skip(i as int).len() == 0);
            }
            return true;
        }
        if i >= bn {
            proof {
                assert(b@.skip(i as int).len() == 0);
                assert(a@.skip(i as int).len() > 0);
            }
            return false;
        }
        let ca = a.get_char(i);
        let cb = b.get_char(i);
        let ka: u32 = ca as u32;
        let kb: u32 = cb as u32;
        proof {
            assert(a@.skip(i as int)[0] == a@[i as int]);
            assert(b@.skip(i as int)[0] == b@[i as int]);
        }
        if ka < kb {
            return true;
        }
        if ka > kb {
            return false;
        }
        proof {
            lemma_char_eq_of_u32(ca, cb);
            assert(a@.skip(i as int).drop_first() =~= a@.skip(i + 1));
            assert(b@.skip(i as int).drop_first() =~= b@.skip(i + 1));
        }
        i += 1;
    }
}

/// Character-for-character string equality.
pub fn str_eq(a: &str, b: &str) -> (r: bool)
    ensures
        r == (a@ == b@),
{
    let an = a.unicode_len();
    let bn = b.unicode_len();
    if an != bn {
        return false;
    }
    let mut i: usize = 0;
    while i < an
        invariant
            0 <= i <= an,
            an == a@.len(),
            an == b@.len(),
            forall|j: int| 0 <= j < i ==> a@[j] == b@[j],
        decreases an - i,
    {
        let ca = a.get_char(i);
        let cb = b.get_char(i);
        if ca as u32 != cb as u32 {
            proof {
                if a@ == b@ {
                    assert(a@[i as int] == b@[i as int]);
                }
            }
            return false;
        }
        proof {
            lemma_char_eq_of_u32(ca, cb);
        }
        i += 1;
    }
    proof {
        assert(a@ =~= b@);
    }
    true
}

/// Decide strict order: at or below, and not equal.
pub fn str_lex_lt(a: &str, b: &str) -> (r: bool)
    ensures
        r == spec_lex_lt(a@, b@),
{
    let le = str_lex_le(a, b);
    if !le {
        return false;
    }
    let ge = str_lex_le(b, a);
    proof {
        if ge {
            lemma_lex_le_antisymmetric(a@, b@);
        } else {
            if a@ == b@ {
                lemma_lex_le_reflexive(a@);
            }
        }
    }
    !ge
}

} // verus!
