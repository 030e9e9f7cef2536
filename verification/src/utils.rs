//! Transliteration key: the phonetic-plus-fallback string used to
//! order library listings, never displayed.
//!
//! Each character that the pinyin table recognizes contributes its
//! plain (toneless) pinyin; every other character contributes the
//! character standing at its index in the uppercased input, when that
//! index exists there.

use vstd::prelude::*;

verus! {

/// The plain pinyin of one character, when the table recognizes it.
pub uninterp spec fn pinyin_of(c: char) -> Option<Seq<char>>;

/// The Unicode uppercase mapping of a string.
pub uninterp spec fn upper_of(s: Seq<char>) -> Seq<char>;

/// Relies on pinyin's `ToPinyin` for `char` and `Pinyin::plain`: a
/// fixed table lookup, a function of the character alone.
#[verifier::external_body]
fn char_pinyin(c: char) -> (r: Option<String>)
    ensures
        match pinyin_of(c) {
            Some(p) => r matches Some(q) && q@ == p,
            None => r is None,
        },
{
    match pinyin::ToPinyin::to_pinyin(&c) {
        Some(p) => Some(p.plain().to_string()),
        None => None,
    }
}

/// Relies on `str::to_uppercase`: the Unicode uppercase mapping, a
/// function of the characters alone.
#[verifier::external_body]
fn str_uppercase(s: &str) -> (r: String)
    ensures
        r@ == upper_of(s@),
{
    s.to_uppercase()
}

/// What the character at index `i` contributes to the key: its plain
/// pinyin, or the character at `i` of the uppercased input, or
/// nothing when the uppercased input is too short.
pub open spec fn spec_pin_yin_at(c: char, upper: Seq<char>, i: int) -> Seq<char> {
    match pinyin_of(c) {
        Some(p) => p,
        None => if 0 <= i < upper.len() {
            seq![upper[i]]
        } else {
            Seq::<char>::empty()
        },
    }
}

/// The key of the first `i` characters.
pub open spec fn spec_pin_yin_prefix(s: Seq<char>, upper: Seq<char>, i: int) -> Seq<char>
    decreases i,
{
    if i <= 0 {
        Seq::<char>::empty()
    } else {
        spec_pin_yin_prefix(s, upper, i - 1) + spec_pin_yin_at(s[i - 1], upper, i - 1)
    }
}

/// The transliteration key of a string.
pub open spec fn spec_pin_yin(s: Seq<char>) -> Seq<char> {
    spec_pin_yin_prefix(s, upper_of(s), s.len() as int)
}

/// Build the transliteration sort key of `input`: recognized
/// characters become their plain pinyin, all others fall back to
/// their uppercased form.
pub fn get_pin_yin(input: &str) -> (r: String)
    ensures
        r@ == spec_pin_yin(input@),
{
    let n = input.unicode_len();
    let upper = str_uppercase(input);
    let un = upper.as_str().unicode_len();
    let mut out = String::new();
    let mut i: usize = 0;
    while i < n
        invariant
            0 <= i <= n,
            n == input@.len(),
            un == upper@.len(),
            upper@ == upper_of(input@),
            out@ == spec_pin_yin_prefix(input@, upper_of(input@), i as int),
        decreases n - i,
    {
        let c = input.get_char(i);
        match char_pinyin(c) {
            Some(p) => {
                out.append(p.as_str());
            },
            None => {
                if i < un {
                    let one = upper.as_str().substring_char(i, i + 1);
                    proof {
                        assert(one@ =~= seq![upper@[i as int]]);
                    }
                    out.append(one);
                }
            },
        }
        proof {
            assert(out@ =~= spec_pin_yin_prefix(input@, upper_of(input@), i + 1));
        }
        i += 1;
    }
    out
}

} // verus!
