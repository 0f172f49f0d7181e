//! The text rules of the agent's configuration: boolean flags and the I2C
//! address. Reading the environment lives with the agent.

use vstd::prelude::*;
use crate::text::{chars_of, str_eq, trim, trim_bounds};

verus! {

/// `c` with ASCII uppercase letters mapped to lowercase, as
/// `to_ascii_lowercase` does; every other character unchanged.
pub open spec fn ascii_lower(c: char) -> char {
    if 'A' <= c <= 'Z' {
        ((c as u32) + 32) as char
    } else {
        c
    }
}

/// `s` with ASCII uppercase letters lowered.
pub open spec fn ascii_lowercase(s: Seq<char>) -> Seq<char> {
    s.map_values(|c: char| ascii_lower(c))
}

/// Whether a flag's text turns it on: `1`, `true`, `yes` or `on` in any ASCII
/// case, ignoring surrounding whitespace.
pub open spec fn spec_flag_is_on(text: Seq<char>) -> bool {
    let word = ascii_lowercase(trim(text));
    word == "1"@ || word == "true"@ || word == "yes"@ || word == "on"@
}

fn lower_char(c: char) -> (lowered: char)
    ensures
        lowered == ascii_lower(c),
{
    if 'A' <= c && c <= 'Z' {
        let code: u8 = (c as u32 + 32) as u8;
        code as char
    } else {
        c
    }
}

/// The value of a flag that is set to `text`: on for `1`, `true`, `yes` or
/// `on` in any case; anything else gives `default`, as an unset flag does.
pub fn parse_flag(text: &str, default: bool) -> (on: bool)
    ensures
        on == if spec_flag_is_on(text@) {
            true
        } else {
            default
        },
{
    let chars = chars_of(text);
    let (start, end) = trim_bounds(&chars);
    let mut word = String::new();
    let mut i = start;
    while i < end
        invariant
            start <= i <= end <= chars@.len(),
            chars@ == text@,
            word@ == ascii_lowercase(chars@.subrange(start as int, i as int)),
        decreases end - i,
    {
        word.push(lower_char(chars[i]));
        i += 1;
        assert(word@ =~= ascii_lowercase(chars@.subrange(start as int, i as int)));
    }
    let w = word.as_str();
    if str_eq(w, "1") || str_eq(w, "true") || str_eq(w, "yes") || str_eq(w, "on") {
        true
    } else {
        default
    }
}

/// Whether `text` spells `word` in any ASCII case: the same length, and each
/// character lowered as `to_ascii_lowercase` does equals the word's.
pub open spec fn spells_ignoring_case(text: Seq<char>, word: Seq<char>) -> bool {
    text.len() == word.len() && forall|i: int| 0 <= i < text.len() ==> ascii_lower(#[trigger] text[i]) == word[i]
}

proof fn lemma_lowercase_spells(text: Seq<char>, word: Seq<char>)
    ensures
        (ascii_lowercase(text) == word) == spells_ignoring_case(text, word),
{
    if spells_ignoring_case(text, word) {
        assert(ascii_lowercase(text) =~= word);
    }
    if ascii_lowercase(text) == word {
        assert forall|i: int| 0 <= i < text.len() implies ascii_lower(#[trigger] text[i]) == word[i] by {
            assert(ascii_lowercase(text)[i] == ascii_lower(text[i]));
        }
    }
}

/// A set flag turns on exactly when, without its surrounding whitespace, it
/// spells `1`, `true`, `yes` or `on` in some ASCII case; otherwise it takes
/// the default. So `off`, `no`, `0` and `false`, however written, never turn
/// a flag on.
pub proof fn law_only_four_words_turn_a_flag_on(text: Seq<char>, default: bool)
    ensures
        (if spec_flag_is_on(text) {
            true
        } else {
            default
        }) == if spells_ignoring_case(trim(text), seq!['1'])
            || spells_ignoring_case(trim(text), seq!['t', 'r', 'u', 'e'])
            || spells_ignoring_case(trim(text), seq!['y', 'e', 's'])
            || spells_ignoring_case(trim(text), seq!['o', 'n']) {
            true
        } else {
            default
        },
        spells_ignoring_case(trim(text), seq!['o', 'f', 'f'])
            || spells_ignoring_case(trim(text), seq!['n', 'o'])
            || spells_ignoring_case(trim(text), seq!['0'])
            || spells_ignoring_case(trim(text), seq!['f', 'a', 'l', 's', 'e']) ==> !spec_flag_is_on(text),
{
    let t = trim(text);
    reveal_strlit("1");
    reveal_strlit("true");
    reveal_strlit("yes");
    reveal_strlit("on");
    assert("1"@ =~= seq!['1']);
    assert("true"@ =~= seq!['t', 'r', 'u', 'e']);
    assert("yes"@ =~= seq!['y', 'e', 's']);
    assert("on"@ =~= seq!['o', 'n']);
    lemma_lowercase_spells(t, seq!['1']);
    lemma_lowercase_spells(t, seq!['t', 'r', 'u', 'e']);
    lemma_lowercase_spells(t, seq!['y', 'e', 's']);
    lemma_lowercase_spells(t, seq!['o', 'n']);
    lemma_lowercase_spells(t, seq!['o', 'f', 'f']);
    lemma_lowercase_spells(t, seq!['n', 'o']);
    lemma_lowercase_spells(t, seq!['0']);
    lemma_lowercase_spells(t, seq!['f', 'a', 'l', 's', 'e']);
    let w = ascii_lowercase(t);
    if w == seq!['o', 'n'] {
        assert(w[0] == 'o');
    }
    if w == seq!['n', 'o'] {
        assert(w[0] == 'n');
    }
    if w == seq!['o', 'f', 'f'] {
        assert(w[0] == 'o');
    }
    if w == seq!['0'] {
        assert(w[0] == '0');
    }
    if w == seq!['f', 'a', 'l', 's', 'e'] {
        assert(w.len() == 5);
    }
}

/// The value of one digit in `radix`, for ASCII digits and letters of either
/// case.
pub open spec fn digit_value(c: char, radix: nat) -> Option<nat> {
    let v: int = if '0' <= c <= '9' {
        c as int - 48
    } else if 'a' <= c <= 'z' {
        c as int - 87
    } else if 'A' <= c <= 'Z' {
        c as int - 55
    } else {
        radix as int
    };
    if 0 <= v < radix {
        Some(v as nat)
    } else {
        None
    }
}

/// The value of a run of digits in `radix`, or `None` if any is not a digit.
pub open spec fn digits_value(s: Seq<char>, radix: nat) -> Option<nat>
    decreases s.len(),
{
    if s.len() == 0 {
        Some(0)
    } else {
        match (digits_value(s.drop_last(), radix), digit_value(s.last(), radix)) {
            (Some(high), Some(low)) => Some(high * radix + low),
            _ => None,
        }
    }
}

/// What `u8::from_str_radix` accepts: an optional `+`, then one or more
/// digits of `radix` whose value fits a byte.
pub open spec fn spec_parse_u8(s: Seq<char>, radix: nat) -> Option<u8> {
    let digits = if s.len() > 0 && s[0] == '+' {
        s.drop_first()
    } else {
        s
    };
    if digits.len() == 0 {
        None
    } else {
        match digits_value(digits, radix) {
            Some(v) => if v <= 255 {
                Some(v as u8)
            } else {
                None
            },
            None => None,
        }
    }
}

proof fn lemma_digits_grow(s: Seq<char>, radix: nat, k: int)
    requires
        2 <= radix,
        0 <= k <= s.len(),
        digits_value(s.take(k), radix) is Some,
        digits_value(s.take(k), radix).unwrap() > 255,
    ensures
        digits_value(s, radix) is None || digits_value(s, radix).unwrap() > 255,
    decreases s.len() - k,
{
    if k == s.len() {
        assert(s.take(k) =~= s);
    } else {
        assert(s.take(k + 1).drop_last() =~= s.take(k));
        let high = digits_value(s.take(k), radix).unwrap();
        if digit_value(s[k], radix) is Some {
            let low = digit_value(s[k], radix).unwrap();
            assert(high * radix + low > 255) by (nonlinear_arith)
                requires
                    high > 255,
                    radix >= 2,
            ;
            lemma_digits_grow(s, radix, k + 1);
        } else {
            lemma_digits_none(s, radix, k + 1);
        }
    }
}

proof fn lemma_digits_none(s: Seq<char>, radix: nat, k: int)
    requires
        0 <= k <= s.len(),
        digits_value(s.take(k), radix) is None,
    ensures
        digits_value(s, radix) is None,
    decreases s.len() - k,
{
    if k == s.len() {
        assert(s.take(k) =~= s);
    } else {
        assert(s.take(k + 1).drop_last() =~= s.take(k));
        lemma_digits_none(s, radix, k + 1);
    }
}

fn digit_value_exec(c: char, radix: u32) -> (v: Option<u32>)
    requires
        2 <= radix <= 36,
    ensures
        v matches Some(d) ==> digit_value(c, radix as nat) == Some(d as nat),
        v is None ==> digit_value(c, radix as nat) is None,
{
    let code = c as u32;
    let value: u32 = if '0' <= c && c <= '9' {
        code - 48
    } else if 'a' <= c && c <= 'z' {
        code - 87
    } else if 'A' <= c && c <= 'Z' {
        code - 55
    } else {
        radix
    };
    if value < radix {
        Some(value)
    } else {
        None
    }
}

/// Parse a byte the way `u8::from_str_radix` does.
pub fn parse_u8_radix(chars: &Vec<char>, from: usize, to: usize, radix: u32) -> (parsed: Option<u8>)
    requires
        2 <= radix <= 36,
        from <= to <= chars@.len(),
    ensures
        parsed == spec_parse_u8(chars@.subrange(from as int, to as int), radix as nat),
{
    let ghost s = chars@.subrange(from as int, to as int);
    let mut start = from;
    if start < to && chars[start] == '+' {
        start += 1;
    }
    let ghost digits = chars@.subrange(start as int, to as int);
    assert(digits =~= (if s.len() > 0 && s[0] == '+' { s.drop_first() } else { s }));
    if start == to {
        return None;
    }
    let mut value: u32 = 0;
    let mut i = start;
    assert(digits.take(0) =~= Seq::<char>::empty());
    while i < to
        invariant
            start <= i <= to <= chars@.len(),
            2 <= radix <= 36,
            digits == chars@.subrange(start as int, to as int),
            s == chars@.subrange(from as int, to as int),
            digits == (if s.len() > 0 && s[0] == '+' {
                s.drop_first()
            } else {
                s
            }),
            digits.len() > 0,
            value <= 255,
            digits_value(digits.take(i - start), radix as nat) == Some(value as nat),
        decreases to - i,
    {
        assert(digits.take(i - start + 1).drop_last() =~= digits.take(i - start));
        assert(digits.take(i - start + 1).last() == chars@[i as int]);
        match digit_value_exec(chars[i], radix) {
            Some(d) => {
                assert(value * radix <= 255 * 36) by (nonlinear_arith)
                    requires
                        value <= 255,
                        radix <= 36,
                ;
                let next: u32 = value * radix + d;
                if next > 255 {
                    proof {
                        lemma_digits_grow(digits, radix as nat, i - start + 1);
                    }
                    return None;
                }
                value = next;
            },
            None => {
                proof {
                    lemma_digits_none(digits, radix as nat, i - start + 1);
                }
                return None;
            },
        }
        i += 1;
    }
    assert(digits.take(to - start) =~= digits);
    Some(value as u8)
}

/// The I2C address in a setting: hexadecimal after a `0x` prefix, decimal
/// otherwise, ignoring surrounding whitespace. `None` for anything else.
pub open spec fn spec_parse_address(text: Seq<char>) -> Option<u8> {
    let t = trim(text);
    if t.len() >= 2 && t[0] == '0' && t[1] == 'x' {
        spec_parse_u8(t.skip(2), 16)
    } else {
        spec_parse_u8(t, 10)
    }
}

/// Parse the I2C address setting.
pub fn parse_address(text: &str) -> (address: Option<u8>)
    ensures
        address == spec_parse_address(text@),
{
    let chars = chars_of(text);
    let (start, end) = trim_bounds(&chars);
    let ghost t = chars@.subrange(start as int, end as int);
    if end - start >= 2 && chars[start] == '0' && chars[start + 1] == 'x' {
        assert(t.skip(2) =~= chars@.subrange(start + 2, end as int));
        parse_u8_radix(&chars, start + 2, end, 16)
    } else {
        parse_u8_radix(&chars, start, end, 10)
    }
}

} // verus!
