//! Reading the text of integer and character literals.
use vstd::prelude::*;
use vstd::string::StrSliceExecFns;

verus! {

/// The value of a digit character; 36 for a character that is no digit in
/// any radix up to 16.
pub open spec fn digit_value(c: char) -> int {
    if '0' <= c && c <= '9' {
        (c as u32 - '0' as u32) as int
    } else if 'a' <= c && c <= 'f' {
        (c as u32 - 'a' as u32 + 10) as int
    } else if 'A' <= c && c <= 'F' {
        (c as u32 - 'A' as u32 + 10) as int
    } else {
        36
    }
}

/// The number that the digits `d` spell in `radix`, most significant first.
pub open spec fn digits_value(d: Seq<char>, radix: int) -> int
    decreases d.len(),
{
    if d.len() == 0 {
        0
    } else {
        digits_value(d.drop_last(), radix) * radix + digit_value(d.last())
    }
}

pub open spec fn all_digits(d: Seq<char>, radix: int) -> bool {
    forall|i: int| 0 <= i < d.len() ==> #[trigger] digit_value(d[i]) < radix
}

/// The `i32` that a non-empty run of digits in `radix` denotes, if it fits.
pub open spec fn parse_radix(d: Seq<char>, radix: int) -> Option<i32> {
    if d.len() > 0 && all_digits(d, radix) && digits_value(d, radix) <= i32::MAX {
        Some(digits_value(d, radix) as i32)
    } else {
        None
    }
}

/// The character of a char literal: exactly three characters, the outer two
/// single quotes.
pub open spec fn char_literal_value(s: Seq<char>) -> Option<char> {
    if s.len() == 3 && s[0] == '\'' && s[2] == '\'' {
        Some(s[1])
    } else {
        None
    }
}

pub proof fn lemma_digits_value_nonneg(d: Seq<char>, radix: int)
    requires
        radix >= 1,
    ensures
        digits_value(d, radix) >= 0,
    decreases d.len(),
{
    if d.len() > 0 {
        lemma_digits_value_nonneg(d.drop_last(), radix);
        let x = digits_value(d.drop_last(), radix);
        assert(x * radix >= 0) by (nonlinear_arith)
            requires
                x >= 0,
                radix >= 1,
        ;
    }
}

/// Digits appended to a run never lower its value.
pub proof fn lemma_prefix_value_le(d: Seq<char>, j: int, radix: int)
    requires
        0 <= j <= d.len(),
        radix >= 1,
    ensures
        digits_value(d.subrange(0, j), radix) <= digits_value(d, radix),
    decreases d.len(),
{
    if j == d.len() {
        assert(d.subrange(0, j) =~= d);
    } else {
        lemma_prefix_value_le(d.drop_last(), j, radix);
        assert(d.drop_last().subrange(0, j) =~= d.subrange(0, j));
        lemma_digits_value_nonneg(d.drop_last(), radix);
        let x = digits_value(d.drop_last(), radix);
        assert(x * radix >= x) by (nonlinear_arith)
            requires
                x >= 0,
                radix >= 1,
        ;
    }
}

fn digit_of(c: char) -> (r: u32)
    ensures
        r == digit_value(c),
{
    if '0' <= c && c <= '9' {
        c as u32 - '0' as u32
    } else if 'a' <= c && c <= 'f' {
        c as u32 - 'a' as u32 + 10
    } else if 'A' <= c && c <= 'F' {
        c as u32 - 'A' as u32 + 10
    } else {
        36
    }
}

/// Reads `chars[from..to]` as an `i32` in `radix`; `None` when the run is
/// empty, holds a character that is no digit in `radix`, or overflows.
pub fn parse_digits(chars: &Vec<char>, from: usize, to: usize, radix: u32) -> (r: Option<i32>)
    requires
        from <= to <= chars.len(),
        2 <= radix <= 16,
    ensures
        r == parse_radix(chars@.subrange(from as int, to as int), radix as int),
{
    let ghost d = chars@.subrange(from as int, to as int);
    if from == to {
        return None;
    }
    let mut acc: i64 = 0;
    let mut i: usize = from;
    while i < to
        invariant
            from <= i <= to <= chars.len(),
            2 <= radix <= 16,
            d == chars@.subrange(from as int, to as int),
            all_digits(chars@.subrange(from as int, i as int), radix as int),
            acc == digits_value(chars@.subrange(from as int, i as int), radix as int),
            0 <= acc <= i32::MAX,
        decreases to - i,
    {
        let ghost prefix = chars@.subrange(from as int, i as int);
        let ghost next = chars@.subrange(from as int, i + 1);
        assert(next.drop_last() =~= prefix);
        assert(next.last() == chars@[i as int]);
        let v = digit_of(chars[i]);
        if v >= radix {
            assert(d[i - from] == chars@[i as int]);
            return None;
        }
        assert(acc * (radix as i64) <= 16 * 0x7fff_ffffi64) by (nonlinear_arith)
            requires
                0 <= acc <= 0x7fff_ffff,
                2 <= radix <= 16,
        ;
        assert(acc * (radix as i64) >= 0) by (nonlinear_arith)
            requires
                0 <= acc,
                2 <= radix,
        ;
        let step: i64 = acc * (radix as i64) + (v as i64);
        if step > i32::MAX as i64 {
            proof {
                if all_digits(d, radix as int) {
                    assert(d.subrange(0, i + 1 - from) =~= next);
                    lemma_prefix_value_le(d, i + 1 - from, radix as int);
                }
            }
            return None;
        }
        acc = step;
        i = i + 1;
        assert forall|k: int| 0 <= k < next.len() implies #[trigger] digit_value(next[k])
            < radix by {
            if k < prefix.len() {
                assert(next[k] == prefix[k]);
            }
        }
    }
    assert(chars@.subrange(from as int, i as int) =~= d);
    Some(acc as i32)
}

/// The character between the quotes of a three-character char literal.
pub fn extract_char(input: &str) -> (r: Option<char>)
    ensures
        r == char_literal_value(input@),
{
    if input.unicode_len() == 3 {
        let c0 = input.get_char(0);
        let c1 = input.get_char(1);
        let c2 = input.get_char(2);
        if c0 == '\'' && c2 == '\'' {
            return Some(c1);
        }
    }
    None
}

} // verus!
