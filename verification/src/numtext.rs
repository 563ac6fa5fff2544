//! Decimal text for integer values.
//!
//! Spec functions give the canonical decimal digits of a number and the value
//! of a digit string; executable formatting and parsing are proved against
//! them.

use vstd::prelude::*;

verus! {

/// The character for one decimal digit.
pub open spec fn spec_digit_char(d: nat) -> char
    recommends
        d < 10,
{
    ((0x30 + d) as u8) as char
}

/// Whether `c` is a decimal digit.
pub open spec fn is_digit_char(c: char) -> bool {
    0x30 <= (c as u32) && (c as u32) <= 0x39
}

/// The numeric value of a digit character.
pub open spec fn spec_digit_val(c: char) -> nat
    recommends
        is_digit_char(c),
{
    ((c as u32) - 0x30) as nat
}

/// The decimal digits of `n`, most significant first, without leading zeros.
pub open spec fn spec_digits(n: nat) -> Seq<char>
    decreases n,
{
    if n < 10 {
        seq![spec_digit_char(n)]
    } else {
        spec_digits(n / 10).push(spec_digit_char(n % 10))
    }
}

/// The value of a digit string, most significant first.
pub open spec fn spec_digits_val(s: Seq<char>) -> nat
    decreases s.len(),
{
    if s.len() == 0 {
        0
    } else {
        spec_digits_val(s.drop_last()) * 10 + spec_digit_val(s.last())
    }
}

/// A nonempty string of decimal digits.
pub open spec fn is_digit_text(s: Seq<char>) -> bool {
    s.len() > 0 && forall|i: int| 0 <= i < s.len() ==> is_digit_char(s[i])
}

/// The canonical digits of a number form a nonempty digit string.
pub proof fn lemma_spec_digits_shape(n: nat)
    ensures
        is_digit_text(spec_digits(n)),
    decreases n,
{
    if n < 10 {
        assert(is_digit_char(spec_digit_char(n)));
    } else {
        lemma_spec_digits_shape(n / 10);
        assert(is_digit_char(spec_digit_char(n % 10)));
    }
}

/// Reading back the canonical digits of `n` gives `n`.
pub proof fn lemma_digits_round_trip(n: nat)
    ensures
        spec_digits_val(spec_digits(n)) == n,
    decreases n,
{
    if n < 10 {
        let s = spec_digits(n);
        assert(s =~= seq![spec_digit_char(n)]);
        assert(s.len() == 1);
        assert(s.last() == spec_digit_char(n));
        assert(s.drop_last() =~= Seq::<char>::empty());
        assert(spec_digits_val(s.drop_last()) == 0);
        assert(spec_digits_val(s) == spec_digit_val(spec_digit_char(n)));
        assert(spec_digit_val(spec_digit_char(n)) == n);
    } else {
        lemma_digits_round_trip(n / 10);
        let s = spec_digits(n / 10);
        let c = spec_digit_char(n % 10);
        assert(s.push(c).drop_last() =~= s);
        assert(s.push(c).last() == c);
        assert(spec_digit_val(c) == n % 10);
    }
}

/// Extending a digit prefix never shrinks its value.
pub proof fn lemma_digits_val_prefix_monotone(s: Seq<char>, i: int, j: int)
    requires
        0 <= i <= j <= s.len(),
    ensures
        spec_digits_val(s.subrange(0, i)) <= spec_digits_val(s.subrange(0, j)),
    decreases j - i,
{
    if i < j {
        lemma_digits_val_prefix_monotone(s, i, j - 1);
        let p = s.subrange(0, j - 1);
        let q = s.subrange(0, j);
        assert(q.drop_last() =~= p);
        assert(spec_digits_val(q) == spec_digits_val(p) * 10 + spec_digit_val(q.last()));
    }
}

/// Relies on `String::push` of std: appends exactly the given character.
pub assume_specification[ String::push ](s: &mut String, c: char)
    ensures
        final(s)@ == old(s)@.push(c),
;

/// Build a string out of a sequence of characters.
pub fn chars_to_string(v: &Vec<char>) -> (r: String)
    ensures
        r@ == v@,
{
    let mut r = String::new();
    let mut i: usize = 0;
    while i < v.len()
        invariant
            i <= v.len(),
            r@ =~= v@.subrange(0, i as int),
        decreases v.len() - i,
    {
        r.push(v[i]);
        assert(r@ =~= v@.subrange(0, i + 1));
        i = i + 1;
    }
    assert(r@ =~= v@);
    r
}

/// The characters of a string, in order.
pub fn string_to_chars(s: &str) -> (r: Vec<char>)
    ensures
        r@ == s@,
{
    let len = s.unicode_len();
    let mut r: Vec<char> = Vec::new();
    let mut i: usize = 0;
    while i < len
        invariant
            i <= len,
            len == s@.len(),
            r@ =~= s@.subrange(0, i as int),
        decreases len - i,
    {
        r.push(s.get_char(i));
        assert(r@ =~= s@.subrange(0, i + 1));
        i = i + 1;
    }
    assert(r@ =~= s@);
    r
}

/// The decimal digits of `n`, as characters.
pub fn format_u128(n: u128) -> (r: Vec<char>)
    ensures
        r@ == spec_digits(n as nat),
{
    let mut low_first: Vec<char> = Vec::new();
    let mut m = n;
    while m >= 10
        invariant
            spec_digits(n as nat) =~= spec_digits(m as nat) + Seq::new(
                low_first@.len(),
                |i: int| low_first@[low_first@.len() - 1 - i],
            ),
        decreases m,
    {
        let d = (m % 10) as u8;
        let ghost pre = low_first@;
        low_first.push((0x30 + d) as char);
        m = m / 10;
        proof {
            assert(spec_digits((m * 10 + d) as nat) == spec_digits(m as nat).push(
                spec_digit_char(d as nat),
            )) by {
                assert((m * 10 + d) as nat % 10 == d);
                assert((m * 10 + d) as nat / 10 == m);
            }
            assert(Seq::new(
                low_first@.len(),
                |i: int| low_first@[low_first@.len() - 1 - i],
            ) =~= seq![spec_digit_char(d as nat)] + Seq::new(
                pre.len(),
                |i: int| pre[pre.len() - 1 - i],
            ));
        }
    }
    let d = (m % 10) as u8;
    let mut r: Vec<char> = Vec::new();
    r.push((0x30 + d) as char);
    proof {
        assert(spec_digits(m as nat) =~= seq![spec_digit_char(d as nat)]);
    }
    let total = low_first.len();
    let mut k: usize = 0;
    while k < total
        invariant
            k <= total,
            total == low_first@.len(),
            spec_digits(n as nat) =~= spec_digits(m as nat) + Seq::new(
                low_first@.len(),
                |i: int| low_first@[low_first@.len() - 1 - i],
            ),
            spec_digits(m as nat).len() == 1,
            r@ =~= spec_digits(n as nat).subrange(0, 1 + k as int),
        decreases total - k,
    {
        let ghost full = spec_digits(n as nat);
        proof {
            assert(full.len() == 1 + total);
            assert(full[1 + k] == low_first@[total - 1 - k]) by {
                assert(full[1 + k] == Seq::new(
                    low_first@.len(),
                    |i: int| low_first@[low_first@.len() - 1 - i],
                )[k as int]);
            }
        }
        r.push(low_first[total - 1 - k]);
        assert(r@ =~= spec_digits(n as nat).subrange(0, 1 + (k + 1) as int));
        k = k + 1;
    }
    assert(r@ =~= spec_digits(n as nat));
    r
}

/// The decimal text of a signed 32-bit integer, as characters.
pub fn format_i32(x: i32) -> (r: Vec<char>)
    ensures
        r@ == spec_i32_text(x),
{
    if x >= 0 {
        let r = format_u128(x as u128);
        proof {
            assert((x as u128) as nat == x as nat);
        }
        r
    } else {
        let mag = -(x as i64);
        let mut digits = format_u128(mag as u128);
        let mut r: Vec<char> = Vec::new();
        r.push('-');
        r.append(&mut digits);
        proof {
            assert((mag as u128) as nat == (-(x as int)) as nat);
            assert(r@ =~= seq!['-'] + spec_digits((-(x as int)) as nat));
        }
        r
    }
}

/// Parse of a digit string bounded by `u32`: defined exactly on nonempty
/// all-digit text whose value fits.
pub open spec fn spec_parse_u32(t: Seq<char>) -> Option<u32> {
    if is_digit_text(t) && spec_digits_val(t) <= u32::MAX {
        Some(spec_digits_val(t) as u32)
    } else {
        None
    }
}

/// Parse the characters in `[start, end)` as an unsigned 32-bit decimal
/// number.
pub fn parse_u32_chars(chars: &Vec<char>, start: usize, end: usize) -> (r: Option<u32>)
    requires
        start <= end <= chars@.len(),
    ensures
        r == spec_parse_u32(chars@.subrange(start as int, end as int)),
{
    let ghost t = chars@.subrange(start as int, end as int);
    if start == end {
        return None;
    }
    let mut val: u32 = 0;
    let mut i: usize = start;
    while i < end
        invariant
            start <= i <= end <= chars@.len(),
            t == chars@.subrange(start as int, end as int),
            forall|j: int| 0 <= j < i - start ==> is_digit_char(t[j]),
            val == spec_digits_val(t.subrange(0, i - start)),
            spec_digits_val(t.subrange(0, i - start)) <= u32::MAX,
        decreases end - i,
    {
        let c = chars[i];
        let cu = c as u32;
        if cu < 0x30 || cu > 0x39 {
            assert(!is_digit_char(t[i - start]));
            return None;
        }
        let d = cu - 0x30;
        assert(d == spec_digit_val(t[i - start]));
        if val > (0xffff_ffffu32 - d) / 10 {
            proof {
                let k = i - start;
                assert(spec_digits_val(t.subrange(0, k + 1)) == val * 10 + d) by {
                    assert(t.subrange(0, k + 1).drop_last() =~= t.subrange(0, k));
                }
                assert(val * 10 + d > u32::MAX) by (nonlinear_arith)
                    requires
                        val > (0xffff_ffffu32 - d) / 10,
                        d <= 9,
                ;
                lemma_digits_val_prefix_monotone(t, k + 1, t.len() as int);
                assert(t.subrange(0, t.len() as int) =~= t);
            }
            return None;
        }
        proof {
            assert(val * 10 + d <= u32::MAX) by (nonlinear_arith)
                requires
                    val <= (0xffff_ffffu32 - d) / 10,
                    d <= 9,
            ;
            let k = i - start;
            assert(t.subrange(0, k + 1).drop_last() =~= t.subrange(0, k));
        }
        val = val * 10 + d;
        i = i + 1;
    }
    proof {
        assert(t.subrange(0, t.len() as int) =~= t);
    }
    Some(val)
}

/// Decimal text of a signed 32-bit integer: a minus sign for negative values,
/// then the digits of the magnitude.
pub open spec fn spec_i32_text(x: i32) -> Seq<char> {
    if x >= 0 {
        spec_digits(x as nat)
    } else {
        seq!['-'] + spec_digits((-(x as int)) as nat)
    }
}

/// Parse of signed 32-bit decimal text: an optional leading minus sign, then
/// nonempty digits, value in range.
pub open spec fn spec_parse_i32(t: Seq<char>) -> Option<i32> {
    if t.len() > 0 && t[0] == '-' {
        let m = t.subrange(1, t.len() as int);
        if is_digit_text(m) && spec_digits_val(m) <= 0x8000_0000 {
            Some((-(spec_digits_val(m) as int)) as i32)
        } else {
            None
        }
    } else {
        if is_digit_text(t) && spec_digits_val(t) <= 0x7fff_ffff {
            Some(spec_digits_val(t) as i32)
        } else {
            None
        }
    }
}

/// A signed 32-bit integer's canonical text parses back to the same value.
pub proof fn lemma_i32_text_round_trip(x: i32)
    ensures
        spec_parse_i32(spec_i32_text(x)) == Some(x),
{
    if x >= 0 {
        let t = spec_digits(x as nat);
        lemma_spec_digits_shape(x as nat);
        lemma_digits_round_trip(x as nat);
        assert(('-' as u32) == 0x2D);
        assert(!is_digit_char('-'));
        assert(t[0] != '-');
    } else {
        let mag = (-(x as int)) as nat;
        let t = spec_i32_text(x);
        lemma_spec_digits_shape(mag);
        lemma_digits_round_trip(mag);
        assert(t[0] == '-');
        assert(t.subrange(1, t.len() as int) =~= spec_digits(mag));
    }
}

/// An unsigned 32-bit integer's canonical text parses back to the same value.
pub proof fn lemma_u32_text_round_trip(x: u32)
    ensures
        spec_parse_u32(spec_digits(x as nat)) == Some(x),
{
    lemma_spec_digits_shape(x as nat);
    lemma_digits_round_trip(x as nat);
}

/// Parse the characters in `[start, end)` as a signed 32-bit decimal number.
pub fn parse_i32_chars(chars: &Vec<char>, start: usize, end: usize) -> (r: Option<i32>)
    requires
        start <= end <= chars@.len(),
    ensures
        r == spec_parse_i32(chars@.subrange(start as int, end as int)),
{
    let ghost t = chars@.subrange(start as int, end as int);
    if start == end {
        return None;
    }
    if chars[start] == '-' {
        let ghost m = t.subrange(1, t.len() as int);
        proof {
            assert(m =~= chars@.subrange(start + 1, end as int));
        }
        match parse_u32_chars(chars, start + 1, end) {
            Some(v) => {
                if v <= 0x8000_0000u32 {
                    proof {
                        assert(spec_digits_val(m) == v);
                    }
                    if v == 0x8000_0000u32 {
                        Some(i32::MIN)
                    } else {
                        Some(-(v as i32))
                    }
                } else {
                    None
                }
            },
            None => {
                proof {
                    if is_digit_text(m) && spec_digits_val(m) <= 0x8000_0000 {
                        assert(spec_parse_u32(m) is Some);
                    }
                }
                None
            },
        }
    } else {
        match parse_u32_chars(chars, start, end) {
            Some(v) => {
                if v <= 0x7fff_ffffu32 {
                    Some(v as i32)
                } else {
                    None
                }
            },
            None => {
                proof {
                    if is_digit_text(t) && spec_digits_val(t) <= 0x7fff_ffff {
                        assert(spec_parse_u32(t) is Some);
                    }
                }
                None
            },
        }
    }
}

} // verus!
