//! Decimal integers as character sequences: a specification of what a
//! decimal digit string denotes, a verified parser for signed 32-bit
//! integers, and a verified formatter for unsigned 32-bit integers.

use vstd::prelude::*;

verus! {

/// `c` is one of the ASCII digits `'0'` through `'9'`.
pub open spec fn is_ascii_digit(c: char) -> bool {
    48 <= c as u32 && c as u32 <= 57
}

/// Numeric value of an ASCII digit character.
pub open spec fn digit_val(c: char) -> int {
    c as u32 - 48
}

/// The digit character for a value `0 <= d <= 9`.
pub open spec fn digit_char(d: int) -> char {
    if d == 0 {
        '0'
    } else if d == 1 {
        '1'
    } else if d == 2 {
        '2'
    } else if d == 3 {
        '3'
    } else if d == 4 {
        '4'
    } else if d == 5 {
        '5'
    } else if d == 6 {
        '6'
    } else if d == 7 {
        '7'
    } else if d == 8 {
        '8'
    } else {
        '9'
    }
}

/// Every character of `s` is an ASCII digit.
pub open spec fn all_digits(s: Seq<char>) -> bool {
    forall|i: int| 0 <= i < s.len() ==> is_ascii_digit(#[trigger] s[i])
}

/// The value denoted by a digit string, most significant digit first.
pub open spec fn digits_val(s: Seq<char>) -> int
    decreases s.len(),
{
    if s.len() == 0 {
        0
    } else {
        digits_val(s.drop_last()) * 10 + digit_val(s.last())
    }
}

/// The canonical decimal representation of `n`: no sign, no leading zeros
/// (except for `n == 0` itself).
pub open spec fn dec_rep(n: nat) -> Seq<char>
    decreases n,
{
    if n < 10 {
        seq![digit_char(n as int)]
    } else {
        dec_rep(n / 10) + seq![digit_char((n % 10) as int)]
    }
}

/// What parsing a signed 32-bit integer from text means: an optional `'+'`
/// or `'-'` sign followed by at least one ASCII digit, denoting a value
/// within `i32` range; anything else is rejected.
pub open spec fn parse_i32_spec(s: Seq<char>) -> Option<i32> {
    let negative = s.len() > 0 && s[0] == '-';
    let digits = if s.len() > 0 && (s[0] == '-' || s[0] == '+') {
        s.drop_first()
    } else {
        s
    };
    if digits.len() == 0 || !all_digits(digits) {
        None
    } else {
        let v = if negative {
            -digits_val(digits)
        } else {
            digits_val(digits)
        };
        if i32::MIN <= v <= i32::MAX {
            Some(v as i32)
        } else {
            None
        }
    }
}

/// A digit string is never negative.
pub proof fn lemma_digits_val_nonneg(s: Seq<char>)
    requires
        all_digits(s),
    ensures
        digits_val(s) >= 0,
    decreases s.len(),
{
    if s.len() > 0 {
        assert(all_digits(s.drop_last()));
        lemma_digits_val_nonneg(s.drop_last());
    }
}

/// Appending digits never decreases the denoted value.
pub proof fn lemma_digits_val_prefix_le(s: Seq<char>, i: int)
    requires
        all_digits(s),
        0 <= i <= s.len(),
    ensures
        digits_val(s.take(i)) <= digits_val(s),
    decreases s.len(),
{
    if i < s.len() {
        assert(all_digits(s.drop_last()));
        assert(s.take(i) =~= s.drop_last().take(i));
        lemma_digits_val_prefix_le(s.drop_last(), i);
        lemma_digits_val_nonneg(s.drop_last());
        lemma_digits_val_nonneg(s.drop_last().take(i));
    } else {
        assert(s.take(i) =~= s);
    }
}

/// Parse a signed 32-bit integer from a string, exactly as
/// [`parse_i32_spec`] describes.
pub fn parse_i32(s: &str) -> (r: Option<i32>)
    ensures
        r == parse_i32_spec(s@),
{
    let n: usize = s.unicode_len();
    let mut start: usize = 0;
    let mut negative = false;
    if n > 0 {
        let c0 = s.get_char(0);
        if c0 == '-' {
            negative = true;
            start = 1;
        } else if c0 == '+' {
            start = 1;
        }
    }
    if n == start {
        return None;
    }
    let mut acc: u64 = 0;
    let mut i: usize = start;
    while i < n
        invariant
            start <= i <= n,
            n == s@.len(),
            n > start,
            negative == (s@.len() > 0 && s@[0] == '-'),
            start == (if s@.len() > 0 && (s@[0] == '-' || s@[0] == '+') {
                1int
            } else {
                0int
            }),
            all_digits(s@.subrange(start as int, i as int)),
            acc == digits_val(s@.subrange(start as int, i as int)),
            acc <= 0x8000_0000,
        decreases n - i,
    {
        let ghost digits = if s@.len() > 0 && (s@[0] == '-' || s@[0] == '+') {
            s@.drop_first()
        } else {
            s@
        };
        proof {
            assert(digits =~= s@.subrange(start as int, n as int));
        }
        let c = s.get_char(i);
        let cv: u32 = c as u32;
        if cv < 48 || cv > 57 {
            assert(!is_ascii_digit(digits[i - start]));
            return None;
        }
        let d: u64 = (cv - 48) as u64;
        let next: u64 = acc * 10 + d;
        assert(s@.subrange(start as int, i + 1).drop_last() =~= s@.subrange(
            start as int,
            i as int,
        ));
        assert(next == digits_val(s@.subrange(start as int, i + 1)));
        if next > 0x8000_0000 {
            proof {
                if all_digits(digits) {
                    assert(digits.take(i + 1 - start) =~= s@.subrange(start as int, i + 1));
                    lemma_digits_val_prefix_le(digits, i + 1 - start);
                }
            }
            return None;
        }
        acc = next;
        i = i + 1;
    }
    proof {
        let digits = if s@.len() > 0 && (s@[0] == '-' || s@[0] == '+') {
            s@.drop_first()
        } else {
            s@
        };
        assert(s@.subrange(start as int, i as int) =~= digits);
    }
    if negative {
        Some((-(acc as i64)) as i32)
    } else {
        if acc == 0x8000_0000 {
            None
        } else {
            Some(acc as i32)
        }
    }
}

/// The decimal representation of `n` consists of digits only.
pub proof fn lemma_dec_rep_all_digits(n: nat)
    ensures
        dec_rep(n).len() >= 1,
        all_digits(dec_rep(n)),
    decreases n,
{
    if n >= 10 {
        lemma_dec_rep_all_digits(n / 10);
    }
}

/// Formatting then evaluating a number gives the number back.
pub proof fn lemma_dec_rep_val(n: nat)
    ensures
        digits_val(dec_rep(n)) == n,
    decreases n,
{
    assert(digits_val(Seq::<char>::empty()) == 0);
    if n < 10 {
        assert(dec_rep(n) =~= seq![digit_char(n as int)]);
        assert(dec_rep(n).drop_last() =~= Seq::<char>::empty());
        assert(dec_rep(n).last() == digit_char(n as int));
        assert(digit_val(digit_char(n as int)) == n);
        assert(digits_val(dec_rep(n)) == digits_val(dec_rep(n).drop_last()) * 10 + digit_val(
            dec_rep(n).last(),
        ));
    } else {
        lemma_dec_rep_val(n / 10);
        assert(dec_rep(n).drop_last() =~= dec_rep(n / 10));
        assert(dec_rep(n).last() == digit_char((n % 10) as int));
        assert(digit_val(digit_char((n % 10) as int)) == n % 10);
    }
}

/// The string holding exactly the digit character for `d`.
fn digit_str(d: u32) -> (s: &'static str)
    requires
        d < 10,
    ensures
        s@ =~= seq![digit_char(d as int)],
{
    proof {
        reveal_strlit("0");
        reveal_strlit("1");
        reveal_strlit("2");
        reveal_strlit("3");
        reveal_strlit("4");
        reveal_strlit("5");
        reveal_strlit("6");
        reveal_strlit("7");
        reveal_strlit("8");
        reveal_strlit("9");
    }
    if d == 0 {
        "0"
    } else if d == 1 {
        "1"
    } else if d == 2 {
        "2"
    } else if d == 3 {
        "3"
    } else if d == 4 {
        "4"
    } else if d == 5 {
        "5"
    } else if d == 6 {
        "6"
    } else if d == 7 {
        "7"
    } else if d == 8 {
        "8"
    } else {
        "9"
    }
}

/// The decimal representation of a signed value: a leading `'-'` for a
/// negative one, then the representation of its magnitude.
pub open spec fn dec_rep_signed(v: int) -> Seq<char> {
    if v < 0 {
        seq!['-'] + dec_rep((-v) as nat)
    } else {
        dec_rep(v as nat)
    }
}

/// Format `v` in decimal, exactly as [`dec_rep_signed`] describes.
pub fn i32_to_string(v: i32) -> (s: String)
    ensures
        s@ == dec_rep_signed(v as int),
{
    if v < 0 {
        let mag: u32 = (-(v as i64)) as u32;
        let mut s = String::from_str("-");
        proof {
            reveal_strlit("-");
            assert(s@ =~= seq!['-']);
        }
        s.append(u32_to_string(mag).as_str());
        s
    } else {
        u32_to_string(v as u32)
    }
}

/// Format `n` in decimal, exactly as [`dec_rep`] describes.
pub fn u32_to_string(n: u32) -> (s: String)
    ensures
        s@ == dec_rep(n as nat),
    decreases n,
{
    if n < 10 {
        String::from_str(digit_str(n))
    } else {
        let mut s = u32_to_string(n / 10);
        s.append(digit_str(n % 10));
        s
    }
}

} // verus!
