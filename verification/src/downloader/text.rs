//! Decimal rendering of integers, as bytes and as text.

use vstd::prelude::*;
use vstd::string::*;

verus! {

/// The ASCII bytes of `n` written in decimal, without sign or leading zeros.
pub open spec fn decimal(n: nat) -> Seq<u8>
    decreases n,
{
    if n < 10 {
        seq![(48 + n) as u8]
    } else {
        decimal(n / 10).push((48 + n % 10) as u8)
    }
}

/// The characters of `n` written in decimal.
pub open spec fn decimal_text(n: nat) -> Seq<char>
    decreases n,
{
    if n < 10 {
        seq![(48 + n) as char]
    } else {
        decimal_text(n / 10).push((48 + n % 10) as char)
    }
}

/// Every byte of a decimal rendering is a digit.
pub proof fn lemma_decimal_digits(n: nat)
    ensures
        all_digits(decimal(n)),
        decimal(n).len() >= 1,
    decreases n,
{
    if n >= 10 {
        lemma_decimal_digits(n / 10);
    }
}

/// Distinct numbers are written differently.
pub proof fn lemma_decimal_text_injective(a: nat, b: nat)
    requires
        decimal_text(a) == decimal_text(b),
    ensures
        a == b,
    decreases a,
{
    lemma_decimal_text_len(a);
    lemma_decimal_text_len(b);
    if a < 10 && b < 10 {
        assert(decimal_text(a)[0] == decimal_text(b)[0]);
        assert(decimal_text(a)[0] == ((48 + a) as char));
        assert(decimal_text(b)[0] == ((48 + b) as char));
        assert(((48 + a) as char) as u32 == 48 + a);
        assert(((48 + b) as char) as u32 == 48 + b);
        assert(a == b);
    } else if a >= 10 && b >= 10 {
        let ta = decimal_text(a);
        let tb = decimal_text(b);
        assert(ta.drop_last() == decimal_text(a / 10));
        assert(tb.drop_last() == decimal_text(b / 10));
        lemma_decimal_text_injective(a / 10, b / 10);
        assert(ta.last() == tb.last());
        assert(ta.last() == ((48 + a % 10) as char));
        assert(tb.last() == ((48 + b % 10) as char));
        assert(((48 + a % 10) as char) as u32 == 48 + a % 10);
        assert(((48 + b % 10) as char) as u32 == 48 + b % 10);
        assert(a % 10 == b % 10);
        assert(a / 10 == b / 10);
        assert(a == b);
    } else {
        assert(decimal_text(a).len() == decimal_text(b).len());
    }
}

proof fn lemma_decimal_text_len(n: nat)
    ensures
        decimal_text(n).len() >= 1,
        n < 10 <==> decimal_text(n).len() == 1,
    decreases n,
{
    if n >= 10 {
        lemma_decimal_text_len(n / 10);
    }
}

/// Appends the decimal digits of `n` to `out`.
pub fn push_decimal(out: &mut Vec<u8>, n: u64)
    ensures
        final(out)@ == old(out)@ + decimal(n as nat),
    decreases n,
{
    if n >= 10 {
        push_decimal(out, n / 10);
    }
    let d: u8 = (n % 10) as u8;
    out.push(48u8 + d);
    proof {
        assert(old(out)@ + decimal(n as nat) =~= final(out)@) by {
            if n >= 10 {
                assert(decimal(n as nat) == decimal((n / 10) as nat).push((48 + n % 10) as u8));
            }
        }
    }
}

fn digit_text(d: u64) -> (s: &'static str)
    requires
        d < 10,
    ensures
        s@ == seq![(48 + d) as char],
{
    proof {
        reveal_strlit("0");
        reveal_strlit("1");
        reveal_strlit("2");
        reveal_strlit("3");
        reveal_strlit("4");
        reveal_strlit("5");
        reveal_strlit("6");
        reveal_strlit("7");
        reveal_strlit("8");
        reveal_strlit("9");
    }
    if d == 0 {
        "0"
    } else if d == 1 {
        "1"
    } else if d == 2 {
        "2"
    } else if d == 3 {
        "3"
    } else if d == 4 {
        "4"
    } else if d == 5 {
        "5"
    } else if d == 6 {
        "6"
    } else if d == 7 {
        "7"
    } else if d == 8 {
        "8"
    } else {
        "9"
    }
}

/// `n` written in decimal.
pub fn decimal_string(n: u64) -> (s: String)
    ensures
        s@ == decimal_text(n as nat),
    decreases n,
{
    if n < 10 {
        String::from_str(digit_text(n))
    } else {
        let head = decimal_string(n / 10);
        let s = head.concat(digit_text(n % 10));
        assert(s@ =~= decimal_text(n as nat));
        s
    }
}

/// An ASCII decimal digit.
pub open spec fn is_digit(b: u8) -> bool {
    48 <= b <= 57
}

pub open spec fn all_digits(s: Seq<u8>) -> bool {
    forall|i: int| 0 <= i < s.len() ==> is_digit(#[trigger] s[i])
}

/// The number that a run of decimal digits denotes.
pub open spec fn digits_value(s: Seq<u8>) -> nat
    decreases s.len(),
{
    if s.len() == 0 {
        0
    } else {
        digits_value(s.drop_last()) * 10 + (s.last() - 48) as nat
    }
}

/// The digits of an unsigned number: one leading `+` is allowed when digits
/// follow it.
pub open spec fn unsigned_digits(s: Seq<u8>) -> Seq<u8> {
    if s.len() > 1 && s[0] == 43 {
        s.drop_first()
    } else {
        s
    }
}

/// What `str::parse::<u64>` gives for the text `s`: `None` on an empty text,
/// on any byte that is not a digit, and on a number beyond `u64::MAX`.
pub open spec fn parse_u64_spec(s: Seq<u8>) -> Option<u64> {
    let d = unsigned_digits(s);
    if d.len() > 0 && all_digits(d) && digits_value(d) <= u64::MAX {
        Some(digits_value(d) as u64)
    } else {
        None
    }
}

proof fn lemma_digits_prefix(s: Seq<u8>, j: int)
    requires
        all_digits(s),
        0 <= j <= s.len(),
    ensures
        digits_value(s.subrange(0, j)) <= digits_value(s),
    decreases s.len(),
{
    if j < s.len() {
        assert(all_digits(s.drop_last()));
        lemma_digits_prefix(s.drop_last(), j);
        assert(s.drop_last().subrange(0, j) =~= s.subrange(0, j));
    } else {
        assert(s.subrange(0, j) =~= s);
    }
}

/// Reads an unsigned decimal number, as `str::parse::<u64>` does.
pub fn parse_u64(s: &[u8]) -> (r: Option<u64>)
    ensures
        r == parse_u64_spec(s@),
{
    let ghost d = unsigned_digits(s@);
    let start: usize = if s.len() > 1 && s[0] == 43 { 1 } else { 0 };
    assert(d =~= s@.subrange(start as int, s@.len() as int));
    if start == s.len() {
        return None;
    }
    let mut v: u64 = 0;
    let mut i: usize = start;
    assert(s@.subrange(start as int, start as int) =~= Seq::<u8>::empty());
    while i < s.len()
        invariant
            start <= i <= s.len(),
            d == unsigned_digits(s@),
            d =~= s@.subrange(start as int, s@.len() as int),
            all_digits(s@.subrange(start as int, i as int)),
            v == digits_value(s@.subrange(start as int, i as int)),
        decreases s.len() - i,
    {
        let b = s[i];
        if b < 48 || b > 57 {
            assert(!is_digit(d[i - start]));
            return None;
        }
        let dv: u64 = (b - 48) as u64;
        let ghost next = s@.subrange(start as int, i + 1);
        assert(next.drop_last() =~= s@.subrange(start as int, i as int));
        assert(digits_value(next) == v * 10 + dv);
        if v > (u64::MAX - dv) / 10 {
            proof {
                assert(v * 10 + dv > u64::MAX);
                if all_digits(d) {
                    lemma_digits_prefix(d, i + 1 - start);
                    assert(d.subrange(0, i + 1 - start) =~= next);
                }
            }
            return None;
        }
        v = v * 10 + dv;
        i = i + 1;
        assert(all_digits(next));
    }
    assert(s@.subrange(start as int, i as int) =~= d);
    Some(v)
}

proof fn lemma_decimal_value(n: nat)
    ensures
        digits_value(decimal(n)) == n,
        all_digits(decimal(n)),
    decreases n,
{
    lemma_decimal_digits(n);
    let d = decimal(n);
    if n >= 10 {
        lemma_decimal_value(n / 10);
        assert(d.drop_last() == decimal(n / 10));
        assert(d.last() == (48 + n % 10) as u8);
        assert(((48 + n % 10) as u8) as int == 48 + n % 10);
        assert(digits_value(d) == (n / 10) * 10 + n % 10);
    } else {
        assert(d.drop_last() =~= Seq::<u8>::empty());
        assert(d.last() == (48 + n) as u8);
        assert(digits_value(d.drop_last()) == 0);
    }
}

/// A number written in decimal reads back as the same number.
pub proof fn lemma_parse_decimal(n: u64)
    ensures
        parse_u64_spec(decimal(n as nat)) == Some(n),
{
    lemma_decimal_value(n as nat);
    let d = decimal(n as nat);
    assert(is_digit(d[0]));
    assert(unsigned_digits(d) == d);
}

/// The text of a number is its decimal bytes read as characters, so it reads
/// back as the same number too.
pub proof fn lemma_decimal_text_is_decimal(n: nat)
    ensures
        decimal_text(n).len() == decimal(n).len(),
        forall|i: int| 0 <= i < decimal(n).len() ==> decimal_text(n)[i] as u32 == decimal(n)[i] as u32,
    decreases n,
{
    if n >= 10 {
        lemma_decimal_text_is_decimal(n / 10);
        assert(((48 + n % 10) as char) as u32 == 48 + n % 10);
        assert(((48 + n % 10) as u8) as u32 == 48 + n % 10);
    } else {
        assert(((48 + n) as char) as u32 == 48 + n);
        assert(((48 + n) as u8) as u32 == 48 + n);
    }
}

/// Text that is empty, or holds a byte that is not a digit (beyond one
/// leading `+` before digits), is not a number.
pub proof fn lemma_parse_refuses(s: Seq<u8>, i: int)
    ensures
        s.len() == 0 ==> parse_u64_spec(s) is None,
        0 <= i < s.len() && !is_digit(s[i]) && !(i == 0 && s[0] == 43 && s.len() > 1) ==> parse_u64_spec(s) is None,
{
    if 0 <= i < s.len() && !is_digit(s[i]) && !(i == 0 && s[0] == 43 && s.len() > 1) {
        let d = unsigned_digits(s);
        if s.len() > 1 && s[0] == 43 {
            assert(d[i - 1] == s[i]);
        } else {
            assert(d[i] == s[i]);
        }
    }
}

} // verus!
