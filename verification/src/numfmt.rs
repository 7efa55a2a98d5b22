//! Decimal digit runs: the mathematical model of decimal notation used by
//! the wire grammar, executable rendering of integers onto a line, and
//! executable extraction and valuation of the digit run inside a segment.
use vstd::prelude::*;
use vstd::string::StringExecFns;

verus! {

/// An ASCII decimal digit.
pub open spec fn is_digit(c: char) -> bool {
    '0' <= c && c <= '9'
}

/// Numeric value of one decimal digit.
pub open spec fn digit_val(c: char) -> nat
    recommends
        is_digit(c),
{
    (c as u32 - '0' as u32) as nat
}

/// The decimal digit with value `d`.
pub open spec fn digit_char(d: nat) -> char {
    if d == 0 { '0' }
    else if d == 1 { '1' }
    else if d == 2 { '2' }
    else if d == 3 { '3' }
    else if d == 4 { '4' }
    else if d == 5 { '5' }
    else if d == 6 { '6' }
    else if d == 7 { '7' }
    else if d == 8 { '8' }
    else { '9' }
}

/// Decimal notation of `n`, most significant digit first, no sign and no
/// leading zeros (`0` itself is the single digit `0`).
pub open spec fn dec_digits(n: nat) -> Seq<char>
    decreases n,
{
    if n < 10 {
        seq![digit_char(n)]
    } else {
        dec_digits(n / 10).push(digit_char(n % 10))
    }
}

/// Decimal notation of a signed integer: a leading `-` for negative
/// values, then the digits of the magnitude.
pub open spec fn int_str(i: int) -> Seq<char> {
    if i < 0 {
        seq!['-'] + dec_digits((-i) as nat)
    } else {
        dec_digits(i as nat)
    }
}

/// The digit run of a segment: every ASCII digit of `s`, in order,
/// wherever it stands.
pub open spec fn spec_digits(s: Seq<char>) -> Seq<char>
    decreases s.len(),
{
    if s.len() == 0 {
        Seq::empty()
    } else {
        let rest = spec_digits(s.drop_last());
        if is_digit(s.last()) {
            rest.push(s.last())
        } else {
            rest
        }
    }
}

/// Value of a digit run read as a decimal numeral (the empty run has
/// value 0; leading zeros are allowed and ignored).
pub open spec fn digits_val(s: Seq<char>) -> nat
    decreases s.len(),
{
    if s.len() == 0 {
        0
    } else {
        digits_val(s.drop_last()) * 10 + digit_val(s.last())
    }
}

/// Every character of `s` is an ASCII digit.
pub open spec fn all_digits(s: Seq<char>) -> bool {
    forall|i: int| 0 <= i < s.len() ==> is_digit(#[trigger] s[i])
}

/// The one-character string for digit value `d`.
fn digit_str(d: u64) -> (r: &'static str)
    requires
        d < 10,
    ensures
        r@ == seq![digit_char(d as nat)],
{
    proof {
        reveal_strlit("0");
        reveal_strlit("1");
        reveal_strlit("2");
        reveal_strlit("3");
        reveal_strlit("4");
        reveal_strlit("5");
        reveal_strlit("6");
        reveal_strlit("7");
        reveal_strlit("8");
        reveal_strlit("9");
    }
    match d {
        0 => "0",
        1 => "1",
        2 => "2",
        3 => "3",
        4 => "4",
        5 => "5",
        6 => "6",
        7 => "7",
        8 => "8",
        _ => "9",
    }
}

/// Appends the decimal notation of `n` to `out`.
pub fn push_dec_u64(out: &mut String, n: u64)
    ensures
        final(out)@ == old(out)@ + dec_digits(n as nat),
    decreases n,
{
    if n >= 10 {
        push_dec_u64(out, n / 10);
    }
    out.append(digit_str(n % 10));
    proof {
        if n >= 10 {
            assert(dec_digits(n as nat) == dec_digits(n as nat / 10).push(digit_char(n as nat % 10)));
            assert(final(out)@ =~= old(out)@ + dec_digits(n as nat));
        } else {
            assert(final(out)@ =~= old(out)@ + dec_digits(n as nat));
        }
    }
}

/// Appends the signed decimal notation of `i` to `out`.
pub fn push_int_i64(out: &mut String, i: i64)
    ensures
        final(out)@ == old(out)@ + int_str(i as int),
{
    if i < 0 {
        proof {
            reveal_strlit("-");
        }
        out.append("-");
        let mag: u64 = ((-(i as i128)) as u64);
        push_dec_u64(out, mag);
        proof {
            assert(final(out)@ =~= old(out)@ + int_str(i as int));
        }
    } else {
        push_dec_u64(out, i as u64);
    }
}

/// The digit run of any segment consists of digits only.
proof fn lemma_spec_digits_are_digits(s: Seq<char>)
    ensures
        all_digits(spec_digits(s)),
    decreases s.len(),
{
    if s.len() > 0 {
        lemma_spec_digits_are_digits(s.drop_last());
    }
}

/// The ASCII digits of `s`, in order.
pub fn extract_digits(s: &str) -> (r: Vec<char>)
    ensures
        r@ == spec_digits(s@),
        all_digits(r@),
{
    proof {
        lemma_spec_digits_are_digits(s@);
    }
    let len: usize = s.unicode_len();
    let mut out: Vec<char> = Vec::new();
    let mut i: usize = 0;
    while i < len
        invariant
            i <= len,
            len == s@.len(),
            out@ == spec_digits(s@.subrange(0, i as int)),
        decreases len - i,
    {
        let c = s.get_char(i);
        if '0' <= c && c <= '9' {
            out.push(c);
        }
        proof {
            assert(s@.subrange(0, i + 1 as int).drop_last() =~= s@.subrange(0, i as int));
            assert(s@.subrange(0, i + 1 as int).last() == s@[i as int]);
        }
        i = i + 1;
    }
    proof {
        assert(s@.subrange(0, len as int) =~= s@);
    }
    out
}

/// The whole digit run values at least as much as any prefix of it.
proof fn lemma_digits_val_prefix_mono(s: Seq<char>, j: int)
    requires
        0 <= j <= s.len(),
    ensures
        digits_val(s.subrange(0, j)) <= digits_val(s),
    decreases s.len() - j,
{
    if j == s.len() {
        assert(s.subrange(0, j) =~= s);
    } else {
        assert(s.subrange(0, j + 1).drop_last() =~= s.subrange(0, j));
        lemma_digits_val_prefix_mono(s, j + 1);
    }
}

/// Reads a digit run as a decimal value, refusing an empty run and any
/// value above `cap`.
pub fn digits_to_val(d: &Vec<char>, cap: u64) -> (r: Option<u64>)
    requires
        all_digits(d@),
    ensures
        match r {
            Some(v) => d@.len() > 0 && digits_val(d@) <= cap && v == digits_val(d@),
            None => d@.len() == 0 || digits_val(d@) > cap,
        },
{
    if d.len() == 0 {
        return None;
    }
    let mut acc: u128 = 0;
    let mut i: usize = 0;
    while i < d.len()
        invariant
            i <= d@.len(),
            all_digits(d@),
            acc == digits_val(d@.subrange(0, i as int)),
            acc <= cap,
        decreases d@.len() - i,
    {
        let c = d[i];
        let dv: u32 = c as u32 - 48;
        proof {
            assert(is_digit(d@[i as int]));
            assert(dv == digit_val(d@[i as int]));
            assert(d@.subrange(0, i + 1 as int).drop_last() =~= d@.subrange(0, i as int));
        }
        let next: u128 = acc * 10 + dv as u128;
        if next > cap as u128 {
            proof {
                assert(digits_val(d@.subrange(0, i + 1 as int)) > cap);
                lemma_digits_val_prefix_mono(d@, i + 1 as int);
            }
            return None;
        }
        acc = next;
        i = i + 1;
    }
    proof {
        assert(d@.subrange(0, d@.len() as int) =~= d@);
    }
    Some(acc as u64)
}

/// Decimal notation consists of digits only.
pub proof fn lemma_dec_digits_all_digits(n: nat)
    ensures
        all_digits(dec_digits(n)),
        dec_digits(n).len() >= 1,
    decreases n,
{
    if n >= 10 {
        lemma_dec_digits_all_digits(n / 10);
    }
}

/// Writing one digit and reading it back gives the digit's value.
proof fn lemma_digit_char_val(d: nat)
    requires
        d < 10,
    ensures
        digit_val(digit_char(d)) == d,
        is_digit(digit_char(d)),
{
}

/// Reading decimal notation back gives the value it was written from.
pub proof fn lemma_digits_val_dec_digits(n: nat)
    ensures
        digits_val(dec_digits(n)) == n,
    decreases n,
{
    if n < 10 {
        lemma_digit_char_val(n);
        assert(seq![digit_char(n)].drop_last() =~= Seq::<char>::empty());
        assert(digits_val(Seq::<char>::empty()) == 0);
        assert(seq![digit_char(n)].last() == digit_char(n));
        assert(digits_val(seq![digit_char(n)]) == n);
    } else {
        lemma_digits_val_dec_digits(n / 10);
        lemma_digit_char_val(n % 10);
        assert(dec_digits(n).drop_last() =~= dec_digits(n / 10));
        assert(dec_digits(n).last() == digit_char(n % 10));
        assert(digits_val(dec_digits(n)) == n / 10 * 10 + n % 10);
        assert(n / 10 * 10 + n % 10 == n) by {
            vstd::arithmetic::div_mod::lemma_fundamental_div_mod(n as int, 10);
        }
    }
}

/// A run of digits is its own digit run.
pub proof fn lemma_spec_digits_of_digits(s: Seq<char>)
    requires
        all_digits(s),
    ensures
        spec_digits(s) == s,
    decreases s.len(),
{
    if s.len() > 0 {
        assert(forall|i: int| 0 <= i < s.drop_last().len() ==> is_digit(#[trigger] s.drop_last()[i]));
        lemma_spec_digits_of_digits(s.drop_last());
        assert(spec_digits(s) =~= s);
    } else {
        assert(spec_digits(s) =~= s);
    }
}

} // verus!
