//! Decimal rendering of integers, used to build the human-readable details
//! carried by invariant violations.
use vstd::prelude::*;

verus! {

/// The ASCII character of a decimal digit.
pub open spec fn digit_char(d: nat) -> char {
    if d == 0 { '0' }
    else if d == 1 { '1' }
    else if d == 2 { '2' }
    else if d == 3 { '3' }
    else if d == 4 { '4' }
    else if d == 5 { '5' }
    else if d == 6 { '6' }
    else if d == 7 { '7' }
    else if d == 8 { '8' }
    else { '9' }
}

/// The decimal digits of a natural number, most significant first, with no
/// leading zeros (zero itself is written `0`).
pub open spec fn nat_text(n: nat) -> Seq<char>
    decreases n,
{
    if n < 10 {
        seq![digit_char(n)]
    } else {
        nat_text(n / 10).push(digit_char(n % 10))
    }
}

/// The decimal text of an integer, as Rust's `Display` writes it: a leading
/// `-` for negative values, then the digits of the magnitude.
pub open spec fn int_text(v: int) -> Seq<char> {
    if v < 0 {
        seq!['-'] + nat_text((-v) as nat)
    } else {
        nat_text(v as nat)
    }
}

fn digit_str(d: u8) -> (s: &'static str)
    requires
        d < 10,
    ensures
        s@ == seq![digit_char(d as nat)],
{
    proof {
        reveal_strlit("0");
        reveal_strlit("1");
        reveal_strlit("2");
        reveal_strlit("3");
        reveal_strlit("4");
        reveal_strlit("5");
        reveal_strlit("6");
        reveal_strlit("7");
        reveal_strlit("8");
        reveal_strlit("9");
    }
    if d == 0 { "0" }
    else if d == 1 { "1" }
    else if d == 2 { "2" }
    else if d == 3 { "3" }
    else if d == 4 { "4" }
    else if d == 5 { "5" }
    else if d == 6 { "6" }
    else if d == 7 { "7" }
    else if d == 8 { "8" }
    else { "9" }
}

/// Appends the decimal digits of `n` to `out`.
pub fn append_u128(out: &mut String, n: u128)
    ensures
        final(out)@ == old(out)@ + nat_text(n as nat),
{
    // Collect the digits least significant first; `rev` mirrors them as characters.
    let mut digits: Vec<u8> = Vec::new();
    let mut rest: u128 = n;
    let ghost mut rev: Seq<char> = Seq::empty();
    while rest >= 10
        invariant
            nat_text(n as nat) == nat_text(rest as nat) + rev.reverse(),
            rev.len() == digits.len(),
            forall|i: int| 0 <= i < digits.len() ==> #[trigger] digits[i] < 10,
            forall|i: int| 0 <= i < digits.len() ==> rev[i] == digit_char(#[trigger] digits[i] as nat),
        decreases rest,
    {
        let d = (rest % 10) as u8;
        let ghost old_rev = rev;
        let ghost old_rest = rest;
        digits.push(d);
        rest = rest / 10;
        proof {
            rev = old_rev.push(digit_char(d as nat));
            assert(nat_text(old_rest as nat) == nat_text(rest as nat).push(digit_char(d as nat)));
            assert(rev.reverse() == seq![digit_char(d as nat)] + old_rev.reverse());
            assert(nat_text(rest as nat).push(digit_char(d as nat)) + old_rev.reverse()
                == nat_text(rest as nat) + rev.reverse());
        }
    }
    let ghost old_rev = rev;
    digits.push(rest as u8);
    proof {
        rev = old_rev.push(digit_char(rest as nat));
        assert(nat_text(rest as nat) == seq![digit_char(rest as nat)]);
        assert(rev.reverse() == seq![digit_char(rest as nat)] + old_rev.reverse());
        assert(nat_text(n as nat) == rev.reverse());
    }
    let ghost start = out@;
    let ghost text = nat_text(n as nat);
    let mut k: usize = digits.len();
    while k > 0
        invariant
            k <= digits.len(),
            text == rev.reverse(),
            rev.len() == digits.len(),
            forall|i: int| 0 <= i < digits.len() ==> #[trigger] digits[i] < 10,
            forall|i: int| 0 <= i < digits.len() ==> rev[i] == digit_char(#[trigger] digits[i] as nat),
            out@ == start + text.subrange(0, (digits.len() - k) as int),
        decreases k,
    {
        k = k - 1;
        let s = digit_str(digits[k]);
        out.append(s);
        proof {
            let j = (digits.len() - 1 - k) as int;
            assert(text[j] == rev[k as int]);
            assert(text.subrange(0, j + 1) == text.subrange(0, j).push(text[j]));
        }
    }
    proof {
        assert(text.subrange(0, digits.len() as int) == text);
    }
}

/// Appends the decimal text of `v` to `out`, as `Display` writes it.
pub fn append_i128(out: &mut String, v: i128)
    ensures
        final(out)@ == old(out)@ + int_text(v as int),
{
    if v < 0 {
        proof {
            reveal_strlit("-");
        }
        out.append("-");
        let mag: u128 = ((-(v + 1)) as u128) + 1;
        append_u128(out, mag);
        proof {
            assert(old(out)@ + seq!['-'] + nat_text(mag as nat) == old(out)@ + (seq!['-']
                + nat_text(mag as nat)));
        }
    } else {
        append_u128(out, v as u128);
    }
}

/// A fresh string holding `label` followed by the decimal text of `v`.
pub fn labelled_i128(label: &str, v: i128) -> (s: String)
    ensures
        s@ == label@ + int_text(v as int),
{
    let mut s = String::from_str(label);
    append_i128(&mut s, v);
    s
}

/// A fresh string `first_label a second_label b`, the two numbers in decimal.
pub fn labelled_pair(first_label: &str, a: i128, second_label: &str, b: i128) -> (s: String)
    ensures
        s@ == first_label@ + int_text(a as int) + second_label@ + int_text(b as int),
{
    let mut s = String::from_str(first_label);
    append_i128(&mut s, a);
    s.append(second_label);
    append_i128(&mut s, b);
    s
}

} // verus!
