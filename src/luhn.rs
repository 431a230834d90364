//! The Luhn check on card numbers.
use vstd::prelude::*;
use vstd::arithmetic::div_mod::{lemma_add_mod_noop, lemma_fundamental_div_mod, lemma_mod_multiples_vanish};

verus! {

/// The sum of the decimal digits of `n`.
pub open spec fn digit_sum(n: nat) -> nat
    decreases n,
{
    if n == 0 {
        0
    } else {
        n % 10 + digit_sum(n / 10)
    }
}

/// What is left of `n` after summing its digits until one digit remains.
pub open spec fn digit_root(n: nat) -> nat {
    if n == 0 {
        0
    } else {
        1 + ((n - 1) as nat) % 9
    }
}

/// Summing the digits keeps the remainder by 9, never grows a number, and
/// shrinks any number of two or more digits.
pub proof fn lemma_digit_sum(n: nat)
    ensures
        digit_sum(n) % 9 == n % 9,
        digit_sum(n) <= n,
        n >= 10 ==> digit_sum(n) < n,
        n > 0 ==> digit_sum(n) > 0,
    decreases n,
{
    if n > 0 {
        let q = n / 10;
        let r = n % 10;
        lemma_digit_sum(q);
        lemma_fundamental_div_mod(n as int, 10);
        assert(n == 10 * q + r);
        lemma_mod_multiples_vanish(q as int, (q + r) as int, 9);
        assert(n as int == 9 * q + (q + r));
        lemma_add_mod_noop(r as int, q as int, 9);
        lemma_add_mod_noop(r as int, digit_sum(q) as int, 9);
    }
}

/// Summing the digits of a number of two or more digits leaves a smaller,
/// positive number with the same digit root.
pub proof fn lemma_digit_root_step(n: nat)
    requires
        n >= 10,
    ensures
        0 < digit_sum(n) < n,
        digit_root(digit_sum(n)) == digit_root(n),
{
    lemma_digit_sum(n);
    let y = digit_sum(n);
    assert(((y - 1) as int) % 9 == ((n - 1) as int) % 9) by {
        lemma_add_mod_noop(y as int, -1, 9);
        lemma_add_mod_noop(n as int, -1, 9);
    }
}

/// Sums the digits of `i` over and over until a single digit is left.
fn trim_num(i: u32) -> (r: u32)
    ensures
        r == digit_root(i as nat),
    decreases i,
{
    if i < 10 {
        return i;
    }
    proof {
        lemma_digit_root_step(i as nat);
        lemma_digit_sum(i as nat);
    }
    let ghost i0 = i as nat;
    let mut n: u32 = i;
    let mut y: u32 = 0;
    while n > 0
        invariant
            y + digit_sum(n as nat) == digit_sum(i0),
            digit_sum(i0) <= i0,
            i0 <= u32::MAX,
        decreases n,
    {
        y += n % 10;
        n = n / 10;
    }
    trim_num(y)
}


/// Whether `c` has the Unicode White_Space property.
pub open spec fn is_white_space(c: char) -> bool {
    let u = c as u32;
    (9 <= u && u <= 13) || u == 32 || u == 0x85 || u == 0xA0 || u == 0x1680 || (0x2000 <= u && u
        <= 0x200A) || u == 0x2028 || u == 0x2029 || u == 0x202F || u == 0x205F || u == 0x3000
}

/// Relies on `char::is_whitespace`: true exactly for the characters with the
/// Unicode White_Space property.
pub assume_specification[ char::is_whitespace ](c: char) -> (r: bool)
    ensures
        r == is_white_space(c),
;

/// Whether `c` is one of the digits `0` to `9`.
pub open spec fn is_digit(c: char) -> bool {
    '0' <= c && c <= '9'
}

/// The value of the digit `c`.
pub open spec fn digit_value(c: char) -> nat {
    (c as u32 - '0' as u32) as nat
}

/// The digits of `s` from right to left, white space left out.
pub open spec fn digits_rev(s: Seq<char>) -> Seq<nat>
    decreases s.len(),
{
    if s.len() == 0 {
        seq![]
    } else {
        let rest = digits_rev(s.drop_first());
        if is_white_space(s[0]) {
            rest
        } else {
            rest.push(digit_value(s[0]))
        }
    }
}

/// What the digit `d` adds to the checksum at position `k`, counted from the
/// right starting at 0: every second digit is doubled and reduced to one digit.
pub open spec fn luhn_term(k: int, d: nat) -> nat {
    if k % 2 == 1 {
        digit_root(2 * d)
    } else {
        d
    }
}

/// The checksum of the digits `ds`, given from right to left.
pub open spec fn luhn_sum(ds: Seq<nat>) -> nat
    decreases ds.len(),
{
    if ds.len() == 0 {
        0
    } else {
        luhn_sum(ds.drop_last()) + luhn_term(ds.len() - 1, ds.last())
    }
}

/// Whether `s` is a valid number: only digits and white space, at least two
/// digits, and a checksum that is a multiple of 10.
pub open spec fn luhn_valid(s: Seq<char>) -> bool {
    &&& forall|i: int| 0 <= i < s.len() && !is_white_space(#[trigger] s[i]) ==> is_digit(s[i])
    &&& digits_rev(s).len() >= 2
    &&& luhn_sum(digits_rev(s)) % 10 == 0
}

/// Whether `cc_number` passes the Luhn check.
pub fn luhn(cc_number: &str) -> (res: bool)
    ensures
        res == luhn_valid(cc_number@),
{
    let ghost s = cc_number@;
    let n = cc_number.unicode_len();
    let mut i: usize = n;
    let mut count: usize = 0;
    let mut acc: u32 = 0;
    assert(s.skip(n as int) =~= Seq::<char>::empty());
    while i > 0
        invariant
            s == cc_number@,
            n == s.len(),
            i <= n,
            count == digits_rev(s.skip(i as int)).len(),
            count <= n - i,
            acc == luhn_sum(digits_rev(s.skip(i as int))) % 10,
            forall|k: int| i <= k < n && !is_white_space(#[trigger] s[k]) ==> is_digit(s[k]),
        decreases i,
    {
        i -= 1;
        let c = cc_number.get_char(i);
        let ghost t = s.skip(i as int);
        assert(t.drop_first() =~= s.skip(i + 1));
        assert(t[0] == c);
        if c.is_whitespace() {
        } else if c < '0' || c > '9' {
            return false;
        } else {
            let d = (c as u32) - ('0' as u32);
            let ghost ds = digits_rev(s.skip(i + 1));
            assert(digits_rev(t) == ds.push(d as nat));
            assert(ds.push(d as nat).drop_last() == ds);
            let v = if count % 2 == 1 {
                assert(d * 2 <= 18);
                trim_num(d * 2)
            } else {
                d
            };
            assert(v <= 9);
            proof {
                lemma_add_mod_noop(luhn_sum(ds) as int, v as int, 10);
                lemma_add_mod_noop(acc as int, v as int, 10);
            }
            acc = (acc + v) % 10;
            count += 1;
        }
    }
    assert(s.skip(0) =~= s);
    count >= 2 && acc == 0
}

} // verus!
