//! Byte-level helpers shared by the codec and the dispatcher: decimal
//! rendering and parsing of unsigned integers, ASCII case folding, and
//! byte-sequence comparison.

use vstd::prelude::*;

verus! {

/// The decimal digit characters `'0'..='9'` as bytes.
pub open spec fn is_digit(b: u8) -> bool {
    48 <= b <= 57
}

/// The decimal rendering of `n`, most significant digit first, with no
/// leading zeros (a single `'0'` for zero).
pub open spec fn dec_digits(n: nat) -> Seq<u8>
    decreases n,
{
    if n < 10 {
        seq![(n + 48) as u8]
    } else {
        dec_digits(n / 10).push((n % 10 + 48) as u8)
    }
}

/// The value of a sequence of decimal digit bytes, most significant first.
/// Non-digit bytes contribute garbage; callers guard with `is_digit`.
pub open spec fn dec_val(s: Seq<u8>) -> nat
    decreases s.len(),
{
    if s.len() == 0 {
        0
    } else {
        dec_val(s.drop_last()) * 10 + (if s.last() >= 48 { (s.last() - 48) as nat } else { 0 })
    }
}

/// Every byte of `dec_digits(n)` is a decimal digit, and there is at
/// least one of them.
pub proof fn lemma_dec_digits_are_digits(n: nat)
    ensures
        dec_digits(n).len() >= 1,
        forall|i: int| 0 <= i < dec_digits(n).len() ==> is_digit(#[trigger] dec_digits(n)[i]),
    decreases n,
{
    if n >= 10 {
        lemma_dec_digits_are_digits(n / 10);
        assert forall|i: int| 0 <= i < dec_digits(n).len() implies is_digit(
            #[trigger] dec_digits(n)[i],
        ) by {
            if i < dec_digits(n / 10).len() {
                assert(dec_digits(n)[i] == dec_digits(n / 10)[i]);
            }
        }
    }
}

/// Parsing inverts rendering: the decimal digits of `n` evaluate back to `n`.
pub proof fn lemma_dec_val_of_digits(n: nat)
    ensures
        dec_val(dec_digits(n)) == n,
    decreases n,
{
    if n < 10 {
        assert(dec_digits(n) =~= seq![(n + 48) as u8]);
        assert(dec_val(dec_digits(n)) == dec_val(seq![(n + 48) as u8].drop_last()) * 10 + n);
        assert(seq![(n + 48) as u8].drop_last() =~= Seq::<u8>::empty());
    } else {
        lemma_dec_val_of_digits(n / 10);
        let s = dec_digits(n / 10).push((n % 10 + 48) as u8);
        assert(s.drop_last() =~= dec_digits(n / 10));
        assert(s.last() == (n % 10 + 48) as u8);
        assert(dec_val(s) == (n / 10) * 10 + n % 10);
        assert((n / 10) * 10 + n % 10 == n) by (nonlinear_arith);
    }
}

/// Appending a digit multiplies the value by ten and adds the digit.
pub proof fn lemma_dec_val_push(s: Seq<u8>, b: u8)
    requires
        b >= 48,
    ensures
        dec_val(s.push(b)) == dec_val(s) * 10 + (b - 48),
{
    assert(s.push(b).drop_last() =~= s);
    assert(s.push(b).last() == b);
}

/// A digit sequence's value only grows when digits are appended.
pub proof fn lemma_dec_val_monotone(s: Seq<u8>, b: u8)
    requires
        b >= 48,
    ensures
        dec_val(s.push(b)) >= dec_val(s),
{
    lemma_dec_val_push(s, b);
    assert(dec_val(s) * 10 >= dec_val(s)) by (nonlinear_arith);
}

/// ASCII lower-casing of one byte: letters `'A'..='Z'` gain 32, all other
/// bytes are unchanged.
pub open spec fn lower_byte(b: u8) -> u8 {
    if 65 <= b <= 90 {
        (b + 32) as u8
    } else {
        b
    }
}

/// ASCII lower-casing of a byte sequence, pointwise.
pub open spec fn lower_seq(s: Seq<u8>) -> Seq<u8> {
    s.map_values(|b: u8| lower_byte(b))
}

/// Lower-case a byte vector (ASCII letters only; other bytes unchanged).
pub fn to_lower(s: &Vec<u8>) -> (r: Vec<u8>)
    ensures
        r@ == lower_seq(s@),
{
    let mut out: Vec<u8> = Vec::new();
    let mut i: usize = 0;
    while i < s.len()
        invariant
            i <= s.len(),
            out@ =~= lower_seq(s@).take(i as int),
        decreases s.len() - i,
    {
        let b = s[i];
        if 65 <= b && b <= 90 {
            out.push(b + 32);
        } else {
            out.push(b);
        }
        assert(out@ =~= lower_seq(s@).take(i + 1));
        i = i + 1;
    }
    assert(lower_seq(s@).take(s@.len() as int) =~= lower_seq(s@));
    out
}

/// Byte-vector equality, decided byte by byte.
pub fn bytes_eq(a: &Vec<u8>, b: &Vec<u8>) -> (r: bool)
    ensures
        r == (a@ == b@),
{
    if a.len() != b.len() {
        assert(a@.len() != b@.len());
        return false;
    }
    let mut i: usize = 0;
    while i < a.len()
        invariant
            i <= a.len(),
            a.len() == b.len(),
            forall|j: int| 0 <= j < i ==> a@[j] == b@[j],
        decreases a.len() - i,
    {
        if a[i] != b[i] {
            return false;
        }
        i = i + 1;
    }
    assert(a@ =~= b@);
    true
}

/// Copy a byte vector.
pub fn copy_bytes(src: &Vec<u8>) -> (r: Vec<u8>)
    ensures
        r@ == src@,
{
    let mut out: Vec<u8> = Vec::new();
    let mut i: usize = 0;
    while i < src.len()
        invariant
            i <= src.len(),
            out@ =~= src@.take(i as int),
        decreases src.len() - i,
    {
        out.push(src[i]);
        assert(out@ =~= src@.take(i + 1));
        i = i + 1;
    }
    assert(src@.take(src@.len() as int) =~= src@);
    out
}

/// Append the decimal rendering of `n` to `out`.
pub fn push_decimal(out: &mut Vec<u8>, n: u64)
    ensures
        final(out)@ == old(out)@ + dec_digits(n as nat),
    decreases n,
{
    if n < 10 {
        out.push((n as u8) + 48);
        assert(out@ =~= old(out)@ + dec_digits(n as nat));
    } else {
        push_decimal(out, n / 10);
        out.push(((n % 10) as u8) + 48);
        assert(out@ =~= old(out)@ + dec_digits(n as nat));
    }
}

/// Parse a whole byte vector as an unsigned decimal integer. Returns
/// `Some` exactly when the vector is non-empty, all digits, and the value
/// fits in a `u64`.
pub fn parse_u64(s: &Vec<u8>) -> (r: Option<u64>)
    ensures
        match r {
            Some(v) => s@.len() > 0 && (forall|i: int| 0 <= i < s@.len() ==> is_digit(s@[i]))
                && v as nat == dec_val(s@),
            None => s@.len() == 0 || (exists|i: int| 0 <= i < s@.len() && !is_digit(s@[i]))
                || dec_val(s@) > u64::MAX,
        },
{
    if s.len() == 0 {
        return None;
    }
    let mut acc: u64 = 0;
    let mut i: usize = 0;
    let mut overflow: bool = false;
    while i < s.len()
        invariant
            i <= s.len(),
            forall|j: int| 0 <= j < i ==> is_digit(s@[j]),
            !overflow ==> acc as nat == dec_val(s@.take(i as int)),
            overflow ==> dec_val(s@.take(i as int)) > u64::MAX,
        decreases s.len() - i,
    {
        let b = s[i];
        if b < 48 || b > 57 {
            return None;
        }
        let d = b - 48;
        proof {
            assert(s@.take(i + 1) =~= s@.take(i as int).push(s@[i as int]));
            lemma_dec_val_push(s@.take(i as int), s@[i as int]);
        }
        if overflow {
            proof {
                lemma_dec_val_monotone(s@.take(i as int), s@[i as int]);
            }
        } else if acc > (u64::MAX - (d as u64)) / 10 {
            proof {
                assert(dec_val(s@.take(i + 1)) == acc as nat * 10 + d);
                assert(acc as nat * 10 + d > u64::MAX) by (nonlinear_arith)
                    requires
                        acc > (u64::MAX - (d as u64)) / 10,
                        d < 10,
                ;
            }
            overflow = true;
        } else {
            proof {
                assert(acc as nat * 10 + d <= u64::MAX) by (nonlinear_arith)
                    requires
                        acc <= (u64::MAX - (d as u64)) / 10,
                        d < 10,
                ;
            }
            acc = acc * 10 + (d as u64);
        }
        i = i + 1;
    }
    proof {
        assert(s@.take(s@.len() as int) =~= s@);
    }
    if overflow {
        None
    } else {
        Some(acc)
    }
}

} // verus!
