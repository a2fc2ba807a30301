//! Fixed-width base-62 digit encoding, and big-endian byte-array values.
//!
//! An unsigned value is rendered as exactly `width` digits in the 62-symbol
//! alphabet `0-9A-Za-z`, most significant digit first, left-padded with the
//! zero symbol and silently truncated (modulo `62^width`) when the value
//! needs more digits than `width` allows.

use vstd::prelude::*;

verus! {

use vstd::arithmetic::mul::lemma_mul_inequality;

/// The symbol that stands for digit value `d`: `0`-`9`, then `A`-`Z`,
/// then `a`-`z` (ASCII 48..=57, 65..=90, 97..=122).
pub open spec fn spec_digit(d: int) -> u8 {
    if d < 10 {
        (48 + d) as u8
    } else if d < 36 {
        (55 + d) as u8
    } else {
        (61 + d) as u8
    }
}

/// Base-62 digits of `v`, most significant first, exactly `w` symbols,
/// keeping only the low-order `w` digits of `v`.
pub open spec fn spec_encode(v: nat, w: nat) -> Seq<u8>
    decreases w,
{
    if w == 0 {
        Seq::empty()
    } else {
        spec_encode(v / 62, (w - 1) as nat).push(spec_digit((v % 62) as int))
    }
}

/// The unsigned value of a byte sequence read most-significant byte first.
pub open spec fn be_val(s: Seq<u8>) -> nat
    decreases s.len(),
{
    if s.len() == 0 {
        0
    } else {
        be_val(s.drop_last()) * 256 + s.last() as nat
    }
}

/// `256^n`, the number of values a big-endian sequence of `n` bytes can take.
pub open spec fn pow256(n: nat) -> nat
    decreases n,
{
    if n == 0 {
        1
    } else {
        256 * pow256((n - 1) as nat)
    }
}

pub proof fn lemma_pow256_values()
    ensures
        pow256(8) == 0x1_0000_0000_0000_0000,
        pow256(16) == 0x1_0000_0000_0000_0000_0000_0000_0000_0000,
{
    assert(pow256(0) == 1);
    assert(pow256(1) == 256);
    assert(pow256(2) == 0x1_0000);
    assert(pow256(3) == 0x100_0000);
    assert(pow256(4) == 0x1_0000_0000);
    assert(pow256(5) == 0x100_0000_0000);
    assert(pow256(6) == 0x1_0000_0000_0000);
    assert(pow256(7) == 0x100_0000_0000_0000);
    assert(pow256(8) == 0x1_0000_0000_0000_0000);
    assert(pow256(9) == 0x100_0000_0000_0000_0000);
    assert(pow256(10) == 0x1_0000_0000_0000_0000_0000);
    assert(pow256(11) == 0x100_0000_0000_0000_0000_0000);
    assert(pow256(12) == 0x1_0000_0000_0000_0000_0000_0000);
    assert(pow256(13) == 0x100_0000_0000_0000_0000_0000_0000);
    assert(pow256(14) == 0x1_0000_0000_0000_0000_0000_0000_0000);
    assert(pow256(15) == 0x100_0000_0000_0000_0000_0000_0000_0000);
    assert(pow256(16) == 0x1_0000_0000_0000_0000_0000_0000_0000_0000);
}

/// The length of an encoding is its requested width.
pub proof fn lemma_spec_encode_len(v: nat, w: nat)
    ensures
        spec_encode(v, w).len() == w,
    decreases w,
{
    if w > 0 {
        lemma_spec_encode_len(v / 62, (w - 1) as nat);
    }
}

/// Every symbol of an encoding is a printable ASCII byte (and never zero).
pub proof fn lemma_spec_encode_ascii(v: nat, w: nat)
    ensures
        forall|i: int|
            0 <= i < spec_encode(v, w).len() ==> 48 <= #[trigger] spec_encode(v, w)[i] < 123,
    decreases w,
{
    if w > 0 {
        lemma_spec_encode_len(v / 62, (w - 1) as nat);
        lemma_spec_encode_ascii(v / 62, (w - 1) as nat);
        assert forall|i: int| 0 <= i < spec_encode(v, w).len() implies 48 <= #[trigger] spec_encode(
            v,
            w,
        )[i] < 123 by {
            if i < w - 1 {
                assert(spec_encode(v, w)[i] == spec_encode(v / 62, (w - 1) as nat)[i]);
            }
        }
    }
}

/// The symbol standing for digit `d`, executable form.
pub fn digit_symbol(d: u8) -> (r: u8)
    requires
        d < 62,
    ensures
        r == spec_digit(d as int),
{
    if d < 10 {
        48 + d
    } else if d < 36 {
        55 + d
    } else {
        61 + d
    }
}

/// The value denoted by 8 bytes read most-significant first.
pub fn be_value_u64(bytes: &[u8; 8]) -> (r: u64)
    ensures
        r as nat == be_val(bytes@),
{
    let mut acc: u64 = 0;
    let mut i: usize = 0;
    while i < 8
        invariant
            0 <= i <= 8,
            bytes@.len() == 8,
            acc as nat == be_val(bytes@.take(i as int)),
            (acc as nat) < pow256(i as nat),
        decreases 8 - i,
    {
        proof {
            let t = bytes@.take(i + 1);
            assert(t.drop_last() =~= bytes@.take(i as int));
            assert(be_val(t) == be_val(bytes@.take(i as int)) * 256 + bytes@[i as int]);
            lemma_pow256_values();
            lemma_pow256_le((i + 1) as nat, 8);
            assert(pow256((i + 1) as nat) == 256 * pow256(i as nat));
            lemma_mul_inequality(acc as int, pow256(i as nat) - 1, 256);
        }
        acc = acc * 256 + (bytes[i] as u64);
        i += 1;
    }
    proof {
        assert(bytes@.take(8) =~= bytes@);
    }
    acc
}

/// The value denoted by 16 bytes read most-significant first.
pub fn be_value_u128(bytes: &[u8; 16]) -> (r: u128)
    ensures
        r as nat == be_val(bytes@),
{
    let mut acc: u128 = 0;
    let mut i: usize = 0;
    while i < 16
        invariant
            0 <= i <= 16,
            bytes@.len() == 16,
            acc as nat == be_val(bytes@.take(i as int)),
            (acc as nat) < pow256(i as nat),
        decreases 16 - i,
    {
        proof {
            let t = bytes@.take(i + 1);
            assert(t.drop_last() =~= bytes@.take(i as int));
            assert(be_val(t) == be_val(bytes@.take(i as int)) * 256 + bytes@[i as int]);
            lemma_pow256_values();
            lemma_pow256_le((i + 1) as nat, 16);
            assert(pow256((i + 1) as nat) == 256 * pow256(i as nat));
            lemma_mul_inequality(acc as int, pow256(i as nat) - 1, 256);
        }
        acc = acc * 256 + (bytes[i] as u128);
        i += 1;
    }
    proof {
        assert(bytes@.take(16) =~= bytes@);
    }
    acc
}

/// `pow256` grows with its argument.
pub proof fn lemma_pow256_le(m: nat, n: nat)
    requires
        m <= n,
    ensures
        pow256(m) <= pow256(n),
    decreases n,
{
    if m < n {
        lemma_pow256_le(m, (n - 1) as nat);
        lemma_mul_inequality(1, 256, pow256((n - 1) as nat) as int);
    }
}

/// Prepending a byte raises it to the most significant position.
pub proof fn lemma_be_val_cons(b: u8, s: Seq<u8>)
    ensures
        be_val(seq![b] + s) == (b as nat) * pow256(s.len()) + be_val(s),
    decreases s.len(),
{
    if s.len() == 0 {
        assert(seq![b] + s =~= seq![b]);
        assert((seq![b]).drop_last() =~= Seq::<u8>::empty());
        assert(be_val(Seq::<u8>::empty()) == 0);
        assert(be_val(seq![b]) == b as nat);
        assert(pow256(0) == 1);
        vstd::arithmetic::mul::lemma_mul_basics(b as int);
        assert((b as nat) * pow256(s.len()) == b as nat);
    } else {
        let t = seq![b] + s;
        assert(t.drop_last() =~= seq![b] + s.drop_last());
        assert(t.last() == s.last());
        lemma_be_val_cons(b, s.drop_last());
        let p = pow256(s.drop_last().len());
        assert(pow256(s.len()) == 256 * p);
        assert((((b as nat) * p) + be_val(s.drop_last())) * 256 == ((b as nat) * p) * 256 + be_val(
            s.drop_last(),
        ) * 256);
        vstd::arithmetic::mul::lemma_mul_is_associative(b as int, p as int, 256);
        assert(((b as nat) * p) * 256 == (b as nat) * (256 * p));
        assert(be_val(t) == be_val(t.drop_last()) * 256 + t.last() as nat);
        assert(be_val(t.drop_last()) == ((b as nat) * p) + be_val(s.drop_last()));
        assert((((b as nat) * p) + be_val(s.drop_last())) * 256 + s.last() as nat == (b as nat) * (
        256 * p) + (be_val(s.drop_last()) * 256 + s.last() as nat));
        assert(be_val(s) == be_val(s.drop_last()) * 256 + s.last() as nat);
        assert(be_val(seq![b] + s) == (b as nat) * pow256(s.len()) + be_val(s));
    }
}

/// The 8 bytes that denote `v` most-significant first.
pub fn u64_to_be_bytes(v: u64) -> (r: [u8; 8])
    ensures
        be_val(r@) == v as nat,
{
    let mut arr = [0u8; 8];
    let mut x: u64 = v;
    let mut j: usize = 8;
    proof {
        lemma_pow256_values();
        assert(arr@.skip(8) =~= Seq::<u8>::empty());
        assert(be_val(Seq::<u8>::empty()) == 0);
        assert(pow256(0) == 1);
        vstd::arithmetic::mul::lemma_mul_basics(v as int);
        assert((v as nat) * pow256((8 - 8) as nat) == v as nat);
    }
    while j > 0
        invariant
            j <= 8,
            arr@.len() == 8,
            (x as nat) * pow256((8 - j) as nat) + be_val(arr@.skip(j as int)) == v as nat,
            (x as nat) < pow256(j as nat),
        decreases j,
    {
        let ghost old_arr = arr@;
        let ghost x0 = x as nat;
        let ghost j0 = j as int;
        j -= 1;
        let d: u8 = (x % 256) as u8;
        arr[j] = d;
        x = x / 256;
        proof {
            let w = (8 - j0) as nat;  // length of the already-written tail
            let p = pow256(w);
            assert(arr@.skip(j as int) =~= seq![d] + old_arr.skip(j0));
            lemma_be_val_cons(d, old_arr.skip(j0));
            assert(old_arr.skip(j0).len() == w);
            assert(x0 == 256 * (x as nat) + d as nat);
            assert(pow256((w + 1) as nat) == 256 * p);
            vstd::arithmetic::mul::lemma_mul_is_associative(x as int, 256, p as int);
            assert((x as nat) * (256 * p) == ((x as nat) * 256) * p);
            vstd::arithmetic::mul::lemma_mul_is_distributive_add_other_way(
                p as int,
                ((x as nat) * 256) as int,
                d as int,
            );
            assert(((x as nat) * 256 + d as nat) * p == (x as nat) * 256 * p + ((d as nat) * p));
            assert((x as nat) * pow256((8 - j) as nat) + be_val(arr@.skip(j as int)) == v as nat);
            assert(256 * (x as nat) <= x0);
            assert(x0 < pow256(j0 as nat));
            assert(pow256(j0 as nat) == 256 * pow256(j as nat));
            assert((x as nat) < pow256(j as nat));
        }
    }
    proof {
        assert(x == 0);
        assert(arr@.skip(0) =~= arr@);
    }
    arr
}

/// Appends the fixed-width base-62 encoding of `value` to `out`.
pub fn encode_fixed_width(value: u128, width: usize, out: &mut Vec<u8>)
    requires
        old(out)@.len() + width <= usize::MAX,
    ensures
        final(out)@ == old(out)@ + spec_encode(value as nat, width as nat),
{
    let mut digits: Vec<u8> = Vec::new();
    let mut i: usize = 0;
    while i < width
        invariant
            digits@.len() == i,
            i <= width,
        decreases width - i,
    {
        digits.push(0u8);
        i += 1;
    }
    let mut v: u128 = value;
    let mut j: usize = width;
    while j > 0
        invariant
            j <= width,
            digits@.len() == width,
            spec_encode(v as nat, j as nat) + digits@.skip(j as int) == spec_encode(
                value as nat,
                width as nat,
            ),
        decreases j,
    {
        let ghost old_digits = digits@;
        let ghost v0 = v as nat;
        j -= 1;
        let d: u8 = (v % 62) as u8;
        let sym = digit_symbol(d);
        digits[j] = sym;
        v = v / 62;
        proof {
            assert(spec_encode(v0, (j + 1) as nat) == spec_encode(v0 / 62, j as nat).push(
                spec_digit((v0 % 62) as int),
            ));
            assert(digits@.skip(j as int) =~= seq![sym].add(old_digits.skip(j + 1)));
            assert(spec_encode(v0 / 62, j as nat) + digits@.skip(j as int) =~= spec_encode(
                v0,
                (j + 1) as nat,
            ) + old_digits.skip(j + 1));
        }
    }
    proof {
        assert(digits@.skip(0) =~= digits@);
        assert(digits@ == spec_encode(value as nat, width as nat));
    }
    let mut k: usize = 0;
    while k < width
        invariant
            k <= width,
            digits@.len() == width,
            out@.len() == old(out)@.len() + k,
            out@ == old(out)@ + digits@.take(k as int),
            old(out)@.len() + width <= usize::MAX,
        decreases width - k,
    {
        out.push(digits[k]);
        proof {
            assert(out@ =~= old(out)@ + digits@.take(k + 1));
        }
        k += 1;
    }
    proof {
        assert(digits@.take(width as int) =~= digits@);
    }
}

/// `62^n`: the number of values `n` base-62 digits can distinguish.
pub open spec fn pow62(n: nat) -> nat
    decreases n,
{
    if n == 0 {
        1
    } else {
        62 * pow62((n - 1) as nat)
    }
}

/// The digit symbols are ordered as the digit values are: the alphabet
/// runs through strictly increasing ASCII codes.
pub proof fn lemma_digit_order(d1: int, d2: int)
    requires
        0 <= d1 < d2 < 62,
    ensures
        spec_digit(d1) < spec_digit(d2),
{
}

/// `62^n` is positive.
pub proof fn lemma_pow62_pos(n: nat)
    ensures
        pow62(n) >= 1,
    decreases n,
{
    if n > 0 {
        lemma_pow62_pos((n - 1) as nat);
    }
}

/// The truncation policy, exactly: a value too wide for `w` digits wraps
/// around, keeping only its low-order `w` digits; encoding is modular at
/// the output width.
pub proof fn lemma_encode_truncates(v: nat, w: nat)
    ensures
        spec_encode(v, w) == spec_encode(v % pow62(w), w),
    decreases w,
{
    if w > 0 {
        let p = pow62((w - 1) as nat);
        lemma_pow62_pos((w - 1) as nat);
        assert(pow62(w) == 62 * p);
        let m = v % pow62(w);
        vstd::arithmetic::div_mod::lemma_mod_breakdown(v as int, 62, p as int);
        assert(m == 62 * ((v as int / 62) % p as int) + v as int % 62);
        vstd::arithmetic::div_mod::lemma_fundamental_div_mod_converse(
            m as int,
            62,
            (v as int / 62) % p as int,
            v as int % 62,
        );
        assert(m % 62 == v % 62);
        assert(m / 62 == (v / 62) % p);
        lemma_encode_truncates(v / 62, (w - 1) as nat);
        assert(spec_encode(m, w) == spec_encode(m / 62, (w - 1) as nat).push(
            spec_digit((m % 62) as int),
        ));
    }
}

} // verus!
