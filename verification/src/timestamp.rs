//! The alternate, allocation-based digit codec: an unsigned value rendered
//! in an arbitrary alphabet, without padding and without a fixed width.

use vstd::prelude::*;

verus! {

use vstd::arithmetic::div_mod::lemma_div_is_strictly_smaller;

/// The natural (unpadded) digit string of `v` in `alphabet`, most
/// significant digit first; zero renders as the empty string.
pub open spec fn spec_u64_to_string(v: nat, alphabet: Seq<char>) -> Seq<char>
    decreases v,
    when alphabet.len() >= 2
    via spec_u64_to_string_decreases
{
    if v == 0 {
        Seq::empty()
    } else {
        spec_u64_to_string(v / alphabet.len(), alphabet).push(
            alphabet[(v % alphabet.len()) as int],
        )
    }
}

#[via_fn]
proof fn spec_u64_to_string_decreases(v: nat, alphabet: Seq<char>) {
    if v > 0 {
        lemma_div_is_strictly_smaller(v as int, alphabet.len() as int);
    }
}

/// Renders `value` in the given alphabet, most significant digit first,
/// with no padding: zero gives the empty string. The alphabet must hold at
/// least two symbols: with none the digit lookup has nothing to give, and
/// with one the value never shrinks.
pub fn u64_to_string(value: u64, alphabet: &[char]) -> (r: String)
    requires
        alphabet@.len() >= 2,
    ensures
        r@ == spec_u64_to_string(value as nat, alphabet@),
{
    let ghost total: nat = value as nat;
    let mut v: u64 = value;
    let mut digits: Vec<char> = Vec::new();
    while v > 0
        invariant
            alphabet@.len() >= 2,
            spec_u64_to_string(v as nat, alphabet@) + digits@.reverse() == spec_u64_to_string(
                total,
                alphabet@,
            ),
        decreases v,
    {
        let ghost digits0 = digits@;
        let ghost v0 = v as nat;
        let remainder = v % (alphabet.len() as u64);
        digits.push(alphabet[remainder as usize]);
        v = v / (alphabet.len() as u64);
        proof {
            let c = alphabet@[remainder as int];
            assert(digits@.reverse() =~= seq![c] + digits0.reverse());
            assert(spec_u64_to_string(v0, alphabet@) == spec_u64_to_string(v as nat, alphabet@)
                .push(c));
            assert(spec_u64_to_string(v as nat, alphabet@).push(c) + digits0.reverse()
                =~= spec_u64_to_string(v as nat, alphabet@) + (seq![c] + digits0.reverse()));
            lemma_div_is_strictly_smaller(v0 as int, alphabet@.len() as int);
        }
    }
    proof {
        assert(Seq::<char>::empty() + digits@.reverse() =~= digits@.reverse());
    }
    let mut out: Vec<char> = Vec::new();
    let mut k: usize = 0;
    while k < digits.len()
        invariant
            k <= digits@.len(),
            out@ == digits@.reverse().take(k as int),
        decreases digits@.len() - k,
    {
        out.push(digits[digits.len() - 1 - k]);
        proof {
            assert(out@ =~= digits@.reverse().take(k + 1));
        }
        k += 1;
    }
    proof {
        assert(digits@.reverse().take(digits@.len() as int) =~= digits@.reverse());
    }
    crate::text::string_of_chars(out)
}

} // verus!
