//! The Internet checksum: the ones' complement of the ones' complement sum
//! of the 16-bit words of the data.

use crate::endian::{be16, load_u16};
use vstd::prelude::*;

verus! {

/// The sum of the big-endian 16-bit words of `bytes`. A last byte without a
/// partner counts as the high byte of a word.
pub open spec fn word_sum(bytes: Seq<u8>) -> nat
    decreases bytes.len(),
{
    if bytes.len() == 0 {
        0
    } else if bytes.len() == 1 {
        bytes[0] as nat * 256
    } else {
        be16(bytes[0], bytes[1]) as nat + word_sum(bytes.skip(2))
    }
}

/// A sum brought into 16 bits by adding what it carries beyond them back in
/// at the low end: zero stays zero, and any other multiple of 65535 becomes
/// 65535.
pub open spec fn folded(sum: nat) -> nat {
    if sum == 0 {
        0
    } else {
        ((sum - 1) % 65535 + 1) as nat
    }
}

/// The checksum that goes with a sum of words: the complement of the folded
/// sum, with all ones in place of zero.
pub open spec fn complement(sum: nat) -> u16 {
    if folded(sum) == 0 || folded(sum) == 65535 {
        0xffff
    } else {
        (65535 - folded(sum)) as u16
    }
}

/// Folding is not changed by folding a part of the sum first.
pub proof fn lemma_folded_part(part: nat, rest: nat)
    ensures
        folded(folded(part) + rest) == folded(part + rest),
        folded(part) <= 65535,
{
    if part != 0 {
        let q = (part - 1) / 65535;
        let r = (part - 1) % 65535;
        assert(part - 1 == 65535 * q + r) by {
            vstd::arithmetic::div_mod::lemma_fundamental_div_mod(part - 1, 65535);
        }
        assert((r + rest) % 65535 == (part - 1 + rest) % 65535) by {
            vstd::arithmetic::div_mod::lemma_mod_multiples_vanish(q, r + rest, 65535);
        }
    }
}

/// Adds one word to a folded sum and folds again.
pub fn carry(sum: u32, word: u16) -> (next: u32)
    requires
        sum <= 0xffff,
    ensures
        next == folded(sum as nat + word as nat),
{
    let mut next: u32 = sum + word as u32;
    if next > 0xffff {
        next = next - 0xffff;
    }
    next
}

/// Adds the words of `bytes` to a folded sum.
pub fn accumulate(sum: u32, bytes: &[u8]) -> (next: u32)
    requires
        sum <= 0xffff,
    ensures
        next == folded(sum as nat + word_sum(bytes@)),
        next <= 0xffff,
{
    let total: usize = bytes.len();
    let mut next: u32 = sum;
    let mut i: usize = 0;
    assert(bytes@.skip(0) =~= bytes@);
    while total - i >= 2
        invariant
            i <= total,
            total == bytes@.len(),
            next <= 0xffff,
            folded(sum as nat + word_sum(bytes@)) == folded(
                next as nat + word_sum(bytes@.skip(i as int)),
            ),
        decreases total - i,
    {
        let word: u16 = load_u16(bytes, i);
        proof {
            let rest = bytes@.skip(i as int);
            assert(rest.skip(2) =~= bytes@.skip(i + 2));
            assert(word == be16(rest[0], rest[1]));
            lemma_folded_part(next as nat + word as nat, word_sum(rest.skip(2)));
        }
        next = carry(next, word);
        i = i + 2;
    }
    if i < total {
        let word: u16 = (bytes[i] as u16) * 256;
        proof {
            let rest = bytes@.skip(i as int);
            assert(rest.len() == 1);
            assert(word_sum(rest) == word);
        }
        next = carry(next, word);
    } else {
        proof {
            assert(bytes@.skip(i as int).len() == 0);
            lemma_folded_part(next as nat, 0);
        }
    }
    next
}

/// The checksum that goes with a folded sum.
pub fn finish(sum: u32) -> (checksum: u16)
    requires
        sum <= 0xffff,
    ensures
        forall|total: nat| folded(total) == sum ==> checksum == #[trigger] complement(total),
{
    if sum == 0 || sum == 0xffff {
        0xffff
    } else {
        (0xffff - sum) as u16
    }
}

} // verus!
