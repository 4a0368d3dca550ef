//! Big-endian numbers and byte strings.

use vstd::arithmetic::power::pow;
use vstd::prelude::*;

verus! {

/// The eight bytes of `n`, the most significant first.
pub open spec fn be_bytes(n: u64) -> Seq<u8> {
    seq![
        ((n / 0x100_0000_0000_0000) % 256) as u8,
        ((n / 0x1_0000_0000_0000) % 256) as u8,
        ((n / 0x100_0000_0000) % 256) as u8,
        ((n / 0x1_0000_0000) % 256) as u8,
        ((n / 0x100_0000) % 256) as u8,
        ((n / 0x1_0000) % 256) as u8,
        ((n / 0x100) % 256) as u8,
        (n % 256) as u8,
    ]
}

/// The number whose bytes, the most significant first, are `s`.
pub open spec fn be_value(s: Seq<u8>) -> nat
    decreases s.len(),
{
    if s.len() == 0 {
        0
    } else {
        be_value(s.drop_last()) * 256 + s.last() as nat
    }
}

proof fn lemma_be_value_bound(s: Seq<u8>)
    ensures
        be_value(s) < pow(256, s.len()),
    decreases s.len(),
{
    reveal(pow);
    if s.len() > 0 {
        lemma_be_value_bound(s.drop_last());
        assert(pow(256, s.len()) == 256 * pow(256, (s.len() - 1) as nat));
    }
}

proof fn lemma_be_value_small(s: Seq<u8>)
    requires
        s.len() <= 16,
    ensures
        be_value(s) <= u128::MAX,
{
    lemma_be_value_bound(s);
    reveal_with_fuel(pow, 17);
    assert(pow(256, 16) == 0x1_0000_0000_0000_0000_0000_0000_0000_0000);
    vstd::arithmetic::power::lemma_pow_increases(256, s.len(), 16);
}

/// The eight bytes of `n`, the most significant first.
pub fn to_be_bytes(n: u64) -> (bytes: Vec<u8>)
    ensures
        bytes@ == be_bytes(n),
{
    let mut bytes: Vec<u8> = Vec::new();
    bytes.push(((n / 0x100_0000_0000_0000) % 256) as u8);
    bytes.push(((n / 0x1_0000_0000_0000) % 256) as u8);
    bytes.push(((n / 0x100_0000_0000) % 256) as u8);
    bytes.push(((n / 0x1_0000_0000) % 256) as u8);
    bytes.push(((n / 0x100_0000) % 256) as u8);
    bytes.push(((n / 0x1_0000) % 256) as u8);
    bytes.push(((n / 0x100) % 256) as u8);
    bytes.push((n % 256) as u8);
    assert(bytes@ =~= be_bytes(n));
    bytes
}

/// The number in the first sixteen bytes, the most significant first.
pub fn be_prefix(bytes: &Vec<u8>) -> (n: u128)
    requires
        bytes@.len() >= 16,
    ensures
        n == be_value(bytes@.take(16)),
{
    let mut n: u128 = 0;
    let mut i: usize = 0;
    while i < 16
        invariant
            i <= 16 <= bytes@.len(),
            n == be_value(bytes@.take(i as int)),
        decreases 16 - i,
    {
        assert(bytes@.take(i + 1).drop_last() =~= bytes@.take(i as int));
        proof {
            lemma_be_value_small(bytes@.take(i + 1));
        }
        n = n * 256 + bytes[i] as u128;
        i = i + 1;
    }
    n
}

/// `head` with `tail` behind it.
pub fn joined(head: &Vec<u8>, tail: &[u8]) -> (whole: Vec<u8>)
    ensures
        whole@ == head@ + tail@,
{
    let mut whole: Vec<u8> = head.clone();
    assert(whole@ =~= head@);
    whole.extend_from_slice(tail);
    assert(whole@ =~= head@ + tail@);
    whole
}

/// A copy of the bytes.
pub fn copied(bytes: &Vec<u8>) -> (copy: Vec<u8>)
    ensures
        copy@ == bytes@,
{
    let copy: Vec<u8> = bytes.clone();
    assert(copy@ =~= bytes@);
    copy
}

/// Whether two byte strings are the same.
pub fn same_bytes(a: &Vec<u8>, b: &Vec<u8>) -> (same: bool)
    ensures
        same == (a@ == b@),
{
    if a.len() != b.len() {
        return false;
    }
    let mut i: usize = 0;
    while i < a.len()
        invariant
            a@.len() == b@.len(),
            i <= a@.len(),
            forall|j: int| 0 <= j < i ==> a@[j] == b@[j],
        decreases a@.len() - i,
    {
        if a[i] != b[i] {
            return false;
        }
        i = i + 1;
    }
    assert(a@ =~= b@);
    true
}

} // verus!
