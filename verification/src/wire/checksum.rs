//! The Internet checksum: sums of 16-bit words in ones' complement arithmetic.
use crate::wire::ip::{be_octets, IpAddress, IpProtocol};
use vstd::prelude::*;

verus! {

/// The sum of the big-endian 16-bit words of `octets`; a last odd octet is padded with zero.
pub open spec fn word_sum(octets: Seq<u8>) -> nat
    decreases octets.len(),
{
    if octets.len() == 0 {
        0
    } else if octets.len() == 1 {
        (octets[0] * 256) as nat
    } else {
        (octets[0] * 256 + octets[1]) as nat + word_sum(octets.skip(2))
    }
}

/// The ones' complement value of a sum of words: the sum modulo 65535, where a sum other than
/// zero never yields zero.
pub open spec fn fold(sum: nat) -> u16 {
    if sum == 0 {
        0
    } else {
        ((sum - 1) % 65535 + 1) as u16
    }
}

/// The sum of partial checksums.
pub open spec fn total(checksums: Seq<u16>) -> nat
    decreases checksums.len(),
{
    if checksums.len() == 0 {
        0
    } else {
        total(checksums.drop_last()) + checksums.last() as nat
    }
}

/// The octets of the pseudo header behind the two addresses: protocol number and length.
pub open spec fn protocol_and_length(version4: bool, next_header: IpProtocol, length: u32) -> Seq<
    u8,
> {
    if version4 {
        seq![0u8, next_header.spec_number()] + be_octets((length % 0x1_0000) as nat, 2)
    } else {
        seq![0u8, 0u8, 0u8, next_header.spec_number()] + be_octets(length as nat, 4)
    }
}

/// The partial checksum of the pseudo header of a transport packet.
pub open spec fn spec_pseudo_header(
    src_addr: IpAddress,
    dst_addr: IpAddress,
    next_header: IpProtocol,
    length: u32,
) -> u16 {
    fold(
        (fold(word_sum(src_addr.spec_octets())) + fold(word_sum(dst_addr.spec_octets())) + fold(
            word_sum(protocol_and_length(src_addr is Ipv4, next_header, length)),
        )) as nat,
    )
}

/// A sum of words is bounded by the number of words.
pub proof fn lemma_word_sum_bound(octets: Seq<u8>)
    ensures
        word_sum(octets) <= 0x8000 * (octets.len() + 1),
    decreases octets.len(),
{
    if octets.len() >= 2 {
        lemma_word_sum_bound(octets.skip(2));
    }
}

/// Adds the carries of a sum of words back in.
fn propagate_carries(word: u32) -> (r: u16)
    ensures
        r == fold(word as nat),
{
    let once: u32 = word / 0x1_0000 + word % 0x1_0000;
    let twice: u32 = once / 0x1_0000 + once % 0x1_0000;
    proof {
        let w = word as int;
        let h1 = w / 0x1_0000;
        let h2 = once as int / 0x1_0000;
        assert(w == twice as int + 65535 * (h1 + h2));
        if w > 0 {
            assert((w - 1) % 65535 == (twice as int - 1) % 65535) by {
                vstd::arithmetic::div_mod::lemma_mod_multiples_vanish(
                    h1 + h2,
                    twice as int - 1,
                    65535,
                );
            }
            assert(0 < twice <= 65535);
        }
    }
    twice as u16
}

/// The partial checksum of some octets.
pub fn data(octets: &[u8]) -> (r: u16)
    requires
        word_sum(octets@) <= u32::MAX,
    ensures
        r == fold(word_sum(octets@)),
{
    let mut sum: u32 = 0;
    let mut at: usize = 0;
    assert(octets@.skip(0) =~= octets@);
    while octets.len() - at >= 2
        invariant
            at <= octets@.len(),
            sum + word_sum(octets@.skip(at as int)) == word_sum(octets@),
            word_sum(octets@) <= u32::MAX,
        decreases octets@.len() - at,
    {
        assert(octets@.skip(at as int).skip(2) =~= octets@.skip(at + 2));
        sum = sum + (octets[at] as u32 * 256 + octets[at + 1] as u32);
        at = at + 2;
    }
    if at < octets.len() {
        sum = sum + octets[at] as u32 * 256;
    }
    propagate_carries(sum)
}

/// Combines partial checksums into one.
pub fn combine(checksums: &[u16]) -> (r: u16)
    requires
        checksums@.len() <= 0x1_0000,
    ensures
        r == fold(total(checksums@)),
{
    let mut sum: u32 = 0;
    let mut at: usize = 0;
    while at < checksums.len()
        invariant
            at <= checksums@.len() <= 0x1_0000,
            sum == total(checksums@.take(at as int)),
            sum <= 0xffff * at,
        decreases checksums@.len() - at,
    {
        assert(checksums@.take(at + 1).drop_last() =~= checksums@.take(at as int));
        sum = sum + checksums[at] as u32;
        at = at + 1;
    }
    assert(checksums@.take(at as int) =~= checksums@);
    propagate_carries(sum)
}

/// The partial checksum of the pseudo header of a transport packet, whose addresses must be of
/// one version.
pub fn pseudo_header(
    src_addr: &IpAddress,
    dst_addr: &IpAddress,
    next_header: IpProtocol,
    length: u32,
) -> (r: u16)
    requires
        src_addr.spec_version() == dst_addr.spec_version(),
    ensures
        r == spec_pseudo_header(*src_addr, *dst_addr, next_header, length),
{
    let (src, dst): (Vec<u8>, Vec<u8>) = match (src_addr, dst_addr) {
        (IpAddress::Ipv4(src), IpAddress::Ipv4(dst)) => (src.octets(), dst.octets()),
        (IpAddress::Ipv6(src), IpAddress::Ipv6(dst)) => (src.octets(), dst.octets()),
        _ => vstd::pervasive::unreached(),
    };
    let rest: Vec<u8> = match src_addr {
        IpAddress::Ipv4(_) => {
            vec![
                0,
                next_header.number(),
                ((length / 0x100) % 0x100) as u8,
                (length % 0x100) as u8,
            ]
        },
        IpAddress::Ipv6(_) => {
            vec![
                0,
                0,
                0,
                next_header.number(),
                (length / 0x100_0000) as u8,
                ((length / 0x1_0000) % 0x100) as u8,
                ((length / 0x100) % 0x100) as u8,
                (length % 0x100) as u8,
            ]
        },
    };
    proof {
        reveal_with_fuel(be_octets, 5);
        assert(rest@ =~= protocol_and_length(*src_addr is Ipv4, next_header, length));
        lemma_word_sum_bound(src@);
        lemma_word_sum_bound(dst@);
        lemma_word_sum_bound(rest@);
    }
    let parts: [u16; 3] = [data(src.as_slice()), data(dst.as_slice()), data(rest.as_slice())];
    proof {
        lemma_total_3(parts@);
    }
    combine(&parts)
}

/// The sum of three partial checksums.
proof fn lemma_total_3(checksums: Seq<u16>)
    requires
        checksums.len() == 3,
    ensures
        total(checksums) == checksums[0] + checksums[1] + checksums[2],
{
    reveal_with_fuel(total, 4);
}

/// The sum of two partial checksums.
pub proof fn lemma_total_2(checksums: Seq<u16>)
    requires
        checksums.len() == 2,
    ensures
        total(checksums) == checksums[0] + checksums[1],
{
    reveal_with_fuel(total, 3);
}

/// Replacing the word at an even offset changes the sum by the difference of the words.
pub proof fn lemma_word_sum_put(octets: Seq<u8>, at: int, high: u8, low: u8)
    requires
        0 <= at,
        at % 2 == 0,
        at + 2 <= octets.len(),
    ensures
        word_sum(octets.update(at, high).update(at + 1, low)) + (octets[at] * 256
            + octets[at + 1]) == word_sum(octets) + (high * 256 + low),
    decreases at,
{
    let changed = octets.update(at, high).update(at + 1, low);
    if at == 0 {
        assert(changed.skip(2) =~= octets.skip(2));
    } else {
        let rest = octets.skip(2);
        lemma_word_sum_put(rest, at - 2, high, low);
        assert(changed.skip(2) =~= rest.update(at - 2, high).update(at - 1, low));
    }
}

/// Folding keeps a sum modulo 65535, and keeps it from becoming zero.
pub proof fn lemma_fold(sum: nat)
    ensures
        fold(sum) as int % 65535 == sum as int % 65535,
        fold(sum) == 0 <==> sum == 0,
{
    if sum > 0 {
        let rest = (sum - 1) % 65535;
        assert(sum - 1 == 65535 * ((sum - 1) / 65535) + rest);
        vstd::arithmetic::div_mod::lemma_mod_multiples_vanish(
            (sum - 1) / 65535,
            rest + 1,
            65535,
        );
    }
}

/// The checksum that is written for a sum: its complement, and never zero.
pub open spec fn complement(sum: u16) -> u16 {
    if sum == 0xffff {
        0xffff
    } else {
        (0xffff - sum) as u16
    }
}

/// Data that carries the complement of its own sum, taken together with that of its pseudo header,
/// adds up to all ones.
pub proof fn lemma_complement(header: u16, words: nat)
    ensures
        ({
            let checksum = complement(fold((header + fold(words)) as nat));
            fold((header + fold(words + checksum as nat)) as nat) == 0xffff
        }),
{
    let sum = (header + fold(words)) as nat;
    let checksum = complement(fold(sum));
    let whole = words + checksum as nat;
    let verified = (header + fold(whole)) as nat;
    lemma_fold(words);
    lemma_fold(sum);
    lemma_fold(whole);
    lemma_fold(verified);
    assert(checksum > 0);
    let d: int = 65535;
    vstd::arithmetic::div_mod::lemma_add_mod_noop(header as int, fold(words) as int, d);
    vstd::arithmetic::div_mod::lemma_add_mod_noop(header as int, words as int, d);
    vstd::arithmetic::div_mod::lemma_add_mod_noop(header as int, fold(whole) as int, d);
    vstd::arithmetic::div_mod::lemma_add_mod_noop(header as int, whole as int, d);
    assert(sum as int % d == (header + words) % d);
    assert(verified as int % d == (header + whole) % d);
    vstd::arithmetic::div_mod::lemma_add_mod_noop(header + words, checksum as int, d);
    vstd::arithmetic::div_mod::lemma_add_mod_noop(fold(sum) as int, checksum as int, d);
    assert((fold(sum) + checksum) % d == 0);
    assert((header + words + checksum) % d == 0);
    assert(verified as int % d == 0);
    assert(fold(verified) as int % d == 0);
    assert(fold(verified) != 0);
}

} // verus!
