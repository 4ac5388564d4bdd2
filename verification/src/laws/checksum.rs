//! Laws of the Internet checksum. Modulo 65535 a carry out of a 16-bit word counts as one, so that a
//! ones' complement sum is a sum modulo 65535.
use crate::wire::checksum;
use crate::wire::checksum::{fold, lemma_fold, spec_pseudo_header, word_sum};
use crate::wire::ip::{be_octets, lemma_be_octets_len, IpAddress, IpProtocol};
use vstd::arithmetic::div_mod::{lemma_add_mod_noop, lemma_mod_multiples_vanish};
use vstd::prelude::*;

verus! {

/// Padding octets of odd length with a zero leaves their sum as it was: a last odd octet is the more
/// significant half of a word.
pub proof fn odd_octet_is_padded_with_zero(octets: Seq<u8>)
    requires
        octets.len() % 2 == 1,
    ensures
        word_sum(octets.push(0)) == word_sum(octets),
    decreases octets.len(),
{
    let padded = octets.push(0);
    if octets.len() == 1 {
        assert(padded.skip(2) =~= Seq::<u8>::empty());
        assert(word_sum(padded.skip(2)) == 0);
    } else {
        assert(padded.skip(2) =~= octets.skip(2).push(0));
        odd_octet_is_padded_with_zero(octets.skip(2));
    }
}

/// The sum of two sequences, the first of even length, is that of both one behind the other.
pub proof fn sums_of_whole_words_add_up(first: Seq<u8>, second: Seq<u8>)
    requires
        first.len() % 2 == 0,
    ensures
        word_sum(first + second) == word_sum(first) + word_sum(second),
    decreases first.len(),
{
    if first.len() == 0 {
        assert(first + second =~= second);
    } else {
        assert((first + second).skip(2) =~= first.skip(2) + second);
        sums_of_whole_words_add_up(first.skip(2), second);
    }
}

/// Two octets are a word, the more significant one first, and no octets sum to zero.
pub proof fn two_octets_are_a_word(high: u8, low: u8)
    ensures
        word_sum(Seq::<u8>::empty()) == 0,
        word_sum(seq![high, low]) == high * 256 + low,
{
    let word = seq![high, low];
    assert(word.skip(2) =~= Seq::<u8>::empty());
    assert(word_sum(word.skip(2)) == 0);
}

/// The sum of the words of an even number of octets, one by one.
pub open spec fn summed(octets: Seq<u8>, words: nat) -> nat
    decreases words,
{
    if words == 0 {
        0
    } else {
        summed(octets, (words - 1) as nat) + (octets[2 * words - 2] * 256 + octets[2 * words
            - 1]) as nat
    }
}

/// An even number of octets sums to the sum of its words.
pub proof fn even_octets_sum_word_by_word(octets: Seq<u8>, words: nat)
    requires
        octets.len() == 2 * words,
    ensures
        word_sum(octets) == summed(octets, words),
    decreases words,
{
    if words > 0 {
        let front = octets.take(2 * words - 2);
        let last = octets.skip(2 * words - 2);
        assert(octets =~= front + last);
        sums_of_whole_words_add_up(front, last);
        assert(last =~= seq![octets[2 * words - 2], octets[2 * words - 1]]);
        two_octets_are_a_word(octets[2 * words - 2], octets[2 * words - 1]);
        even_octets_sum_word_by_word(front, (words - 1) as nat);
        lemma_summed(front, octets, (words - 1) as nat);
    } else {
        assert(octets =~= Seq::<u8>::empty());
    }
}

proof fn lemma_summed(first: Seq<u8>, second: Seq<u8>, words: nat)
    requires
        first.len() >= 2 * words,
        second.len() >= 2 * words,
        forall|i: int| 0 <= i < 2 * words ==> first[i] == second[i],
    ensures
        summed(first, words) == summed(second, words),
    decreases words,
{
    if words > 0 {
        lemma_summed(first, second, (words - 1) as nat);
    }
}

/// A sum is zero only where every octet is.
pub proof fn only_zeros_sum_to_zero(octets: Seq<u8>)
    ensures
        word_sum(octets) == 0 <==> forall|i: int| 0 <= i < octets.len() ==> #[trigger] octets[i]
            == 0,
    decreases octets.len(),
{
    if octets.len() == 1 {
        assert(word_sum(octets) == 0 ==> octets[0] == 0);
    } else if octets.len() >= 2 {
        let rest = octets.skip(2);
        only_zeros_sum_to_zero(rest);
        if forall|i: int| 0 <= i < octets.len() ==> #[trigger] octets[i] == 0 {
            assert forall|i: int| 0 <= i < rest.len() implies #[trigger] rest[i] == 0 by {
                assert(rest[i] == octets[i + 2]);
            }
        }
        if word_sum(octets) == 0 {
            assert forall|i: int| 0 <= i < octets.len() implies #[trigger] octets[i] == 0 by {
                if i >= 2 {
                    assert(rest[i - 2] == octets[i]);
                }
            }
        }
    }
}

/// The checksum of some octets is their sum modulo 65535, and zero only where every octet is.
pub proof fn checksum_of_data_is_its_sum(octets: &[u8], r: u16)
    requires
        call_ensures(checksum::data, (octets,), r),
    ensures
        r as int % 65535 == word_sum(octets@) as int % 65535,
        r == 0 <==> forall|i: int| 0 <= i < octets@.len() ==> #[trigger] octets@[i] == 0,
{
    lemma_fold(word_sum(octets@));
    only_zeros_sum_to_zero(octets@);
}

/// Two checksums combine to their sum modulo 65535, which is zero only where both are.
pub proof fn two_checksums_combine_to_their_sum(checksums: &[u16], r: u16)
    requires
        call_ensures(checksum::combine, (checksums,), r),
        checksums@.len() == 2,
    ensures
        r as int % 65535 == (checksums@[0] + checksums@[1]) % 65535,
        r == 0 <==> checksums@[0] == 0 && checksums@[1] == 0,
{
    crate::wire::checksum::lemma_total_2(checksums@);
    lemma_fold(checksum::total(checksums@));
}

/// The sum of the first checksums of some.
pub open spec fn gathered(checksums: Seq<u16>, count: nat) -> int
    decreases count,
{
    if count == 0 {
        0
    } else {
        checksums[count - 1] + gathered(checksums, (count - 1) as nat)
    }
}

proof fn lemma_gathered(checksums: Seq<u16>, count: nat)
    requires
        count <= checksums.len(),
    ensures
        checksum::total(checksums.take(count as int)) == gathered(checksums, count),
        gathered(checksums, count) >= 0,
        gathered(checksums, count) == 0 <==> forall|i: int|
            0 <= i < count ==> #[trigger] checksums[i] == 0,
    decreases count,
{
    if count > 0 {
        let some = checksums.take(count as int);
        assert(some.drop_last() =~= checksums.take(count - 1));
        lemma_gathered(checksums, (count - 1) as nat);
        if gathered(checksums, count) == 0 {
            assert forall|i: int| 0 <= i < count implies #[trigger] checksums[i] == 0 by {}
        } else if checksums[count - 1] == 0 {
            assert(gathered(checksums, (count - 1) as nat) != 0);
        }
    }
}

/// Checksums combine to their sum modulo 65535, which is zero only where all of them are.
pub proof fn checksums_combine_to_their_sum(checksums: &[u16], r: u16)
    requires
        call_ensures(checksum::combine, (checksums,), r),
    ensures
        r as int % 65535 == gathered(checksums@, checksums@.len()) % 65535,
        r == 0 <==> forall|i: int| 0 <= i < checksums@.len() ==> #[trigger] checksums@[i] == 0,
{
    assert(checksums@.take(checksums@.len() as int) =~= checksums@);
    lemma_gathered(checksums@, checksums@.len());
    lemma_fold(checksum::total(checksums@));
}

/// The number of an address.
pub open spec fn number(addr: IpAddress) -> int {
    match addr {
        IpAddress::Ipv4(addr) => addr.bits as int,
        IpAddress::Ipv6(addr) => addr.bits as int,
    }
}

/// The words of a number, written with an even number of octets that is large enough, sum to the
/// number modulo 65535, and to zero only where it is zero.
pub proof fn words_of_a_number_sum_to_it(n: nat, count: nat)
    requires
        count % 2 == 0,
        n < vstd::arithmetic::power::pow(256, count),
    ensures
        word_sum(be_octets(n, count)) as int % 65535 == n as int % 65535,
        word_sum(be_octets(n, count)) == 0 <==> n == 0,
    decreases count,
{
    reveal(vstd::arithmetic::power::pow);
    if count == 0 {
        assert(be_octets(n, 0) =~= Seq::<u8>::empty());
        vstd::arithmetic::power::lemma_pow0(256);
    } else {
        let rest = n / 256 / 256;
        let last = seq![((n / 256) % 256) as u8, (n % 256) as u8];
        let front = be_octets(rest, (count - 2) as nat);
        reveal_with_fuel(be_octets, 3);
        assert(be_octets(n, count) =~= front + last);
        lemma_be_octets_len(rest, (count - 2) as nat);
        sums_of_whole_words_add_up(front, last);
        two_octets_are_a_word(last[0], last[1]);
        vstd::arithmetic::power::lemma_pow_adds(256, (count - 2) as nat, 2);
        vstd::arithmetic::power::lemma_pow1(256);
        vstd::arithmetic::power::lemma_pow_adds(256, 1, 1);
        let room = vstd::arithmetic::power::pow(256, (count - 2) as nat);
        assert(vstd::arithmetic::power::pow(256, count) == room * 65536);
        assert(rest < room) by (nonlinear_arith)
            requires
                n < room * 65536,
                rest == n / 256 / 256,
        ;
        words_of_a_number_sum_to_it(rest, (count - 2) as nat);
        let word: int = last[0] * 256 + last[1];
        assert(n == rest * 65536 + word);
        let sum = word_sum(front) as int;
        let d: int = 65535;
        lemma_add_mod_noop(sum, word, d);
        lemma_add_mod_noop(rest as int, word, d);
        lemma_mod_multiples_vanish(rest as int, rest + word, d);
        assert(n == d * rest + (rest + word));
    }
}

/// The checksum of a pseudo header is the sum of both addresses, the protocol number and the length,
/// each as one number, modulo 65535. It is zero only where all of them are.
pub proof fn pseudo_header_sums_addresses_protocol_and_length(
    src_addr: &IpAddress,
    dst_addr: &IpAddress,
    next_header: IpProtocol,
    length: u32,
    r: u16,
)
    requires
        call_ensures(checksum::pseudo_header, (src_addr, dst_addr, next_header, length), r),
        length <= 0xffff,
    ensures
        r as int % 65535 == (number(*src_addr) + number(*dst_addr) + next_header.spec_number()
            + length) % 65535,
        r == 0 <==> number(*src_addr) == 0 && number(*dst_addr) == 0 && next_header.spec_number()
            == 0 && length == 0,
{
    lemma_pseudo_header(*src_addr, *dst_addr, next_header, length);
}

/// The sum of the pseudo header, as far as the laws of UDP need it.
pub proof fn lemma_pseudo_header(
    src_addr: IpAddress,
    dst_addr: IpAddress,
    next_header: IpProtocol,
    length: u32,
)
    requires
        length <= 0xffff,
    ensures
        ({
            let r = spec_pseudo_header(src_addr, dst_addr, next_header, length);
            &&& r as int % 65535 == (number(src_addr) + number(dst_addr)
                + next_header.spec_number() + length) % 65535
            &&& r == 0 <==> number(src_addr) == 0 && number(dst_addr) == 0
                && next_header.spec_number() == 0 && length == 0
        }),
{
    lemma_address_sum(src_addr);
    lemma_address_sum(dst_addr);
    let protocol = next_header.spec_number();
    let tail = checksum::protocol_and_length(src_addr is Ipv4, next_header, length);
    lemma_tail_sum(src_addr is Ipv4, next_header, length);
    let a = fold(word_sum(src_addr.spec_octets())) as int;
    let b = fold(word_sum(dst_addr.spec_octets())) as int;
    let c = fold(word_sum(tail)) as int;
    lemma_fold(word_sum(src_addr.spec_octets()));
    lemma_fold(word_sum(dst_addr.spec_octets()));
    lemma_fold(word_sum(tail));
    lemma_fold((a + b + c) as nat);
    let d: int = 65535;
    lemma_add_mod_noop(a, b, d);
    lemma_add_mod_noop(number(src_addr), number(dst_addr), d);
    lemma_add_mod_noop(a + b, c, d);
    lemma_add_mod_noop(number(src_addr) + number(dst_addr), protocol + length as int, d);
    assert(number(src_addr) + number(dst_addr) + protocol + length == number(src_addr) + number(
        dst_addr,
    ) + (protocol + length));
}

proof fn lemma_address_sum(addr: IpAddress)
    ensures
        word_sum(addr.spec_octets()) as int % 65535 == number(addr) % 65535,
        word_sum(addr.spec_octets()) == 0 <==> number(addr) == 0,
{
    lemma_pow_256();
    match addr {
        IpAddress::Ipv4(addr) => {
            words_of_a_number_sum_to_it(addr.bits as nat, 4);
        },
        IpAddress::Ipv6(addr) => {
            words_of_a_number_sum_to_it(addr.bits as nat, 16);
        },
    }
}

proof fn lemma_pow_256()
    ensures
        vstd::arithmetic::power::pow(256, 2) == 0x1_0000,
        vstd::arithmetic::power::pow(256, 4) == 0x1_0000_0000,
        vstd::arithmetic::power::pow(256, 16) == u128::MAX + 1,
{
    vstd::arithmetic::power::lemma_pow1(256);
    lemma_pow_square(1, 256);
    lemma_pow_square(2, 0x1_0000);
    lemma_pow_square(4, 0x1_0000_0000);
    lemma_pow_square(8, 0x1_0000_0000_0000_0000);
}

proof fn lemma_pow_square(a: nat, p: int)
    requires
        vstd::arithmetic::power::pow(256, a) == p,
    ensures
        vstd::arithmetic::power::pow(256, a + a) == p * p,
{
    vstd::arithmetic::power::lemma_pow_adds(256, a, a);
}

proof fn lemma_tail_sum(version4: bool, next_header: IpProtocol, length: u32)
    requires
        length <= 0xffff,
    ensures
        word_sum(checksum::protocol_and_length(version4, next_header, length))
            == next_header.spec_number() + length,
{
    let protocol = next_header.spec_number();
    let tail = checksum::protocol_and_length(version4, next_header, length);
    reveal_with_fuel(be_octets, 5);
    let high = ((length / 256) % 256) as u8;
    let low = (length % 256) as u8;
    let words: nat = if version4 {
        2
    } else {
        4
    };
    if version4 {
        assert(tail =~= seq![0u8, protocol, high, low]);
    } else {
        assert(length / 256 / 256 == 0);
        assert(tail =~= seq![0u8, 0u8, 0u8, protocol, 0u8, 0u8, high, low]);
    }
    even_octets_sum_word_by_word(tail, words);
    reveal_with_fuel(summed, 5);
}

} // verus!
