//! The Internet checksum of an ICMP message.

use vstd::arithmetic::div_mod::lemma_mod_multiples_vanish;
use vstd::prelude::*;

verus! {

/// The value of the big-endian 16-bit words of `s`, added up.
///
/// A last byte without a partner is the high byte of a word whose low byte is zero.
pub open spec fn word_sum(s: Seq<u8>) -> nat
    decreases s.len(),
{
    if s.len() == 0 {
        0
    } else if s.len() == 1 {
        s[0] as nat * 256
    } else {
        s[0] as nat * 256 + s[1] as nat + word_sum(s.skip(2))
    }
}

/// A sum reduced to 16 bits by adding every carry back in: the one's complement sum.
///
/// It is the representative of `sum` modulo 65535 in `1..=65535`, and zero for zero alone.
pub open spec fn end_around_carry(sum: nat) -> nat {
    if sum == 0 {
        0
    } else {
        ((sum - 1) % 65535 + 1) as nat
    }
}

/// The checksum of `s`: the complement of its one's complement sum, accumulated in 32 bits.
pub open spec fn checksum_of(s: Seq<u8>) -> u16 {
    (0xffff - end_around_carry(word_sum(s) % 0x1_0000_0000)) as u16
}

/// `s` with `sum` in the checksum field of an ICMP header, bytes 2 and 3.
pub open spec fn with_checksum(s: Seq<u8>, sum: u16) -> Seq<u8> {
    s.update(2, (sum / 256) as u8).update(3, (sum % 256) as u8)
}

/// One carry added back in leaves the one's complement sum as it is.
proof fn lemma_carry_step(sum: nat)
    requires
        sum >= 65536,
    ensures
        end_around_carry(sum / 65536 + sum % 65536) == end_around_carry(sum),
        sum / 65536 + sum % 65536 < sum,
        sum / 65536 + sum % 65536 > 0,
{
    let high = sum / 65536;
    let folded = high + sum % 65536;
    lemma_mod_multiples_vanish(high as int, folded - 1, 65535);
    assert(sum - 1 == 65535 * high + (folded - 1));
}

/// Writes an ICMP message header checksum.
///
/// See [RFC 792](https://tools.ietf.org/html/rfc792) for more details on ICMP.
pub fn write_checksum(buf: &mut [u8])
    requires
        old(buf)@.len() >= 4,
    ensures
        final(buf)@ == with_checksum(old(buf)@, checksum_of(old(buf)@)),
        final(buf)@.len() == old(buf)@.len(),
        forall|j: int|
            0 <= j < old(buf)@.len() && j != 2 && j != 3 ==> final(buf)@[j] == old(buf)@[j],
        (word_sum(old(buf)@) % 4294967296 + final(buf)@[2] * 256 + final(buf)@[3]) % 65535 == 0,
        final(buf)@[2] == 255 && final(buf)@[3] == 255 <==> word_sum(old(buf)@) % 4294967296 == 0,
{
    let len: usize = buf.len();
    let ghost bytes = buf@;
    let mut sum: u32 = 0;
    let mut i: usize = 0;
    assert(bytes.skip(0) == bytes);
    while i < len
        invariant
            len == bytes.len(),
            buf@ == bytes,
            i <= len,
            (sum + word_sum(bytes.skip(i as int))) % 0x1_0000_0000 == word_sum(bytes)
                % 0x1_0000_0000,
        decreases len - i,
    {
        let ghost rest = bytes.skip(i as int);
        let mut part: u16 = buf[i] as u16 * 256;
        if len - i > 1 {
            part = part + buf[i + 1] as u16;
            assert(rest.skip(2) == bytes.skip(i + 2));
            i = i + 2;
        } else {
            assert(bytes.skip(i + 1).len() == 0);
            i = i + 1;
        }
        sum = sum.wrapping_add(part as u32);
    }
    assert(bytes.skip(i as int).len() == 0);

    let ghost total = word_sum(bytes) % 0x1_0000_0000;
    assert(sum == total);
    while (sum >> 16) > 0
        invariant
            end_around_carry(sum as nat) == end_around_carry(total),
        decreases sum,
    {
        assert(sum >> 16 == sum / 65536 && sum & 0xffff == sum % 65536) by (bit_vector);
        proof {
            lemma_carry_step(sum as nat);
        }
        sum = (sum >> 16) + (sum & 0xffff);
    }
    assert(sum >> 16 == sum / 65536) by (bit_vector);

    assert(sum <= 0xffff ==> (!sum) as u16 == 0xffff - sum) by (bit_vector);
    let sum: u16 = !sum as u16;

    assert(sum >> 8 == sum / 256 && sum & 0xff == sum % 256) by (bit_vector);
    buf[2] = (sum >> 8) as u8;
    buf[3] = (sum & 0xff) as u8;
    proof {
        law_checksum_completes(bytes);
        law_checksum_in_its_field(bytes, sum, 0);
    }
}

/// Replacing a zero checksum field by `sum` adds `sum` to the words of the message.
proof fn lemma_with_checksum_sum(s: Seq<u8>, sum: u16)
    requires
        s.len() >= 4,
        s[2] == 0,
        s[3] == 0,
    ensures
        word_sum(with_checksum(s, sum)) == word_sum(s) + sum,
{
    let t = with_checksum(s, sum);
    assert(t.skip(2).skip(2) == s.skip(2).skip(2));
    assert(sum == sum / 256 * 256 + sum % 256);
    assert(word_sum(s) == s[0] as nat * 256 + s[1] as nat + word_sum(s.skip(2)));
    assert(word_sum(s.skip(2)) == word_sum(s.skip(2).skip(2)));
    assert(word_sum(t) == t[0] as nat * 256 + t[1] as nat + word_sum(t.skip(2)));
}

/// A receiver's test of the checksum: once the checksum is written over a zero field, the
/// one's complement sum of the whole message, checksum included, is all ones.
///
/// This holds exactly where the carries that a 32-bit accumulator drops come to a multiple of
/// 65535, so in particular for every message whose words add up to less than 2 to the 32nd.
pub proof fn law_checksum_verifies(s: Seq<u8>)
    requires
        s.len() >= 4,
        s[2] == 0,
        s[3] == 0,
    ensures
        end_around_carry(word_sum(with_checksum(s, checksum_of(s)))) == 0xffff <==> (word_sum(s)
            / 0x1_0000_0000) % 65535 == 0,
{
    let total = word_sum(s);
    let dropped = total / 0x1_0000_0000;
    let kept = total % 0x1_0000_0000;
    let carried = end_around_carry(kept);
    lemma_with_checksum_sum(s, checksum_of(s));
    let verified = total + (0xffff - carried);

    // Modulo 65535, 2 to the 32nd is one, and so is every carry that was dropped.
    let turns: int = 65537 * dropped + 1 + if kept == 0 {
        0
    } else {
        (kept - 1) / 65535
    };
    assert(verified == dropped + 65535 * turns);
    lemma_mod_multiples_vanish(turns, dropped - 1, 65535);
    assert(verified - 1 == 65535 * turns + (dropped - 1));
    assert((dropped - 1) % 65535 == 65534 <==> dropped % 65535 == 0);
}

/// How words add up: nothing is zero, a byte alone counts 256-fold, two bytes are one word, and
/// a message that is cut between two words adds up to what its two parts add up to.
pub proof fn law_words_add_up(high: u8, low: u8, a: Seq<u8>, b: Seq<u8>)
    requires
        a.len() % 2 == 0,
    ensures
        word_sum(Seq::empty()) == 0,
        word_sum(seq![high]) == high * 256,
        word_sum(seq![high, low]) == high * 256 + low,
        word_sum(a + b) == word_sum(a) + word_sum(b),
    decreases a.len(),
{
    assert(seq![high, low].skip(2) == Seq::<u8>::empty());
    assert(word_sum(Seq::empty()) == 0);
    if a.len() == 0 {
        assert(a + b == b);
    } else {
        law_words_add_up(high, low, a.skip(2), b);
        assert((a + b).skip(2) == a.skip(2) + b);
    }
}

/// A one's complement sum fits in 16 bits, differs from the sum by a multiple of 65535, and is
/// zero for zero alone.
pub proof fn law_carry_reduces(sum: nat)
    ensures
        end_around_carry(sum) <= 65535,
        (sum - end_around_carry(sum)) % 65535 == 0,
        end_around_carry(sum) == 0 <==> sum == 0,
{
}

/// The checksum is what is missing from the words of the message, added up in 32 bits, to a
/// multiple of 65535. Of the two candidates 0 and 65535 it is 65535 for a sum of zero, and 0
/// for every other sum.
pub proof fn law_checksum_completes(s: Seq<u8>)
    ensures
        (word_sum(s) % 4294967296 + checksum_of(s)) % 65535 == 0,
        checksum_of(s) == 65535 <==> word_sum(s) % 4294967296 == 0,
{
    let kept = word_sum(s) % 0x1_0000_0000;
    law_carry_reduces(kept);
    assert(kept + checksum_of(s) == (kept - end_around_carry(kept)) + 65535);
}

/// A checksum stands in bytes 2 and 3, most significant first, and nowhere else.
pub proof fn law_checksum_in_its_field(s: Seq<u8>, sum: u16, i: int)
    requires
        s.len() >= 4,
        0 <= i < s.len(),
    ensures
        with_checksum(s, sum).len() == s.len(),
        with_checksum(s, sum)[2] * 256 + with_checksum(s, sum)[3] == sum,
        i != 2 && i != 3 ==> with_checksum(s, sum)[i] == s[i],
{
}

} // verus!
