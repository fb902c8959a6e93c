//! ICMP echo packets.

use vstd::prelude::*;

use crate::checksum::{
    end_around_carry, law_checksum_verifies, with_checksum, word_sum, write_checksum,
};

verus! {

/// An ICMP header type indicating the message is an Echo request.
pub const HDR_TYP_ECHO: u8 = 8;

/// An ICMP header configuration indicating the Echo message contains an id and sequence number.
pub const HDR_CFG_ECHO: u8 = 0;

/// The size of an ICMP packet buffer in bytes.
pub const PKT_BUF_SIZE: usize = 28;

/// An echo packet id.
pub const PKT_ID: u16 = 1;

/// The bytes of the IPv4 header that comes before the ICMP message of a reply.
pub const IP_HDR_SIZE: usize = 20;

/// The two bytes of `v`, most significant first.
pub open spec fn be_bytes(v: u16) -> Seq<u8> {
    seq![(v / 256) as u8, (v % 256) as u8]
}

/// An echo request header with the given checksum, and nothing but zeros after it.
pub open spec fn echo_pkt(sum: u16, id: u16, seq: u16) -> Seq<u8> {
    seq![HDR_TYP_ECHO, HDR_CFG_ECHO] + be_bytes(sum) + be_bytes(id) + be_bytes(seq) + Seq::new(
        20,
        |i: int| 0u8,
    )
}

/// The checksum of the echo request with this id and sequence number.
pub open spec fn echo_checksum(id: u16, seq: u16) -> u16 {
    let sum = (HDR_TYP_ECHO * 256 + HDR_CFG_ECHO + id + seq) as nat;
    (0xffff - end_around_carry(sum)) as u16
}

/// Creates an echo request packet.
pub fn create_echo_pkt(id: u16, seq: u16) -> (pkt: [u8; PKT_BUF_SIZE])
    ensures
        pkt@ == echo_pkt(echo_checksum(id, seq), id, seq),
        pkt@.len() == 28,
        pkt@[0] == 8,
        pkt@[1] == 0,
        (2048 + pkt@[2] * 256 + pkt@[3] + id + seq) % 65535 == 0,
        pkt@[2] * 256 + pkt@[3] < 65535,
        pkt@[4] * 256 + pkt@[5] == id,
        pkt@[6] * 256 + pkt@[7] == seq,
        forall|i: int| 8 <= i < 28 ==> #[trigger] pkt@[i] == 0,
{
    // Create an echo message
    let mut buf: [u8; PKT_BUF_SIZE] = [0u8; PKT_BUF_SIZE];
    buf[0] = HDR_TYP_ECHO;
    buf[1] = HDR_CFG_ECHO;
    // buf[2] will contain the checksum
    // buf[3] will contain the checksum
    assert(id >> 8 == id / 256 && id as u8 == id % 256) by (bit_vector);
    buf[4] = (id >> 8) as u8;
    buf[5] = id as u8;
    assert(seq >> 8 == seq / 256 && seq as u8 == seq % 256) by (bit_vector);
    buf[6] = (seq >> 8) as u8;
    buf[7] = seq as u8;
    // Payload is intentionally left empty
    assert(buf@ == echo_pkt(0, id, seq));
    proof {
        lemma_echo_word_sum(0, id, seq);
    }

    // Write the message header's checksum
    write_checksum(&mut buf);
    assert(buf@ == echo_pkt(echo_checksum(id, seq), id, seq));
    proof {
        law_echo_bytes(echo_checksum(id, seq), id, seq);
        law_echo_checksum_completes(id, seq);
    }

    buf
}

/// The sequence number in a reply as it is received: an IPv4 header, then the ICMP header.
pub open spec fn reply_seq(buf: Seq<u8>) -> u16 {
    (buf[IP_HDR_SIZE + 6] * 256 + buf[IP_HDR_SIZE + 7]) as u16
}

/// Reads the sequence number from an echo reply message buffer.
pub fn read_seq_from_echo_pkt(buf: [u8; PKT_BUF_SIZE]) -> (seq: u16)
    ensures
        seq == reply_seq(buf@),
        seq == buf@[26] * 256 + buf@[27],
{
    buf[IP_HDR_SIZE + 6] as u16 * 256 + buf[IP_HDR_SIZE + 7] as u16
}

/// A ping sequence number and time.
///
/// The time is a monotonic clock reading, in nanoseconds since a fixed start.
#[derive(Debug, Clone, Copy, PartialEq, Eq, Structural)]
pub struct SeqTme {
    pub seq: u16,
    pub tme: u128,
}

/// What is known of ping `seq` once the socket took `count_tx` bytes of its packet at `tme`.
///
/// A socket that takes part of a packet only is a fault of the caller's.
pub fn ping_sent(seq: u16, count_tx: usize, tme: u128) -> (res: SeqTme)
    requires
        count_tx == PKT_BUF_SIZE,
    ensures
        res == (SeqTme { seq, tme }),
        res.seq == seq,
        res.tme == tme,
{
    SeqTme { seq, tme }
}

/// What is known of a reply once the socket filled `count_rx` bytes of `buf_rx` at `tme`.
///
/// A reply that does not fill the buffer is a fault of the caller's.
pub fn ping_received(buf_rx: [u8; PKT_BUF_SIZE], count_rx: usize, tme: u128) -> (res: SeqTme)
    requires
        count_rx == PKT_BUF_SIZE,
    ensures
        res == (SeqTme { seq: reply_seq(buf_rx@), tme }),
        res.seq == buf_rx@[26] * 256 + buf_rx@[27],
        res.tme == tme,
{
    SeqTme { seq: read_seq_from_echo_pkt(buf_rx), tme }
}

/// Words of zeros add up to nothing.
proof fn lemma_zeros_word_sum(s: Seq<u8>)
    requires
        forall|i: int| 0 <= i < s.len() ==> s[i] == 0,
    ensures
        word_sum(s) == 0,
    decreases s.len(),
{
    if s.len() >= 2 {
        lemma_zeros_word_sum(s.skip(2));
    }
}

/// What the words of an echo request add up to.
proof fn lemma_echo_word_sum(sum: u16, id: u16, seq: u16)
    ensures
        word_sum(echo_pkt(sum, id, seq)) == HDR_TYP_ECHO * 256 + HDR_CFG_ECHO + sum + id
            + seq,
{
    let p = echo_pkt(sum, id, seq);
    lemma_zeros_word_sum(p.skip(2).skip(2).skip(2).skip(2));
    reveal_with_fuel(word_sum, 5);
}

/// Every echo request passes a receiver's test of the checksum.
pub proof fn law_echo_checksum_verifies(id: u16, seq: u16)
    ensures
        end_around_carry(word_sum(echo_pkt(echo_checksum(id, seq), id, seq))) == 0xffff,
{
    lemma_echo_word_sum(0, id, seq);
    let blank = echo_pkt(0, id, seq);
    law_checksum_verifies(blank);
    assert(with_checksum(blank, echo_checksum(id, seq)) == echo_pkt(
        echo_checksum(id, seq),
        id,
        seq,
    ));
}

/// The sequence number of an echo request comes back: whatever IPv4 header a reply has, and
/// whatever follows its ICMP header, the sequence number read from it is the one of the
/// request whose id and sequence number it repeats.
pub proof fn law_reply_returns_seq(ip_header: Seq<u8>, reply: Seq<u8>, id: u16, seq: u16)
    requires
        ip_header.len() == IP_HDR_SIZE,
        reply.len() >= 8,
        reply.subrange(4, 8) == echo_pkt(echo_checksum(id, seq), id, seq).subrange(4, 8),
    ensures
        reply_seq((ip_header + reply).take(PKT_BUF_SIZE as int)) == seq,
{
    let request = echo_pkt(echo_checksum(id, seq), id, seq);
    assert(reply[6] == reply.subrange(4, 8)[2] == request[6]);
    assert(reply[7] == reply.subrange(4, 8)[3] == request[7]);
}

/// No two echo requests are alike.
pub proof fn law_echo_pkt_injective(id1: u16, seq1: u16, id2: u16, seq2: u16)
    requires
        echo_pkt(echo_checksum(id1, seq1), id1, seq1) == echo_pkt(
            echo_checksum(id2, seq2),
            id2,
            seq2,
        ),
    ensures
        id1 == id2,
        seq1 == seq2,
{
    let p = echo_pkt(echo_checksum(id1, seq1), id1, seq1);
    let q = echo_pkt(echo_checksum(id2, seq2), id2, seq2);
    assert(p[4] == id1 / 256 && p[5] == id1 % 256 && p[6] == seq1 / 256 && p[7] == seq1 % 256);
    assert(q[4] == id2 / 256 && q[5] == id2 % 256 && q[6] == seq2 / 256 && q[7] == seq2 % 256);
}

/// What an echo request is made of, byte by byte: type 8, code 0, the checksum, the id and the
/// sequence number, each most significant byte first, and twenty zeros.
pub proof fn law_echo_bytes(sum: u16, id: u16, seq: u16)
    ensures
        echo_pkt(sum, id, seq).len() == 28,
        echo_pkt(sum, id, seq)[0] == 8,
        echo_pkt(sum, id, seq)[1] == 0,
        echo_pkt(sum, id, seq)[2] * 256 + echo_pkt(sum, id, seq)[3] == sum,
        echo_pkt(sum, id, seq)[4] * 256 + echo_pkt(sum, id, seq)[5] == id,
        echo_pkt(sum, id, seq)[6] * 256 + echo_pkt(sum, id, seq)[7] == seq,
        forall|i: int| 8 <= i < 28 ==> #[trigger] echo_pkt(sum, id, seq)[i] == 0,
{
}

/// The checksum of an echo request completes its header to a multiple of 65535.
pub proof fn law_echo_checksum_completes(id: u16, seq: u16)
    ensures
        (2048 + id + seq + echo_checksum(id, seq)) % 65535 == 0,
        echo_checksum(id, seq) < 65535,
{
}

/// The sequence number of a reply is the word at byte 26.
pub proof fn law_reply_seq_at_26(buf: Seq<u8>)
    requires
        buf.len() == 28,
    ensures
        reply_seq(buf) == buf[26] * 256 + buf[27],
{
}

/// The sequence number comes back in words of its own: it is read from every buffer of 28 bytes
/// whose last two bytes are the ones that the request holds at 6 and 7.
pub proof fn law_seq_travels(buf: Seq<u8>, id: u16, seq: u16)
    requires
        buf.len() == 28,
        buf[26] == echo_pkt(echo_checksum(id, seq), id, seq)[6],
        buf[27] == echo_pkt(echo_checksum(id, seq), id, seq)[7],
    ensures
        reply_seq(buf) == seq,
{
    law_echo_bytes(echo_checksum(id, seq), id, seq);
    law_reply_seq_at_26(buf);
}

} // verus!
