use ping::checksum::write_checksum;
use ping::packet::{
    create_echo_pkt, ping_received, ping_sent, read_seq_from_echo_pkt, SeqTme, HDR_CFG_ECHO,
    HDR_TYP_ECHO, PKT_BUF_SIZE, PKT_ID,
};

/// The one's complement sum of a message, by the book.
fn ones_complement_sum(bytes: &[u8]) -> u64 {
    let mut sum: u64 = 0;
    for word in bytes.chunks(2) {
        sum += (word[0] as u64) << 8;
        if word.len() > 1 {
            sum += word[1] as u64;
        }
    }
    while sum > 0xffff {
        sum = (sum >> 16) + (sum & 0xffff);
    }
    sum
}

#[test]
fn constants_are_those_of_an_echo_request() {
    assert_eq!(HDR_TYP_ECHO, 8);
    assert_eq!(HDR_CFG_ECHO, 0);
    assert_eq!(PKT_BUF_SIZE, 28);
    assert_eq!(PKT_ID, 1);
}

#[test]
fn first_echo_request() {
    let mut expected = [0u8; 28];
    expected[..8].copy_from_slice(&[8, 0, 0xf7, 0xfd, 0, 1, 0, 1]);
    assert_eq!(create_echo_pkt(PKT_ID, 1), expected);
}

#[test]
fn echo_request_with_two_byte_fields() {
    let pkt = create_echo_pkt(0x1234, 0xabcd);
    // 0x0800 + 0x1234 + 0xabcd = 0xc601
    assert_eq!(pkt[..8], [8, 0, 0x39, 0xfe, 0x12, 0x34, 0xab, 0xcd]);
    assert_eq!(pkt[8..], [0u8; 20]);
}

#[test]
fn echo_request_with_carry() {
    // 0x0800 + 0xffff + 0xffff = 0x207fe, which carries to 0x0800
    let pkt = create_echo_pkt(0xffff, 0xffff);
    assert_eq!(pkt[..8], [8, 0, 0xf7, 0xff, 0xff, 0xff, 0xff, 0xff]);
}

#[test]
fn echo_requests_pass_the_checksum_test() {
    for id in [0u16, 1, 0x00ff, 0x0100, 0x7fff, 0xf7ff, 0xffff] {
        for seq in [0u16, 1, 2, 10, 0xf800, 0xfffe, 0xffff] {
            assert_eq!(ones_complement_sum(&create_echo_pkt(id, seq)), 0xffff);
        }
    }
}

#[test]
fn echo_requests_differ() {
    assert_ne!(create_echo_pkt(1, 2), create_echo_pkt(2, 1));
    assert_ne!(create_echo_pkt(1, 2), create_echo_pkt(1, 3));
}

#[test]
fn checksum_of_zeros_is_all_ones() {
    let mut buf = [0u8; 4];
    write_checksum(&mut buf);
    assert_eq!(buf, [0, 0, 0xff, 0xff]);
}

#[test]
fn checksum_of_odd_length() {
    let mut buf = [1u8, 2, 0, 0, 5];
    write_checksum(&mut buf);
    // 0x0102 + 0x0500 = 0x0602
    assert_eq!(buf, [1, 2, 0xf9, 0xfd, 5]);
    assert_eq!(ones_complement_sum(&buf), 0xffff);
}

#[test]
fn checksum_counts_what_is_in_its_field() {
    let mut buf = [0u8, 1, 0, 2];
    write_checksum(&mut buf);
    assert_eq!(buf, [0, 1, 0xff, 0xfc]);
}

#[test]
fn checksum_with_many_carries() {
    let mut buf = vec![0xffu8; 70_000];
    buf[2] = 0;
    buf[3] = 0;
    write_checksum(&mut buf);
    assert_eq!(ones_complement_sum(&buf), 0xffff);
    assert_eq!(buf[..4], [0xff, 0xff, 0, 0]);
}

#[test]
fn sequence_number_is_read_behind_the_ip_header() {
    let mut buf = [0u8; PKT_BUF_SIZE];
    buf[26] = 0x12;
    buf[27] = 0x34;
    assert_eq!(read_seq_from_echo_pkt(buf), 0x1234);
    assert_eq!(read_seq_from_echo_pkt([0xff; PKT_BUF_SIZE]), 0xffff);
    assert_eq!(read_seq_from_echo_pkt([0; PKT_BUF_SIZE]), 0);
}

#[test]
fn sequence_number_comes_back() {
    for seq in [0u16, 1, 10, 255, 256, 0xabcd, 0xffff] {
        let request = create_echo_pkt(PKT_ID, seq);
        let mut reply = [0x45u8; PKT_BUF_SIZE];
        reply[20..].copy_from_slice(&request[..8]);
        // A reply has its own type and checksum.
        reply[20] = 0;
        reply[22] = 0x77;
        assert_eq!(read_seq_from_echo_pkt(reply), seq);
        assert_eq!(
            ping_received(reply, PKT_BUF_SIZE, 42),
            SeqTme { seq, tme: 42 }
        );
    }
}

#[test]
fn sent_ping_keeps_number_and_time() {
    assert_eq!(ping_sent(3, PKT_BUF_SIZE, 99), SeqTme { seq: 3, tme: 99 });
}
