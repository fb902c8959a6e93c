use ping::address::{parse_ipv4, push_ipv4, Ipv4Addr};
use ping::config::{parse_cfg, Cfg};
use ping::decimal::{parse_uint, push_numeral, ParseUintError};
use ping::text::{chars_of, split_text, trim_spaces};

fn cfg(param: &str) -> Result<Cfg, String> {
    parse_cfg(param.to_string())
}

fn adr(a: u8, b: u8, c: u8, d: u8) -> Ipv4Addr {
    Ipv4Addr { a, b, c, d }
}

fn refused(param: &str, message: &str) {
    assert_eq!(cfg(param), Err(message.to_string()));
}

#[test]
fn documented_parameter() {
    assert_eq!(
        cfg("1.1.1.1,3,1000"),
        Ok(Cfg {
            ipv4_adr: adr(1, 1, 1, 1),
            ping_count: 3,
            interval_ms: 1000
        })
    );
}

#[test]
fn documented_parameter_with_spaces() {
    assert_eq!(
        cfg("1.1.1.1, 3, 1000"),
        Ok(Cfg {
            ipv4_adr: adr(1, 1, 1, 1),
            ping_count: 3,
            interval_ms: 1000
        })
    );
    assert_eq!(cfg("  1.1.1.1 ,3  ,   1000 "), cfg("1.1.1.1,3,1000"));
}

#[test]
fn spaces_are_trimmed() {
    for (text, expected) in [
        ("", ""), (" ", ""), ("   ", ""), ("a", "a"), (" a", "a"), ("a ", "a"), ("  a b  ", "a b"),
        ("\ta\n", "\ta\n"), (" \u{e4} \u{1f980} ", "\u{e4} \u{1f980}"),
    ] {
        assert_eq!(trim_spaces(text), expected);
    }
}

#[test]
fn messages_quote_the_part_as_it_stands() {
    refused(
        " 1.1.1 ,3,1000",
        "Invalid parameter part: unable to parse address ' 1.1.1 ' as IPv4: invalid IPv4 address syntax",
    );
    refused(
        "1. 1.1.1,3,1000",
        "Invalid parameter part: unable to parse address '1. 1.1.1' as IPv4: invalid IPv4 address syntax",
    );
    refused(
        "1.1.1.1, 11 ,1000",
        "Invalid parameter part: ping count is too large: (actual: 11, expected: <= 10)",
    );
    refused(
        "1.1.1.1, 3, 1s",
        "Invalid parameter part: unable to parse interval ' 1s' as u64: invalid digit found in string",
    );
}

#[test]
fn limits_of_the_parameter() {
    assert_eq!(
        cfg("255.0.10.249,1,0"),
        Ok(Cfg {
            ipv4_adr: adr(255, 0, 10, 249),
            ping_count: 1,
            interval_ms: 0
        })
    );
    assert_eq!(
        cfg("0.0.0.0,+010,+1"),
        Ok(Cfg {
            ipv4_adr: adr(0, 0, 0, 0),
            ping_count: 10,
            interval_ms: 1
        })
    );
}

#[test]
fn wrong_part_count() {
    refused("", "Invalid parameter part count(actual: 1, expected: 3)");
    refused("1.1.1.1", "Invalid parameter part count(actual: 1, expected: 3)");
    refused("1.1.1.1,3", "Invalid parameter part count(actual: 2, expected: 3)");
    refused("1.1.1.1,3,1000,", "Invalid parameter part count(actual: 4, expected: 3)");
    refused(",,,,,,,,,,", "Invalid parameter part count(actual: 11, expected: 3)");
}

#[test]
fn bad_address() {
    refused(
        "1.1.1,3,1000",
        "Invalid parameter part: unable to parse address '1.1.1' as IPv4: invalid IPv4 address syntax",
    );
    refused(
        ",,",
        "Invalid parameter part: unable to parse address '' as IPv4: invalid IPv4 address syntax",
    );
    // The address is looked at first.
    refused(
        "h\u{f6}st,x,y",
        "Invalid parameter part: unable to parse address 'h\u{f6}st' as IPv4: invalid IPv4 address syntax",
    );
}

#[test]
fn bad_ping_count() {
    refused(
        "1.1.1.1,,1000",
        "Invalid parameter part: unable to parse ping count '' as u16: cannot parse integer from empty string",
    );
    refused(
        "1.1.1.1, 3 3,1000",
        "Invalid parameter part: unable to parse ping count ' 3 3' as u16: invalid digit found in string",
    );
    refused(
        "1.1.1.1,\t3,1000",
        "Invalid parameter part: unable to parse ping count '\t3' as u16: invalid digit found in string",
    );
    refused(
        "1.1.1.1,  ,1000",
        "Invalid parameter part: unable to parse ping count '  ' as u16: cannot parse integer from empty string",
    );
    refused(
        "1.1.1.1,65536,1000",
        "Invalid parameter part: unable to parse ping count '65536' as u16: number too large to fit in target type",
    );
    // The ping count is looked at before the interval.
    refused(
        "1.1.1.1,-1,x",
        "Invalid parameter part: unable to parse ping count '-1' as u16: invalid digit found in string",
    );
}

#[test]
fn ping_count_out_of_range() {
    refused(
        "1.1.1.1,0,1000",
        "Invalid parameter part: ping count is too small: (actual: 0, expected: >= 1)",
    );
    refused(
        "1.1.1.1,11,1000",
        "Invalid parameter part: ping count is too large: (actual: 11, expected: <= 10)",
    );
    refused(
        "1.1.1.1,65535,x",
        "Invalid parameter part: ping count is too large: (actual: 65535, expected: <= 10)",
    );
}

#[test]
fn bad_interval() {
    refused(
        "1.1.1.1,3,",
        "Invalid parameter part: unable to parse interval '' as u64: cannot parse integer from empty string",
    );
    refused(
        "1.1.1.1,3,1s",
        "Invalid parameter part: unable to parse interval '1s' as u64: invalid digit found in string",
    );
    refused(
        "1.1.1.1,3,18446744073709551616",
        "Invalid parameter part: unable to parse interval '18446744073709551616' as u64: number too large to fit in target type",
    );
}

#[test]
fn interval_too_large() {
    refused(
        "1.1.1.1,3,1001",
        "Invalid parameter part: interval is too large: (actual: 1001, expected: <= 1000)",
    );
    refused(
        "1.1.1.1,3,18446744073709551615",
        "Invalid parameter part: interval is too large: (actual: 18446744073709551615, expected: <= 1000)",
    );
}

#[test]
fn every_valid_configuration_can_be_asked_for() {
    for ping_count in 1u16..=10 {
        for interval_ms in [0u64, 1, 9, 10, 99, 100, 999, 1000] {
            let ipv4_adr = adr(10, 200, ping_count as u8, 0);
            let mut param = String::new();
            push_ipv4(&mut param, ipv4_adr);
            param.push(',');
            push_numeral(&mut param, ping_count as u128);
            param.push(',');
            push_numeral(&mut param, interval_ms as u128);
            assert_eq!(
                cfg(&param),
                Ok(Cfg {
                    ipv4_adr,
                    ping_count,
                    interval_ms
                })
            );
        }
    }
}

#[test]
fn addresses_read_back() {
    for a in 0u8..=255 {
        let mut text = String::new();
        push_ipv4(&mut text, adr(a, 255 - a, 7, a));
        assert_eq!(text, format!("{}.{}.7.{}", a, 255 - a, a));
        assert_eq!(parse_ipv4(&text), Some(adr(a, 255 - a, 7, a)));
    }
}

#[test]
fn texts_that_are_no_address() {
    for text in [
        "", ".", "...", "1", "1.2.3", "1.2.3.", ".1.2.3", "1..2.3", "1.2.3.4.", "1.2.3.4.5",
        "256.1.1.1", "1.1.1.256", "999.1.1.1", "1000.1.1.1", "01.1.1.1", "1.1.1.00", "1.1.1.001",
        "+1.1.1.1", "-1.1.1.1", " 1.1.1.1", "1.1.1.1 ", "1.1.1.a", "0x1.1.1.1", "1,1.1.1",
        "\u{661}.1.1.1",
    ] {
        assert_eq!(parse_ipv4(text), None);
    }
}

#[test]
fn numbers_are_read_as_the_standard_library_reads_them() {
    let texts = [
        "", "+", "-", "0", "00", "+0", "-0", "007", "+42", "++1", "+-1", "1+", "1_000", " 1", "1 ",
        "a", "1a", "9999a", "65535", "65536", "065535", "+65535", "65535a", "65536a", "99999", "6553a",
        "18446744073709551615", "18446744073709551616", "18446744073709551615x",
        "18446744073709551616x", "99999999999999999999999999", "\u{663}", "1\u{663}", "0x10", "1.5",
    ];
    for text in texts {
        let by_std = text.parse::<u16>().map(|n| n as u64).map_err(|e| e.to_string());
        let here = parse_uint(text, u16::MAX as u64).map_err(|e| e.message().to_string());
        assert_eq!(here, by_std);
        let by_std = text.parse::<u64>().map_err(|e| e.to_string());
        let here = parse_uint(text, u64::MAX).map_err(|e| e.message().to_string());
        assert_eq!(here, by_std);
        let by_std = text.parse::<u8>().map(|n| n as u64).map_err(|e| e.to_string());
        let here = parse_uint(text, u8::MAX as u64).map_err(|e| e.message().to_string());
        assert_eq!(here, by_std);
    }
    for n in 0u64..70_000 {
        let text = n.to_string();
        let by_std = text.parse::<u16>().map(|n| n as u64).map_err(|e| e.to_string());
        let here = parse_uint(&text, u16::MAX as u64).map_err(|e| e.message().to_string());
        assert_eq!(here, by_std);
    }
}

#[test]
fn each_way_a_number_is_refused() {
    assert_eq!(parse_uint("", 255), Err(ParseUintError::Empty));
    assert_eq!(parse_uint("25x", 255), Err(ParseUintError::InvalidDigit));
    assert_eq!(parse_uint("256x", 255), Err(ParseUintError::PosOverflow));
    assert_eq!(parse_uint("255", 255), Ok(255));
}

#[test]
fn numerals_are_written_as_the_standard_library_writes_them() {
    for n in [
        0u128, 9, 10, 11, 99, 100, 101, 1_000_000, 123_456_789, u64::MAX as u128, u128::MAX,
    ] {
        let mut text = "n=".to_string();
        push_numeral(&mut text, n);
        assert_eq!(text, format!("n={}", n));
    }
}

#[test]
fn numerals_read_back() {
    for n in [0u64, 1, 10, 12_345, u64::MAX] {
        let mut text = String::new();
        push_numeral(&mut text, n as u128);
        assert_eq!(parse_uint(&text, u64::MAX), Ok(n));
    }
}

#[test]
fn texts_are_split_as_the_standard_library_splits_them() {
    for text in ["", ",", ",,", "a", "a,", ",a", "a,b", "a,,b", "\u{e4},\u{1f980},c,"] {
        let by_std: Vec<&str> = text.split(',').collect();
        assert_eq!(split_text(text, ','), by_std);
        assert_eq!(split_text(text, ',').join(","), text);
    }
}

#[test]
fn characters_of_a_text() {
    assert_eq!(chars_of(""), Vec::<char>::new());
    assert_eq!(chars_of("a\u{e4}\u{1f980}"), vec!['a', '\u{e4}', '\u{1f980}']);
}
