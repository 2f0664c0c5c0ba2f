use mqagent::collector::mos::Codec;
use mqagent::json::Json;
use mqagent::net::{parse_address_list, parse_ipv4, parse_ipv6, IpAddr, SocketAddr};
use mqagent::order::sort_ascending;
use mqagent::proto::mqp::DecodeError;
use mqagent::proto::twamp::TwampError;
use mqagent::round::round_div;
use mqagent::routeros::{RouterOs, RouterOsError};
use mqagent::text::{
    contains, entries, parse_front, parse_i32, parse_milli, parse_radix, parse_span, parse_u16,
    parse_u8, push_left, push_right, split, split_once, to_decimal, to_thousandths, trim,
    trim_prefixes,
};

#[test]
fn addresses_are_read_strictly() {
    for (text, want) in [
        ("0.0.0.0", IpAddr::V4(0)),
        ("255.255.255.255", IpAddr::V4(u32::MAX)),
        ("10.0.0.1", IpAddr::V4(0x0A00_0001)),
        ("::", IpAddr::V6(0)),
        ("::1", IpAddr::V6(1)),
        ("1::", IpAddr::V6(1 << 112)),
        ("2001:db8::1", IpAddr::V6(0x2001_0db8_0000_0000_0000_0000_0000_0001)),
        ("::ffff:1.2.3.4", IpAddr::V6(0xFFFF_0102_0304)),
        ("1:2:3:4:5:6:7:8", IpAddr::V6(0x0001_0002_0003_0004_0005_0006_0007_0008)),
        ("1:2:3:4:5:6:1.2.3.4", IpAddr::V6(0x0001_0002_0003_0004_0005_0006_0102_0304)),
        ("1:2:3:4:5:6:7::", IpAddr::V6(0x0001_0002_0003_0004_0005_0006_0007_0000)),
        ("::2:3:4:5:6:7:8", IpAddr::V6(0x0000_0002_0003_0004_0005_0006_0007_0008)),
        ("FE80::A", IpAddr::V6(0xFE80_0000_0000_0000_0000_0000_0000_000A)),
        ("0000:0::0001", IpAddr::V6(1)),
    ] {
        assert_eq!(IpAddr::parse(text), Some(want), "{text:?}");
    }
    for text in [
        "01.2.3.4", "1.2.3", "1.2.3.4.5", "256.1.1.1", "1.2.3.+4", "", " 1.2.3.4",
        "1:2:3:4:5:6:7", "1:2:3:4:5:6:7:8:9", "1::2::3", "12345::", ":::", "1:", ":1", "g::",
        "1.2.3.4::", "1:2:3:4:5:6:7:1.2.3.4", "::1.2.3",
    ] {
        assert_eq!(IpAddr::parse(text), None, "{text:?}");
    }
    assert_eq!(parse_ipv4("1.2.3.4"), Some(0x0102_0304));
    assert_eq!(parse_ipv6("::1"), Some(1));
    assert!(IpAddr::V4(0).is_unspecified() && IpAddr::V6(0).is_unspecified());
    assert!(!IpAddr::V4(1).is_unspecified());
}

#[test]
fn endpoints_are_read_strictly() {
    let v4 = |port: u16| SocketAddr { ip: IpAddr::V4(0x0A00_0001), port, scope_id: 0 };
    let v6 = |port: u16, scope_id: u32| SocketAddr { ip: IpAddr::V6(1), port, scope_id };
    for (text, want) in [
        ("10.0.0.1:80", v4(80)),
        ("10.0.0.1:080", v4(80)),
        ("[::1]:80", v6(80, 0)),
        ("[::1%5]:80", v6(80, 5)),
        ("[::1]:65535", v6(65535, 0)),
    ] {
        assert_eq!(SocketAddr::parse(text), Some(want), "{text:?}");
    }
    for text in [
        "10.0.0.1", "10.0.0.1:", "10.0.0.1:65536", "10.0.0.1:+80", "::1:80", "[::1]", "[::1]:",
        "[::1%x]:80", "[10.0.0.1]:80", "[::1%4294967296]:80", "10.0.0.1 :80", "[]:80", "[::1]80",
    ] {
        assert_eq!(SocketAddr::parse(text), None, "{text:?}");
    }
}

#[test]
fn a_list_of_addresses_names_its_first_bad_entry() {
    let list = |s: &str| parse_address_list(&Some(s.to_string()));
    assert_eq!(list(" 10.0.0.1 ,, ::1, "), Ok(vec![IpAddr::V4(0x0A00_0001), IpAddr::V6(1)]));
    assert_eq!(list("   "), Ok(vec![]));
    assert_eq!(list("10.0.0.1, nope ,worse"), Err("nope".to_string()));
    assert_eq!(parse_address_list(&None), Ok(vec![]));
}

#[test]
fn numbers_are_read_as_std_reads_them() {
    for text in ["0", "+7", "-7", "65535", "65536", "", "+", "0x1f", " 1", "1_0", "٣", "00012"] {
        assert_eq!(parse_u16(text), text.parse::<u16>().ok(), "{text:?}");
        assert_eq!(parse_u8(text), text.parse::<u8>().ok(), "{text:?}");
        assert_eq!(parse_i32(text), text.parse::<i32>().ok(), "{text:?}");
    }
    assert_eq!(parse_i32("-2147483648"), Some(i32::MIN));
    assert_eq!(parse_i32("2147483648"), None);
    for text in ["cafe", "CAFE", "+ff", "ffffffffffffffff", "10000000000000000", "g", ""] {
        assert_eq!(
            parse_radix(text, 16, u64::MAX),
            u64::from_str_radix(text, 16).ok(),
            "{text:?}"
        );
    }
    assert_eq!(to_decimal(u128::MAX), u128::MAX.to_string());
}

#[test]
fn text_is_cut_as_std_cuts_it() {
    for text in ["", "  a b\t", "\u{a0}x\u{3000}", "a,b,,c", ",", "0x0x12", "no"] {
        assert_eq!(trim(text), text.trim());
        assert_eq!(split(text, ','), text.split(',').map(String::from).collect::<Vec<_>>());
        assert_eq!(split_once(text, ','), text.split_once(','));
        assert_eq!(trim_prefixes(text, "0x"), text.trim_start_matches("0x"));
        assert_eq!(contains(text, "b"), text.contains("b"));
    }
    assert_eq!(entries(" a ,, b,", ','), vec!["a".to_string(), "b".to_string()]);
    let mut t = String::new();
    push_right(&mut t, "ab", 5);
    push_left(&mut t, "é", 3);
    push_right(&mut t, "long", 2);
    assert_eq!(t, format!("{:>5}{:<3}{:>2}", "ab", "é", "long"));
}

#[test]
fn fractions_are_read_and_written_in_thousandths() {
    assert_eq!(to_thousandths(5_500), "5.5");
    assert_eq!(to_thousandths(100_000), "100.0");
    assert_eq!(to_thousandths(1_234), "1.234");
    assert_eq!(to_thousandths(-1_050), "-1.05");
    assert_eq!(to_thousandths(7), "0.007");
    assert_eq!(parse_milli("1.8"), Some(1_800));
    assert_eq!(parse_milli("x"), None);
    assert_eq!(parse_front("54Mbps", 6), parse_front("54", 6));
    assert_eq!(parse_span("1m30s", false), 90);
    assert_eq!(parse_span("1w", true), 604_800);
}

#[test]
fn quotients_round_to_even() {
    assert_eq!(round_div(5, 2), 2);
    assert_eq!(round_div(7, 2), 4);
    assert_eq!(round_div(9, 4), 2);
    assert_eq!(round_div(11, 4), 3);
}

#[test]
fn sorting_orders_what_it_was_given() {
    let mut v = vec![5u64, 1, 4, 1, 3];
    sort_ascending(&mut v);
    assert_eq!(v, vec![1, 1, 3, 4, 5]);
}

#[test]
fn json_is_parsed_and_written() {
    let v = Json::parse(r#" {"b": [1, -2.50, "x\n", true, null], "a": {}} "#).unwrap();
    assert_eq!(v.render(), r#"{"a":{},"b":[1,-2.5,"x\n",true,null]}"#);
    assert_eq!(v.get("b").unwrap().row_count(), 5);
    assert_eq!(v.get("b").unwrap().row(0).as_u64(), Some(1));
    assert_eq!(v.get("b").unwrap().row(2).as_str(), Some("x\n"));
    assert!(v.get("c").is_none());
    let e = Json::parse("{").unwrap_err();
    assert!(e.contains("EOF"), "{e}");
    let l = Json::list(vec![Json::Bool(true), Json::text("t")]);
    assert_eq!(l.render(), r#"[true,"t"]"#);
    assert_eq!(Json::texts(&vec!["p".to_string(), "q".to_string()]).render(), r#"["p","q"]"#);
}

#[test]
fn decode_errors_say_what_is_wrong() {
    let said = |e: DecodeError| e.message();
    assert_eq!(
        said(DecodeError::TooShort { got: 20 }),
        "packet too short: 20 bytes, need at least 56"
    );
    assert_eq!(said(DecodeError::BadMagic { got: 0xA }), "bad magic 0x000A, expected 0x4D51");
    assert_eq!(
        said(DecodeError::UnsupportedVersion { got: 9 }),
        "unsupported protocol version 9, this agent speaks 1"
    );
    assert_eq!(said(DecodeError::UnknownType { got: 7 }), "unknown packet type 7");
    assert_eq!(said(DecodeError::UnknownFlags { got: 0x8000 }), "unknown flag bits set: 0x8000");
    assert_eq!(
        said(DecodeError::LengthMismatch { declared: 3, actual: 5 }),
        "payload_len declares 3 bytes but packet carries 5"
    );
    assert_eq!(
        said(DecodeError::BadChecksum { expected: 0x29B1, got: 1 }),
        "checksum mismatch: computed 0x29B1, header says 0x0001"
    );
    assert_eq!(
        TwampError::TooShort { got: 3, need: 14 }.message(),
        "TWAMP packet too short: 3 bytes, need at least 14"
    );
    assert_eq!(TwampError::TooLong { got: 1401 }.message(), "TWAMP packet too long: 1401 bytes");
}

#[test]
fn replies_of_the_router_are_judged_by_their_status() {
    let v = RouterOs::decode(200, "/ip/arp", r#"[{"address": "10.0.0.1"}]"#).unwrap();
    assert_eq!(v.row_count(), 1);
    assert_eq!(
        RouterOs::decode(401, "/ip/arp", "").err().unwrap().message(),
        "RouterOS rejected the credentials"
    );
    assert_eq!(
        RouterOs::decode(500, "/ip/arp", "oops").err().unwrap().message(),
        "RouterOS returned 500 for /ip/arp: oops"
    );
    assert!(matches!(RouterOs::decode(200, "/x", "{"), Err(RouterOsError::Decode(_))));
    assert_eq!(
        RouterOsError::Transport("gone".into()).message(),
        "transport error talking to RouterOS: gone"
    );
}

#[test]
fn codecs_are_scored_on_one_scale() {
    assert_eq!(Codec::G711.params_tenths(), (0, 43));
    assert_eq!(Codec::Opus.params_tenths(), (70, 220));
    assert!(Codec::G722.is_wideband() && !Codec::G729.is_wideband());
    assert_eq!(Codec::G711Plc.r_max_tenths(), 932);
    assert_eq!(Codec::Opus.r_max_tenths(), 1290);
    assert_eq!(Codec::parse("G722"), Some(Codec::G722));
    assert_eq!(Codec::parse("mp3"), None);
}
