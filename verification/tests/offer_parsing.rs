use mahou::downloader::irc::{parse_address_text, parse_dcc_send, IpAddress};

#[test]
fn quoted_offer_parses_to_v4_address() {
    let line = "DCC SEND \"ep01.mkv\" 3232235777 50321 104857600";
    let offer = parse_dcc_send(line).expect("offer should parse");
    assert_eq!(offer.filename, "ep01.mkv");
    assert_eq!(offer.ip, IpAddress::V4(192, 168, 1, 1));
    assert_eq!(offer.port, 50321);
    assert_eq!(offer.file_size, 104857600);
}

#[test]
fn unquoted_offer_with_terminator() {
    let line = ":bot PRIVMSG me :DCC SEND file.bin 16909060 6667 42\r\n";
    let offer = parse_dcc_send(line).expect("offer should parse");
    assert_eq!(offer.filename, "file.bin");
    assert_eq!(offer.ip, IpAddress::V4(1, 2, 3, 4));
    assert_eq!(offer.port, 6667);
    assert_eq!(offer.file_size, 42);
}

#[test]
fn quoted_filename_may_contain_spaces() {
    let line = "DCC SEND \"my show 01.mkv\" 1 1 1";
    let offer = parse_dcc_send(line).expect("offer should parse");
    assert_eq!(offer.filename, "my show 01.mkv");
    assert_eq!(offer.ip, IpAddress::V4(0, 0, 0, 1));
}

#[test]
fn ipv6_loopback_offer() {
    let line = "DCC SEND file.bin ::1 5000 7\r\n";
    let offer = parse_dcc_send(line).expect("offer should parse");
    assert_eq!(offer.ip, IpAddress::V6(0, 0, 0, 0, 0, 0, 0, 1));
}

#[test]
fn ipv6_full_and_compressed_forms() {
    let a = parse_address_text("2001:db8:0:0:0:0:0:1").expect("full form");
    let b = parse_address_text("2001:db8::1").expect("compressed form");
    assert_eq!(a, b);
    assert_eq!(a, IpAddress::V6(0x2001, 0xdb8, 0, 0, 0, 0, 0, 1));
}

#[test]
fn ipv6_renders_back_to_equivalent_text() {
    let a = parse_address_text("fe80::a:1").expect("address");
    let text = a.to_text();
    assert_eq!(text, "fe80:0:0:0:0:0:a:1");
    let again = parse_address_text(&text).expect("rendered text parses");
    assert_eq!(a, again);
}

#[test]
fn v4_decimal_renders_to_dotted_quad() {
    let a = parse_address_text("3232235777").expect("address");
    assert_eq!(a.to_text(), "192.168.1.1");
}

#[test]
fn v4_integer_too_large_is_rejected() {
    assert!(parse_address_text("4294967296").is_none());
    assert!(parse_dcc_send("DCC SEND f 4294967296 1 1").is_none());
}

#[test]
fn address_without_known_shape_is_rejected() {
    assert!(parse_address_text("example.com").is_none());
    assert!(parse_address_text("1:2").is_none());
    assert!(parse_address_text(":::").is_none());
    assert!(parse_address_text("1:2:3:4:5:6:7:8:9").is_none());
    assert!(parse_dcc_send("DCC SEND f example.com 1 1").is_none());
}

#[test]
fn malformed_offers_are_rejected() {
    assert!(parse_dcc_send("DCC SEND \"unterminated 1 1 1").is_none());
    assert!(parse_dcc_send("DCC SEND f 1 70000 1").is_none());
    assert!(parse_dcc_send("DCC SEND f 1 1").is_none());
    assert!(parse_dcc_send("DCC SEND f 1 1 x").is_none());
    assert!(parse_dcc_send("no offer here").is_none());
}

#[test]
fn size_digits_may_be_followed_by_noise() {
    let offer = parse_dcc_send("DCC SEND f 1 1 99\r\n").expect("offer should parse");
    assert_eq!(offer.file_size, 99);
}
