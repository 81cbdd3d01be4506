use bt_tracker::ip::{IpAddress, IpAddressDecodeError};

#[test]
fn parses_dotted_quads() {
    assert_eq!(IpAddress::parse("127.0.0.1"), Ok(IpAddress::V4(127, 0, 0, 1)));
    assert_eq!(IpAddress::parse("0.0.0.0"), Ok(IpAddress::V4(0, 0, 0, 0)));
    assert_eq!(IpAddress::parse("255.255.255.255"), Ok(IpAddress::V4(255, 255, 255, 255)));
    assert_eq!(IpAddress::parse("192.168.10.7"), Ok(IpAddress::V4(192, 168, 10, 7)));
}

#[test]
fn rejects_malformed_dotted_quads() {
    for text in [
        "", "1", "1.2.3", "1.2.3.4.5", "256.0.0.1", "1.2.3.256", "01.2.3.4", "1.2.3.04",
        "1..2.3", ".1.2.3", "1.2.3.4.", "1.2.3.4 ", " 1.2.3.4", "1.2.3.a", "1,2,3,4",
        "0001.2.3.4", "1.2.3.1000", "localhost", "1.2.3.-4", "\u{661}.2.3.4",
    ] {
        assert_eq!(IpAddress::parse(text), Err(IpAddressDecodeError), "{:?}", text);
    }
}

#[test]
fn parses_full_version_six_literals() {
    assert_eq!(
        IpAddress::parse("2001:db8:85a3:0:0:8a2e:370:7334"),
        Ok(IpAddress::V6(0x2001, 0xdb8, 0x85a3, 0, 0, 0x8a2e, 0x370, 0x7334))
    );
    assert_eq!(
        IpAddress::parse("2001:0DB8:85A3:0000:0000:8A2E:0370:7334"),
        Ok(IpAddress::V6(0x2001, 0xdb8, 0x85a3, 0, 0, 0x8a2e, 0x370, 0x7334))
    );
    assert_eq!(
        IpAddress::parse("ffff:ffff:ffff:ffff:ffff:ffff:ffff:ffff"),
        Ok(IpAddress::V6(0xffff, 0xffff, 0xffff, 0xffff, 0xffff, 0xffff, 0xffff, 0xffff))
    );
}

#[test]
fn parses_shortened_version_six_literals() {
    assert_eq!(IpAddress::parse("::"), Ok(IpAddress::V6(0, 0, 0, 0, 0, 0, 0, 0)));
    assert_eq!(IpAddress::parse("::1"), Ok(IpAddress::V6(0, 0, 0, 0, 0, 0, 0, 1)));
    assert_eq!(IpAddress::parse("1::"), Ok(IpAddress::V6(1, 0, 0, 0, 0, 0, 0, 0)));
    assert_eq!(
        IpAddress::parse("2001:db8::8a2e:370:7334"),
        Ok(IpAddress::V6(0x2001, 0xdb8, 0, 0, 0, 0x8a2e, 0x370, 0x7334))
    );
    assert_eq!(
        IpAddress::parse("1:2:3:4:5:6:7::"),
        Ok(IpAddress::V6(1, 2, 3, 4, 5, 6, 7, 0))
    );
    assert_eq!(
        IpAddress::parse("::2:3:4:5:6:7:8"),
        Ok(IpAddress::V6(0, 2, 3, 4, 5, 6, 7, 8))
    );
}

#[test]
fn parses_version_six_literals_that_end_in_a_dotted_quad() {
    assert_eq!(
        IpAddress::parse("::ffff:192.0.2.128"),
        Ok(IpAddress::V6(0, 0, 0, 0, 0, 0xffff, 0xc000, 0x0280))
    );
    assert_eq!(
        IpAddress::parse("::1.2.3.4"),
        Ok(IpAddress::V6(0, 0, 0, 0, 0, 0, 0x0102, 0x0304))
    );
    assert_eq!(
        IpAddress::parse("1:2:3:4:5:6:7.8.9.10"),
        Ok(IpAddress::V6(1, 2, 3, 4, 5, 6, 0x0708, 0x090a))
    );
    assert_eq!(
        IpAddress::parse("64:ff9b::10.0.0.1"),
        Ok(IpAddress::V6(0x64, 0xff9b, 0, 0, 0, 0, 0x0a00, 0x0001))
    );
}

#[test]
fn rejects_malformed_version_six_literals() {
    for text in [
        ":", ":::", "1:2:3:4:5:6:7", "1:2:3:4:5:6:7:8:9", "1:2:3:4:5:6:7:8::", "::1:2:3:4:5:6:7:8",
        "1::2::3", "12345::", "::12345", "g::", "1:2:3:4:5:6:7:1.2.3.4", "1.2.3.4::",
        "::1.2.3.4:5", "1:2:3:4:5:6:7.8.9", "::1 ", "[::1]", "::1%eth0", "1:2:3:4:5:6:7:",
        ":1:2:3:4:5:6:7", "::ffff:256.0.0.1", "::ffff:01.2.3.4",
    ] {
        assert_eq!(IpAddress::parse(text), Err(IpAddressDecodeError), "{:?}", text);
    }
}

#[test]
fn writes_dotted_quads() {
    assert_eq!(IpAddress::V4(127, 0, 0, 1).to_text(), "127.0.0.1");
    assert_eq!(IpAddress::V4(0, 0, 0, 0).to_text(), "0.0.0.0");
    assert_eq!(IpAddress::V4(255, 10, 99, 100).to_text(), "255.10.99.100");
}

#[test]
fn writes_version_six_literals() {
    assert_eq!(IpAddress::V6(0, 0, 0, 0, 0, 0, 0, 0).to_text(), "::");
    assert_eq!(IpAddress::V6(0, 0, 0, 0, 0, 0, 0, 1).to_text(), "::1");
    assert_eq!(IpAddress::V6(1, 0, 0, 0, 0, 0, 0, 0).to_text(), "1::");
    assert_eq!(
        IpAddress::V6(0x2001, 0xdb8, 0x85a3, 0, 0, 0x8a2e, 0x370, 0x7334).to_text(),
        "2001:db8:85a3::8a2e:370:7334"
    );
    assert_eq!(IpAddress::V6(1, 2, 3, 4, 5, 6, 7, 8).to_text(), "1:2:3:4:5:6:7:8");
    assert_eq!(IpAddress::V6(1, 0, 3, 4, 5, 6, 7, 8).to_text(), "1:0:3:4:5:6:7:8");
    assert_eq!(IpAddress::V6(1, 0, 0, 4, 0, 0, 7, 8).to_text(), "1::4:0:0:7:8");
    assert_eq!(IpAddress::V6(1, 0, 0, 4, 0, 0, 0, 8).to_text(), "1:0:0:4::8");
    assert_eq!(IpAddress::V6(0xabcd, 0xef, 0xf, 0x1000, 0, 0, 0, 0).to_text(), "abcd:ef:f:1000::");
}

#[test]
fn writes_mapped_addresses_with_a_dotted_quad() {
    assert_eq!(
        IpAddress::V6(0, 0, 0, 0, 0, 0xffff, 0xc000, 0x0280).to_text(),
        "::ffff:192.0.2.128"
    );
    assert_eq!(IpAddress::V6(0, 0, 0, 0, 0, 0, 0x0102, 0x0304).to_text(), "::102:304");
}

#[test]
fn addresses_read_back_from_their_text() {
    let addresses = [
        IpAddress::V4(0, 0, 0, 0),
        IpAddress::V4(9, 10, 99, 100),
        IpAddress::V4(255, 255, 255, 255),
        IpAddress::V6(0, 0, 0, 0, 0, 0, 0, 0),
        IpAddress::V6(0, 0, 0, 0, 0, 0, 0, 1),
        IpAddress::V6(1, 0, 0, 0, 0, 0, 0, 0),
        IpAddress::V6(0, 0, 0, 0, 0, 0xffff, 0x7f00, 1),
        IpAddress::V6(0, 0, 0, 0, 0, 0xfffe, 0x7f00, 1),
        IpAddress::V6(0, 1, 0, 0, 1, 0, 0, 0),
        IpAddress::V6(0xf, 0xff, 0xfff, 0xffff, 0x10, 0x100, 0x1000, 0),
        IpAddress::V6(0, 0, 3, 0, 0, 0, 7, 0),
        IpAddress::V6(1, 2, 3, 4, 5, 6, 0, 0),
    ];
    for address in addresses {
        assert_eq!(IpAddress::parse(&address.to_text()), Ok(address), "{:?}", address);
    }
}
