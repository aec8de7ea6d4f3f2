use sirang::addr::{IpAddress, SocketAddress};

fn v4(a: u8, b: u8, c: u8, d: u8, port: u16) -> SocketAddress {
    SocketAddress { ip: IpAddress::V4(a, b, c, d), port }
}

#[test]
fn v4_text_is_dotted_decimal() {
    assert_eq!(v4(127, 0, 0, 1, 5050).to_text(), b"127.0.0.1:5050".to_vec());
    assert_eq!(v4(0, 0, 0, 0, 0).to_text(), b"0.0.0.0:0".to_vec());
    assert_eq!(
        v4(255, 255, 255, 255, 65535).to_text(),
        b"255.255.255.255:65535".to_vec()
    );
}

#[test]
fn v6_text_is_bracketed_hex_groups() {
    let sa = SocketAddress {
        ip: IpAddress::V6(0, 0, 0, 0, 0, 0, 0, 1),
        port: 8080,
    };
    assert_eq!(sa.to_text(), b"[0:0:0:0:0:0:0:1]:8080".to_vec());

    let sa = SocketAddress {
        ip: IpAddress::V6(0xdb8, 0xffff, 0, 1, 0xabc, 0xdef, 10, 0x1e),
        port: 443,
    };
    assert_eq!(sa.to_text(), b"[db8:ffff:0:1:abc:def:a:1e]:443".to_vec());
}

#[test]
fn text_round_trips() {
    let cases = vec![
        v4(127, 0, 0, 1, 5050),
        v4(0, 0, 0, 0, 0),
        v4(255, 255, 255, 255, 65535),
        SocketAddress { ip: IpAddress::V6(0, 0, 0, 0, 0, 0, 0, 0), port: 1 },
        SocketAddress {
            ip: IpAddress::V6(0xffff, 0xfffe, 0xabcd, 1, 2, 3, 4, 5),
            port: 65535,
        },
    ];
    for sa in cases {
        assert_eq!(SocketAddress::from_text(&sa.to_text()), Some(sa));
    }
}

#[test]
fn from_text_reads_plain_forms() {
    assert_eq!(
        SocketAddress::from_text(&b"10.20.30.40:4433".to_vec()),
        Some(v4(10, 20, 30, 40, 4433))
    );
    // Leading zeros are read by value.
    assert_eq!(
        SocketAddress::from_text(&b"007.0.0.1:080".to_vec()),
        Some(v4(7, 0, 0, 1, 80))
    );
    assert_eq!(
        SocketAddress::from_text(&b"[db8:0:0:0:0:0:0:1]:443".to_vec()),
        Some(SocketAddress {
            ip: IpAddress::V6(0xdb8, 0, 0, 0, 0, 0, 0, 1),
            port: 443,
        })
    );
    // Hexadecimal groups are read in either letter case.
    assert_eq!(
        SocketAddress::from_text(&b"[DB8:FFFF:0:1:aB:Cd:E:F]:443".to_vec()),
        Some(SocketAddress {
            ip: IpAddress::V6(0xdb8, 0xffff, 0, 1, 0xab, 0xcd, 0xe, 0xf),
            port: 443,
        })
    );
}

#[test]
fn from_text_rejects_malformed_input() {
    let bad: Vec<&[u8]> = vec![
        b"",
        b"abc",
        b"1.2.3.4",
        b"1.2.3:80",
        b"1.2.3.4.5:80",
        b"256.0.0.1:80",
        b"1.2.3.4:65536",
        b"1.2.3.4:",
        b":80",
        b"1.2.3.4:80:81",
        b"[0:0:0:0:0:0:0:1]8080",
        b"[0:0:0:0:0:0:1]:80",
        b"[0:0:0:0:0:0:0:1:2]:80",
        b"[0:0:0:0:0:0:0:10000]:80",
        b"[g:0:0:0:0:0:0:1]:80",
        b"[0:0:0:0:0:0:0:1:80",
    ];
    for text in bad {
        assert_eq!(
            SocketAddress::from_text(&text.to_vec()),
            None,
            "text {:?} must not parse",
            text
        );
    }
}
