use rustybgp::addr::{IpAddr, IpNet, SocketAddr};

#[test]
fn mapped_addresses_become_ipv4() {
    let at = |ip| SocketAddr { ip, port: 179 }.to_ipaddr();
    let a = 0xc000_0201u32;
    assert_eq!(IpAddr::V4(a), at(IpAddr::V4(a)));
    assert_eq!(IpAddr::V4(a), at(IpAddr::V6(0xffff_0000_0000u128 | a as u128)));
    assert_eq!(IpAddr::V6(a as u128), at(IpAddr::V6(a as u128)));
    assert_eq!(IpAddr::V6(1), at(IpAddr::V6(1)));
    let v6 = IpAddr::V6((0x2001_0db8u128 << 96) | a as u128);
    assert_eq!(v6, at(v6));
}

#[test]
fn octets_are_in_network_order() {
    assert_eq!(vec![192, 0, 2, 1], IpAddr::V4(0xc000_0201).octets());
    let v6 = IpAddr::V6(0x2001_0db8_0000_0000_0000_0000_0000_00ff);
    let o = v6.octets();
    assert_eq!(16, o.len());
    assert_eq!((0x20, 0x01, 0xff), (o[0], o[1], o[15]));
    assert_eq!(v6, IpAddr::from_v6_octets(&o));
    assert_eq!(IpAddr::V4(0xc000_0201), IpAddr::from_v4_octets(&vec![192, 0, 2, 1, 24]));
}

#[test]
fn prefixes_contain() {
    let n = IpNet { addr: IpAddr::V4(0x0a01_0200), mask: 23 };
    assert!(n.contains(IpAddr::V4(0x0a01_0200)));
    assert!(n.contains(IpAddr::V4(0x0a01_03ff)));
    assert!(!n.contains(IpAddr::V4(0x0a01_0400)));
    assert!(!n.contains(IpAddr::V6(0x0a01_0200)));
    assert!(!n.is_v6());
    let any = IpNet { addr: IpAddr::V4(0), mask: 0 };
    assert!(any.contains(IpAddr::V4(u32::MAX)));
    let one = IpNet { addr: IpAddr::V6(7), mask: 128 };
    assert!(one.contains(IpAddr::V6(7)));
    assert!(!one.contains(IpAddr::V6(6)));
    assert!(one.is_v6());
}
