use ping6_data::checksum::icmpv6_packet_checksum;
use ping6_data::ndp::{make_solicited_node_multicast, Solicitation};
use ping6_data::net::MacAddr;
use ping6_data::proxy::{proxied_solicitation, Ipv6Prefix, PrefixConfig};
use ping6_data::proxy_config::{su_names, DEFAULT_MAX_QUEUED};
use ping6_data::proxy_errors::Error;

fn segs(s: [u16; 8]) -> [u8; 16] {
    let mut a = [0u8; 16];
    for i in 0..8 {
        a[2 * i] = (s[i] >> 8) as u8;
        a[2 * i + 1] = (s[i] & 0xff) as u8;
    }
    a
}

fn host() -> [u8; 16] {
    segs([0xfe80, 0, 0, 0, 0, 0, 0, 1])
}

fn target() -> [u8; 16] {
    segs([0x2001, 0xdb8, 0, 0, 0, 0, 0, 2])
}

fn solicitation_bytes(src: [u8; 16], dst: [u8; 16], tgt: [u8; 16], options: &[u8]) -> Vec<u8> {
    let mut m = vec![135u8, 0, 0, 0, 0, 0, 0, 0];
    m.extend_from_slice(&tgt);
    m.extend_from_slice(options);
    let cs = icmpv6_packet_checksum(&m, src, dst);
    m[2] = (cs >> 8) as u8;
    m[3] = (cs & 0xff) as u8;
    m
}

fn ll_option() -> Vec<u8> {
    vec![1u8, 1, 2, 0, 0, 0, 0, 9]
}

/// An IPv6 packet whose header gives `payload_len` as the payload length,
/// followed by `rest`.
fn frame(src: [u8; 16], dst: [u8; 16], payload_len: u16, rest: &[u8]) -> Vec<u8> {
    let mut f = vec![0x60u8, 0, 0, 0, (payload_len >> 8) as u8, (payload_len & 0xff) as u8, 58, 255];
    f.extend_from_slice(&src);
    f.extend_from_slice(&dst);
    f.extend_from_slice(rest);
    f
}

fn prefix(network: [u8; 16], netmask: u8) -> PrefixConfig {
    PrefixConfig {
        prefix: Ipv6Prefix { network, netmask },
        router_flag: false,
        reply_unconditionally: false,
        override_flag: true,
    }
}

#[test]
fn a_frame_gives_its_solicitation() {
    let dst = make_solicited_node_multicast(&target());
    let msg = solicitation_bytes(host(), dst, target(), &ll_option());
    let f = frame(host(), dst, msg.len() as u16, &msg);
    let s = Solicitation::parse_frame(&f).unwrap();
    assert_eq!(s.src, host());
    assert_eq!(s.dst, dst);
    assert_eq!(s.target, target());
    assert_eq!(s.ll_addr_opt, Some(MacAddr::new(2, 0, 0, 0, 0, 9)));
}

#[test]
fn a_frame_shorter_than_the_header_gives_nothing() {
    let f = frame(host(), host(), 0, &[]);
    assert!(Solicitation::parse_frame(&f[..39]).is_none());
}

#[test]
fn the_payload_ends_where_the_header_says() {
    let dst = make_solicited_node_multicast(&target());
    let msg = solicitation_bytes(host(), dst, target(), &[]);
    let mut rest = msg.clone();
    rest.extend_from_slice(&[7, 7, 7, 7, 7, 7, 7, 7]);
    let f = frame(host(), dst, msg.len() as u16, &rest);
    assert!(Solicitation::parse_frame(&f).is_some());
    let whole = frame(host(), dst, rest.len() as u16, &rest);
    assert!(Solicitation::parse_frame(&whole).is_none());
    let short = frame(host(), dst, 20, &msg);
    assert!(Solicitation::parse_frame(&short).is_none());
}

#[test]
fn an_address_resolution_under_a_prefix_is_proxied() {
    let dst = make_solicited_node_multicast(&target());
    let msg = solicitation_bytes(host(), dst, target(), &ll_option());
    let f = frame(host(), dst, msg.len() as u16, &msg);
    let prefixes = vec![
        prefix(segs([0x2001, 0xdb9, 0, 0, 0, 0, 0, 0]), 64),
        prefix(segs([0x2001, 0xdb8, 0, 0, 0, 0, 0, 0]), 64),
    ];
    let (s, i) = proxied_solicitation(&f, &prefixes).unwrap();
    assert_eq!(i, 1);
    assert_eq!(s.target, target());
}

#[test]
fn solicitations_that_are_not_proxied() {
    let dst = make_solicited_node_multicast(&target());
    let prefixes = vec![prefix(segs([0x2001, 0xdb8, 0, 0, 0, 0, 0, 0]), 64)];
    let without_ll = solicitation_bytes(host(), dst, target(), &[]);
    let f = frame(host(), dst, without_ll.len() as u16, &without_ll);
    assert!(proxied_solicitation(&f, &prefixes).is_none());
    let other = vec![prefix(segs([0x2001, 0xdb9, 0, 0, 0, 0, 0, 0]), 64)];
    let msg = solicitation_bytes(host(), dst, target(), &ll_option());
    let g = frame(host(), dst, msg.len() as u16, &msg);
    assert!(proxied_solicitation(&g, &other).is_none());
    let inside = segs([0x2001, 0xdb8, 0, 0, 0, 0, 0, 5]);
    let from_inside = solicitation_bytes(inside, dst, target(), &ll_option());
    let h = frame(inside, dst, from_inside.len() as u16, &from_inside);
    assert!(proxied_solicitation(&h, &prefixes).is_none());
}

fn chars(s: &str) -> Vec<char> {
    s.chars().collect()
}

#[test]
fn su_settings_name_a_user_and_a_group() {
    assert_eq!(su_names(&chars("nobody")), Some((chars("nobody"), chars("nobody"))));
    assert_eq!(su_names(&chars("nobody:nogroup")), Some((chars("nobody"), chars("nogroup"))));
    assert_eq!(su_names(&chars("nobody:")), Some((chars("nobody"), chars("nobody"))));
    assert_eq!(su_names(&chars(":")), Some((chars(""), chars(""))));
    assert_eq!(su_names(&chars("a:b:c")), None);
    assert_eq!(su_names(&chars("a::")), None);
    assert_eq!(DEFAULT_MAX_QUEUED, 42);
}

#[test]
fn proxy_errors_name_their_causes() {
    let e = Error::AlreadyRunning { filename: "/run/rsndpproxy.pid".to_string() };
    assert_eq!(e.message(), "another instance already running: failed locking /run/rsndpproxy.pid");
    assert_eq!(e.causes().len(), 1);
    let f = Error::FileIo { name: "/etc/rsndpproxy.conf".to_string(), cause: "denied".to_string() };
    assert_eq!(f.causes(), vec!["io error on file /etc/rsndpproxy.conf".to_string(), "denied".to_string()]);
    assert_eq!(Error::PrivDrop { cause: "x".to_string() }.message(), "privilege dropping error");
    assert_eq!(Error::SecurebitsError { cause: "x".to_string() }.message(), "setting securebits failed");
    assert_eq!(Error::SignalIOError { cause: "x".to_string() }.message(), "waiting for signal failed");
    assert_eq!(Error::LinuxNetworkError { cause: "x".to_string() }.message(), "io error");
}

#[test]
fn link_layer_addresses_print_as_hex_pairs() {
    assert_eq!(MacAddr::new(2, 0, 0x1f, 0xa0, 0, 0x9b).to_text(), "02:00:1f:a0:00:9b");
    assert_eq!(MacAddr::new(0xff, 0xff, 0xff, 0xff, 0xff, 0xff).to_text(), "ff:ff:ff:ff:ff:ff");
}
