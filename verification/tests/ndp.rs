use ping6_data::checksum::icmpv6_packet_checksum;
use ping6_data::ndp::{
    is_solicited_node_multicast, is_unspecified, make_solicited_node_multicast, parse_ndp_options,
    Advertisement, Solicitation,
};
use ping6_data::net::{Error, MacAddr};
use ping6_data::packet::read_u16_be;
use ping6_data::proxy::{admit_send, is_answered, log_err, log_if_err, select_prefix, Ipv6Prefix, PrefixConfig};

fn segs(s: [u16; 8]) -> [u8; 16] {
    let mut a = [0u8; 16];
    for i in 0..8 {
        a[2 * i] = (s[i] >> 8) as u8;
        a[2 * i + 1] = (s[i] & 0xff) as u8;
    }
    a
}

fn host() -> [u8; 16] {
    segs([0xfe80, 0, 0, 0, 0, 0, 0, 1])
}

fn target() -> [u8; 16] {
    segs([0x2001, 0xdb8, 0, 0, 0, 0, 0, 2])
}

const MAC: [u8; 6] = [2, 0, 0, 0, 0, 9];

fn solicitation_bytes(src: [u8; 16], dst: [u8; 16], tgt: [u8; 16], options: &[u8]) -> Vec<u8> {
    let mut m = vec![135u8, 0, 0, 0, 0, 0, 0, 0];
    m.extend_from_slice(&tgt);
    m.extend_from_slice(options);
    let cs = icmpv6_packet_checksum(&m, src, dst);
    m[2] = (cs >> 8) as u8;
    m[3] = (cs & 0xff) as u8;
    m
}

fn ll_option() -> Vec<u8> {
    let mut o = vec![1u8, 1];
    o.extend_from_slice(&MAC);
    o
}

#[test]
fn solicited_node_multicast_addresses() {
    let m = make_solicited_node_multicast(&target());
    assert_eq!(m, segs([0xff02, 0, 0, 0, 0, 1, 0xff00, 2]));
    assert!(is_solicited_node_multicast(&m));
    assert!(!is_solicited_node_multicast(&segs([0x2001, 0xdb8, 1, 1, 1, 2, 3, 4])));
    assert!(is_unspecified(&[0; 16]));
    assert!(!is_unspecified(&host()));
}

#[test]
fn a_valid_solicitation_parses() {
    let dst = make_solicited_node_multicast(&target());
    let msg = solicitation_bytes(host(), dst, target(), &ll_option());
    let s = Solicitation::parse(host(), dst, &msg).unwrap();
    assert_eq!(s.src, host());
    assert_eq!(s.dst, dst);
    assert_eq!(s.target, target());
    assert_eq!(s.ll_addr_opt, Some(MacAddr::new(2, 0, 0, 0, 0, 9)));
    let without = solicitation_bytes(host(), dst, target(), &[]);
    assert!(Solicitation::parse(host(), dst, &without).unwrap().ll_addr_opt.is_none());
}

#[test]
fn invalid_solicitations_are_dropped() {
    let dst = make_solicited_node_multicast(&target());
    let mut bad_sum = solicitation_bytes(host(), dst, target(), &ll_option());
    bad_sum[3] ^= 1;
    assert!(Solicitation::parse(host(), dst, &bad_sum).is_none());
    let mut twice = ll_option();
    twice.extend_from_slice(&ll_option());
    assert!(Solicitation::parse(host(), dst, &solicitation_bytes(host(), dst, target(), &twice)).is_none());
    let long_opt = vec![1u8, 2, 0, 0, 0, 0, 0, 0, 0, 0, 0, 0, 0, 0, 0, 0];
    assert!(Solicitation::parse(host(), dst, &solicitation_bytes(host(), dst, target(), &long_opt)).is_none());
    let multicast_target = segs([0xff02, 0, 0, 0, 0, 0, 0, 1]);
    assert!(Solicitation::parse(host(), dst, &solicitation_bytes(host(), dst, multicast_target, &[])).is_none());
    let unspecified = [0u8; 16];
    assert!(Solicitation::parse(unspecified, dst, &solicitation_bytes(unspecified, dst, target(), &[])).is_none());
    let short = solicitation_bytes(host(), dst, target(), &[]);
    assert!(Solicitation::parse(host(), dst, &short[..20]).is_none());
}

#[test]
fn ndp_options_are_cut_by_their_length() {
    let opts = parse_ndp_options(&[1, 1, 9, 9, 9, 9, 9, 9, 2, 0, 7]);
    assert_eq!(opts.len(), 2);
    assert_eq!(opts[0].option_type, 1);
    assert_eq!(opts[0].length, 1);
    assert_eq!(opts[0].data, vec![9; 6]);
    assert_eq!(opts[1].option_type, 2);
    assert!(opts[1].data.is_empty());
    assert!(parse_ndp_options(&[5]).is_empty());
    let cut = parse_ndp_options(&[3, 2, 1, 2, 3]);
    assert_eq!(cut.len(), 1);
    assert_eq!(cut[0].data, vec![1, 2, 3]);
}

#[test]
fn advertisement_answers_the_solicitation() {
    let dst = make_solicited_node_multicast(&target());
    let msg = solicitation_bytes(host(), dst, target(), &ll_option());
    let s = Solicitation::parse(host(), dst, &msg).unwrap();
    let mine = MacAddr::new(2, 1, 1, 1, 1, 1);
    let adv = Advertisement::reply_to(&s, mine);
    assert_eq!(adv.src, target());
    assert_eq!(adv.dst, host());
    let pkt = adv.solicited_to_packet(true, false);
    assert_eq!(pkt.len(), 32);
    assert_eq!(pkt[0], 136);
    assert_eq!(pkt[4], 0x40 | 0x20);
    assert_eq!(&pkt[8..24], &target());
    assert_eq!(&pkt[24..26], &[2, 1]);
    assert_eq!(&pkt[26..32], mine.as_bytes());
    assert_eq!(read_u16_be(&pkt, 2), icmpv6_packet_checksum(&pkt, target(), host()));
    assert_eq!(adv.solicited_to_packet(false, true)[4], 0x40 | 0x80);
}

fn prefix(network: [u8; 16], netmask: u8) -> PrefixConfig {
    PrefixConfig {
        prefix: Ipv6Prefix { network, netmask },
        router_flag: false,
        reply_unconditionally: false,
        override_flag: true,
    }
}

#[test]
fn prefix_selection() {
    let net = segs([0x2001, 0xdb8, 0, 0, 0, 0, 0, 0]);
    let p = Ipv6Prefix { network: net, netmask: 64 };
    assert!(p.contains(&target()));
    assert!(!p.contains(&host()));
    assert!(!p.contains(&segs([0x2001, 0xdb8, 0, 1, 0, 0, 0, 2])));
    let prefixes = vec![prefix(segs([0xfe80, 0, 0, 0, 0, 0, 0, 0]), 10), prefix(net, 64)];
    assert_eq!(select_prefix(&host(), &target(), &prefixes), Some(1));
    assert_eq!(select_prefix(&[0; 16], &target(), &prefixes), None);
    assert_eq!(select_prefix(&host(), &segs([0x2002, 0, 0, 0, 0, 0, 0, 1]), &prefixes), None);
}

#[test]
fn answering_rules() {
    let dst = make_solicited_node_multicast(&target());
    let msg = solicitation_bytes(host(), dst, target(), &ll_option());
    let s = Solicitation::parse(host(), dst, &msg).unwrap();
    let net = segs([0x2001, 0xdb8, 0, 0, 0, 0, 0, 0]);
    assert!(is_answered(&s, &Ipv6Prefix { network: net, netmask: 64 }));
    assert!(is_answered(&s, &Ipv6Prefix { network: net, netmask: 120 }));
    let far = segs([0x2001, 0xdb8, 0, 0, 0, 0, 1, 2]);
    let far_dst = make_solicited_node_multicast(&far);
    let s2 = Solicitation::parse(host(), far_dst, &solicitation_bytes(host(), far_dst, far, &ll_option())).unwrap();
    assert!(!is_answered(&s2, &Ipv6Prefix { network: net, netmask: 120 }));
    let no_ll = Solicitation::parse(host(), dst, &solicitation_bytes(host(), dst, target(), &[])).unwrap();
    assert!(!is_answered(&no_ll, &Ipv6Prefix { network: net, netmask: 64 }));
    let unicast = segs([0x2001, 0xdb8, 5, 5, 5, 5, 5, 5]);
    let nud = Solicitation::parse(host(), unicast, &solicitation_bytes(host(), unicast, target(), &[]));
    assert!(nud.is_none());
}

#[test]
fn queueing_limit() {
    assert!(admit_send(41, 42));
    assert!(!admit_send(42, 42));
}

#[test]
fn error_chains_are_joined() {
    let causes = vec!["io error".to_string(), "no such file".to_string()];
    assert_eq!(log_err(&causes), "io error: no such file");
    assert_eq!(log_err(&["one".to_string()]), "one");
    assert_eq!(log_err(&[]), "");
    assert_eq!(log_if_err::<u8>(Ok(1)), None);
    assert_eq!(log_if_err::<u8>(Err(causes)), Some("io error: no such file".to_string()));
}

#[test]
fn link_layer_addresses() {
    assert_eq!(MacAddr::from_bytes(&[1, 2, 3, 4, 5, 6]), Ok(MacAddr::new(1, 2, 3, 4, 5, 6)));
    assert_eq!(MacAddr::from_bytes(&[1, 2, 3]), Err(Error::WrongSize));
    assert_eq!(MacAddr::new(1, 2, 3, 4, 5, 6).as_bytes(), &[1, 2, 3, 4, 5, 6]);
}
