//! Neighbor Discovery proxying: which neighbor solicitations are answered
//! on behalf of the hosts of a configured prefix, and the neighbor
//! advertisement sent in reply.  Addresses are held as their 16 octets.

use vstd::prelude::*;

use crate::checksum::{icmpv6_checksum, icmpv6_packet_checksum, MAX_CHECKSUMMED_LEN};
use crate::net::MacAddr;
use pnet_packet::Packet;
use crate::packet::{append_bytes, be16, read_u16_be, set_icmpv6_checksum, with_icmpv6_checksum};

verus! {

/// ICMPv6 type of a neighbor solicitation.
pub const NEIGHBOR_SOLICIT: u8 = 135;

/// ICMPv6 type of a neighbor advertisement.
pub const NEIGHBOR_ADVERT: u8 = 136;

/// Size of a neighbor advertisement without options.
pub const NEIGHBOR_ADVERT_SIZE: usize = 24;

/// Size of the target link-layer address option.
pub const NEIGHBOR_ADVERT_LL_ADDR_OPTION_SIZE: usize = 8;

/// NDP option type of a source link-layer address.
pub const SOURCE_LL_ADDR: u8 = 1;

/// NDP option type of a target link-layer address.
pub const TARGET_LL_ADDR: u8 = 2;

/// Neighbor advertisement flag: the sender is a router.
pub const ADVERT_ROUTER: u8 = 0x80;

/// Neighbor advertisement flag: the advertisement answers a solicitation.
pub const ADVERT_SOLICITED: u8 = 0x40;

/// Neighbor advertisement flag: the advertisement overrides a cached entry.
pub const ADVERT_OVERRIDE: u8 = 0x20;

/// The 16-bit group `i` of an address.
pub open spec fn segment(a: [u8; 16], i: int) -> u16 {
    be16(a@[2 * i], a@[2 * i + 1])
}

/// The address is `::`.
pub open spec fn is_unspecified_spec(a: [u8; 16]) -> bool {
    forall|i: int| 0 <= i < 16 ==> a@[i] == 0
}

/// The address is `::`.
pub fn is_unspecified(a: &[u8; 16]) -> (res: bool)
    ensures
        res == is_unspecified_spec(*a),
{
    let mut i: usize = 0;
    while i < 16
        invariant
            i <= 16,
            forall|j: int| 0 <= j < i ==> a@[j] == 0,
        decreases 16 - i,
    {
        if a[i] != 0 {
            return false;
        }
        i = i + 1;
    }
    true
}

/// The test of `is_solicited_node_multicast`: the first group is ff02, or
/// any of groups one to four is zero, or group five is one, or the high
/// byte of group six is ff.
pub open spec fn solicited_node_multicast_test(a: [u8; 16]) -> bool {
    ||| segment(a, 0) == 0xff02
    ||| segment(a, 1) == 0
    ||| segment(a, 2) == 0
    ||| segment(a, 3) == 0
    ||| segment(a, 4) == 0
    ||| segment(a, 5) == 1
    ||| segment(a, 6) / 256 == 0xff
}

/// The proxy's test for a solicited-node multicast destination: any one of
/// the group conditions of `solicited_node_multicast_test` suffices, so it
/// also accepts addresses that are not solicited-node multicast (such as
/// 2001:db8::1, whose third group is zero); every solicited-node multicast
/// address passes it (`lemma_solicited_node_multicast_recognized`).
pub fn is_solicited_node_multicast(addr: &[u8; 16]) -> (res: bool)
    ensures
        res == solicited_node_multicast_test(*addr),
{
    let s0 = read_u16_be(addr, 0);
    let s1 = read_u16_be(addr, 2);
    let s2 = read_u16_be(addr, 4);
    let s3 = read_u16_be(addr, 6);
    let s4 = read_u16_be(addr, 8);
    let s5 = read_u16_be(addr, 10);
    let s6 = read_u16_be(addr, 12);
    s0 == 0xff02 || s1 == 0 || s2 == 0 || s3 == 0 || s4 == 0 || s5 == 1 || s6 / 256 == 0xff
}

/// The solicited-node multicast address of `a`: ff02::1:ff00:0 with the
/// low 24 bits of `a`.
pub open spec fn solicited_node_multicast(a: [u8; 16]) -> Seq<u8> {
    seq![0xffu8, 0x02, 0, 0, 0, 0, 0, 0, 0, 0, 0, 0x01, 0xff, a@[13], a@[14], a@[15]]
}

/// The solicited-node multicast address of `addr`.
pub fn make_solicited_node_multicast(addr: &[u8; 16]) -> (res: [u8; 16])
    ensures
        res@ == solicited_node_multicast(*addr),
{
    let res = [0xffu8, 0x02, 0, 0, 0, 0, 0, 0, 0, 0, 0, 0x01, 0xff, addr[13], addr[14], addr[15]];
    proof {
        assert(res@ =~= solicited_node_multicast(*addr));
    }
    res
}

/// An NDP option: its type, its length field (in units of eight octets)
/// and its data.
pub struct NdpOption {
    pub option_type: u8,
    pub length: u8,
    pub data: Vec<u8>,
}

/// Size of an option, header included, as its length field announces it
/// (an option that announces no length takes its two header bytes).
pub open spec fn ndp_option_size(length: u8) -> int {
    if length > 0 {
        length * 8
    } else {
        2
    }
}

/// The options read from `b`, first to last: each takes the size its
/// length field announces, cut short at the end of `b`; a trailing byte
/// that cannot hold an option header is ignored.
pub open spec fn ndp_options(b: Seq<u8>) -> Seq<(u8, u8, Seq<u8>)>
    decreases b.len(),
{
    if b.len() < 2 {
        Seq::empty()
    } else {
        let size = ndp_option_size(b[1]);
        let end = if size < b.len() { size } else { b.len() as int };
        seq![(b[0], b[1], b.subrange(2, end))] + ndp_options(b.skip(end))
    }
}

/// The options as plain values.
pub open spec fn option_views(v: Seq<NdpOption>) -> Seq<(u8, u8, Seq<u8>)> {
    v.map_values(|o: NdpOption| (o.option_type, o.length, o.data@))
}

/// Reads the options in `b`.
pub fn parse_ndp_options(b: &[u8]) -> (res: Vec<NdpOption>)
    ensures
        option_views(res@) == ndp_options(b@),
{
    let mut res: Vec<NdpOption> = Vec::new();
    let mut pos: usize = 0;
    proof {
        assert(b@.skip(0) =~= b@);
        assert(option_views(res@) + ndp_options(b@) =~= ndp_options(b@));
    }
    while b.len() - pos >= 2
        invariant
            pos <= b@.len(),
            option_views(res@) + ndp_options(b@.skip(pos as int)) == ndp_options(b@),
        decreases b@.len() - pos,
    {
        let ghost rest = b@.skip(pos as int);
        let length = b[pos + 1];
        let size: usize = if length > 0 {
            length as usize * 8
        } else {
            2
        };
        let remaining = b.len() - pos;
        let end = if size < remaining {
            size
        } else {
            remaining
        };
        let mut data: Vec<u8> = Vec::new();
        append_bytes(&mut data, vstd::slice::slice_subrange(b, pos + 2, pos + end));
        let ghost before = res@;
        res.push(NdpOption { option_type: b[pos], length, data });
        proof {
            assert(rest[0] == b@[pos as int]);
            assert(rest[1] == length);
            assert(rest.subrange(2, end as int) =~= b@.subrange(pos + 2, pos + end));
            assert(rest.skip(end as int) =~= b@.skip(pos + end));
            assert(option_views(res@) =~= option_views(before).push(
                (b@[pos as int], length, rest.subrange(2, end as int)),
            ));
            assert(ndp_options(rest) == seq![(rest[0], rest[1], rest.subrange(2, end as int))]
                + ndp_options(rest.skip(end as int)));
            assert(option_views(res@) + ndp_options(b@.skip(pos + end)) =~= option_views(before)
                + ndp_options(rest));
        }
        pos = pos + end;
    }
    proof {
        assert(b@.skip(pos as int).len() < 2);
        assert(ndp_options(b@.skip(pos as int)) =~= Seq::<(u8, u8, Seq<u8>)>::empty());
        assert(option_views(res@) =~= option_views(res@) + Seq::<(u8, u8, Seq<u8>)>::empty());
    }
    res
}

/// A neighbor solicitation worth answering, as received.
pub struct Solicitation {
    pub src: [u8; 16],
    pub dst: [u8; 16],
    pub target: [u8; 16],
    pub ll_addr_opt: Option<MacAddr>,
}

/// The source link-layer address that the options carry: `Some(None)` when
/// there is none, `Some(Some(a))` when exactly one well-formed one (length
/// one, six octets) is there, and `None` when a source link-layer address
/// option is malformed or repeated.
pub open spec fn source_ll_addr(opts: Seq<(u8, u8, Seq<u8>)>) -> Option<Option<Seq<u8>>>
    decreases opts.len(),
{
    if opts.len() == 0 {
        Some(None)
    } else {
        let (t, l, d) = opts.last();
        match source_ll_addr(opts.drop_last()) {
            None => None,
            Some(found) => if t != SOURCE_LL_ADDR {
                Some(found)
            } else if found is Some || l != 1 || d.len() != 6 {
                None
            } else {
                Some(Some(d))
            },
        }
    }
}

/// Once a prefix of the options is refused, the options are.
pub proof fn lemma_source_ll_addr_none_extends(opts: Seq<(u8, u8, Seq<u8>)>, i: int)
    requires
        0 <= i <= opts.len(),
        source_ll_addr(opts.take(i)) is None,
    ensures
        source_ll_addr(opts.take(opts.len() as int)) is None,
    decreases opts.len() - i,
{
    if i < opts.len() {
        assert(opts.take(i + 1).drop_last() =~= opts.take(i));
        lemma_source_ll_addr_none_extends(opts, i + 1);
    }
}

/// The address is a multicast address (ff00::/8).
pub open spec fn is_multicast_spec(a: Seq<u8>) -> bool {
    a[0] == 0xff
}

/// What `Solicitation::parse_with_checksum` accepts of the ICMPv6 message
/// `msg`, whose checksum from its source to its destination is `checksum`,
/// and the link-layer address it then reports.  RFC 4861 section 7.1.1
/// lists the checks.
pub open spec fn solicitation_checks_with(
    src: [u8; 16],
    dst: [u8; 16],
    msg: Seq<u8>,
    checksum: u16,
) -> Option<Option<Seq<u8>>> {
    if msg.len() < 24 {
        None
    } else if msg[0] != NEIGHBOR_SOLICIT || msg[1] != 0 || be16(msg[2], msg[3]) != checksum
        || is_multicast_spec(msg.subrange(8, 24)) || is_unspecified_spec(src)
        || !solicited_node_multicast_test(dst) {
        None
    } else {
        match source_ll_addr(ndp_options(msg.skip(24))) {
            None => None,
            Some(ll) => if is_unspecified_spec(src) && ll is Some {
                None
            } else {
                Some(ll)
            },
        }
    }
}

/// What `Solicitation::parse` accepts of the ICMPv6 message `msg` from
/// `src` to `dst`: the checks of `solicitation_checks_with`, against the
/// message's ICMPv6 checksum.
pub open spec fn solicitation_checks(src: [u8; 16], dst: [u8; 16], msg: Seq<u8>) -> Option<
    Option<Seq<u8>>,
> {
    solicitation_checks_with(src, dst, msg, icmpv6_checksum(msg, src@, dst@))
}

/// The solicitation that passed the checks, with the link-layer address
/// `ll` they found.
pub open spec fn solicitation_matches(
    s: Solicitation,
    src: [u8; 16],
    dst: [u8; 16],
    msg: Seq<u8>,
    ll: Option<Seq<u8>>,
) -> bool {
    &&& s.src == src
    &&& s.dst == dst
    &&& s.target@ == msg.subrange(8, 24)
    &&& (ll matches Some(a) ==> (s.ll_addr_opt matches Some(m) && m.octets@ == a))
    &&& (ll is None ==> s.ll_addr_opt is None)
}

impl Solicitation {
    /// Reads a neighbor solicitation sent from `src` to `dst`, whose ICMPv6
    /// message is `message`; `None` unless it passes the checks of
    /// `solicitation_checks`.
    pub fn parse(src: [u8; 16], dst: [u8; 16], message: &[u8]) -> (res: Option<Solicitation>)
        requires
            message@.len() <= MAX_CHECKSUMMED_LEN,
        ensures
            solicitation_checks(src, dst, message@) is None ==> res is None,
            solicitation_checks(src, dst, message@) matches Some(ll) ==> (res matches Some(s)
                && solicitation_matches(s, src, dst, message@, ll)),
    {
        if message.len() < 24 {
            return None;
        }
        let checksum = icmpv6_packet_checksum(message, src, dst);
        Self::parse_with_checksum(src, dst, message, checksum)
    }

    /// Reads a neighbor solicitation from `src` to `dst` whose ICMPv6
    /// message is `message` and whose ICMPv6 checksum is `checksum`; `None`
    /// unless it passes the checks of `solicitation_checks_with`.
    pub fn parse_with_checksum(src: [u8; 16], dst: [u8; 16], message: &[u8], checksum: u16) -> (res:
        Option<Solicitation>)
        ensures
            solicitation_checks_with(src, dst, message@, checksum) is None ==> res is None,
            solicitation_checks_with(src, dst, message@, checksum) matches Some(ll) ==> (res matches Some(s)
                && solicitation_matches(s, src, dst, message@, ll)),
    {
        if message.len() < 24 {
            return None;
        }
        let target: [u8; 16] = [
            message[8],
            message[9],
            message[10],
            message[11],
            message[12],
            message[13],
            message[14],
            message[15],
            message[16],
            message[17],
            message[18],
            message[19],
            message[20],
            message[21],
            message[22],
            message[23],
        ];
        proof {
            assert(target@ =~= message@.subrange(8, 24));
        }
        if message[0] != NEIGHBOR_SOLICIT || message[1] != 0 || read_u16_be(message, 2)
            != checksum || target[0] == 0xff || is_unspecified(&src)
            || !is_solicited_node_multicast(&dst) {
            return None;
        }
        let options = parse_ndp_options(vstd::slice::slice_subrange(message, 24, message.len()));
        let mut ll_addr_opt: Option<MacAddr> = None;
        let ghost opts = option_views(options@);
        let mut i: usize = 0;
        while i < options.len()
            invariant
                i <= options@.len(),
                opts == option_views(options@),
                opts == ndp_options(message@.skip(24)),
                target@ == message@.subrange(8, 24),
                solicitation_checks_with(src, dst, message@, checksum) == (match source_ll_addr(opts) {
                    None => None,
                    Some(ll) => if is_unspecified_spec(src) && ll is Some {
                        None
                    } else {
                        Some(ll)
                    },
                }),
                source_ll_addr(opts.take(i as int)) matches Some(found) && (found matches Some(a) ==> (
                ll_addr_opt matches Some(m) && m.octets@ == a)) && (found is None ==> ll_addr_opt is None),
            decreases options@.len() - i,
        {
            let o = &options[i];
            proof {
                assert(opts.take(i + 1).drop_last() =~= opts.take(i as int));
                assert(opts.take(i + 1).last() == opts[i as int]);
            }
            if o.option_type == SOURCE_LL_ADDR {
                if ll_addr_opt.is_some() || o.length != 1 || o.data.len() != 6 {
                    proof {
                        lemma_source_ll_addr_none_extends(opts, i + 1);
                        assert(opts.take(opts.len() as int) =~= opts);
                    }
                    return None;
                }
                let data = o.data.as_slice();
                proof {
                    assert(data@.len() == 6);
                }
                match MacAddr::from_bytes(data) {
                    Ok(m) => {
                        ll_addr_opt = Some(m);
                    },
                    Err(_) => {
                        return None;
                    },
                }
            }
            i = i + 1;
        }
        proof {
            assert(opts.take(options@.len() as int) =~= opts);
        }
        if is_unspecified(&src) && ll_addr_opt.is_some() {
            return None;
        }
        Some(Solicitation { src, dst, target, ll_addr_opt })
    }
}

/// The payload length an IPv6 header gives (bytes 4 and 5).
pub open spec fn ipv6_payload_length(frame: Seq<u8>) -> int {
    be16(frame[4], frame[5]) as int
}

/// The payload of the IPv6 packet `frame`: what follows the 40-byte
/// header, up to the payload length of the header and no further than the
/// frame goes.
pub open spec fn ipv6_payload(frame: Seq<u8>) -> Seq<u8> {
    let end = 40 + ipv6_payload_length(frame);
    if frame.len() < end {
        frame.subrange(40, frame.len() as int)
    } else {
        frame.subrange(40, end)
    }
}

/// Views `frame` as an IPv6 packet through `pnet_packet::ipv6::Ipv6Packet`
/// and reads its source, its destination and its payload, which that view
/// ends at the payload length of the header or at the end of the frame,
/// whichever comes first.  The view needs the 40-byte header: a shorter
/// frame gives `None`.
#[verifier::external_body]
fn pnet_ipv6_fields(frame: &[u8]) -> (res: Option<([u8; 16], [u8; 16], Vec<u8>)>)
    ensures
        res is None <==> frame@.len() < 40,
        res matches Some(f) ==> f.0@ == frame@.subrange(8, 24),
        res matches Some(f) ==> f.1@ == frame@.subrange(24, 40),
        res matches Some(f) ==> f.2@ == ipv6_payload(frame@),
{
    match pnet_packet::ipv6::Ipv6Packet::new(frame) {
        Some(p) => Some((p.get_source().octets(), p.get_destination().octets(), p.payload().to_vec())),
        None => None,
    }
}

/// The frame carries a source address with the octets `src` and a
/// destination address with the octets `dst`.
pub open spec fn frame_addresses(frame: Seq<u8>, src: [u8; 16], dst: [u8; 16]) -> bool {
    &&& frame.len() >= 40
    &&& src@ == frame.subrange(8, 24)
    &&& dst@ == frame.subrange(24, 40)
}

impl Solicitation {
    /// Reads a neighbor solicitation from the IPv6 packet `frame` (its
    /// header and what follows): `None` when the frame is shorter than the
    /// header, else what `Solicitation::parse` makes of the payload sent
    /// from the source to the destination of the header.
    pub fn parse_frame(frame: &[u8]) -> (res: Option<Solicitation>)
        ensures
            frame@.len() < 40 ==> res is None,
            res matches Some(s) ==> frame_addresses(frame@, s.src, s.dst),
            forall|src: [u8; 16], dst: [u8; 16]|
                #![trigger frame_addresses(frame@, src, dst)]
                frame_addresses(frame@, src, dst) ==> ({
                    let msg = ipv6_payload(frame@);
                    &&& solicitation_checks(src, dst, msg) is None ==> res is None
                    &&& solicitation_checks(src, dst, msg) matches Some(ll) ==> (res matches Some(s)
                        && solicitation_matches(s, src, dst, msg, ll))
                }),
    {
        match pnet_ipv6_fields(frame) {
            None => None,
            Some((src, dst, payload)) => {
                proof {
                    assert forall|s2: [u8; 16], d2: [u8; 16]|
                        frame_addresses(frame@, s2, d2) implies s2 == src && d2 == dst by {
                        assert(s2 =~= src);
                        assert(d2 =~= dst);
                    }
                }
                Self::parse(src, dst, payload.as_slice())
            },
        }
    }
}

/// A neighbor advertisement to send.
pub struct Advertisement {
    pub src: [u8; 16],
    pub dst: [u8; 16],
    pub target: [u8; 16],
    pub ll_addr_opt: Option<MacAddr>,
}

/// The flag byte of a solicited advertisement.
pub open spec fn advert_flags(override_flag: bool, router_flag: bool) -> u8 {
    (ADVERT_SOLICITED | (if override_flag { ADVERT_OVERRIDE } else { 0u8 })) | (if router_flag {
        ADVERT_ROUTER
    } else {
        0u8
    })
}

/// The target link-layer address option carrying `mac`, or eight zero
/// bytes when there is none.
pub open spec fn ll_option(mac: Option<MacAddr>) -> Seq<u8> {
    match mac {
        Some(m) => seq![TARGET_LL_ADDR, 1u8] + m.octets@,
        None => seq![0u8, 0, 0, 0, 0, 0, 0, 0],
    }
}

/// The bytes of a solicited advertisement before its checksum is set.
pub open spec fn advert_bytes(adv: Advertisement, override_flag: bool, router_flag: bool) -> Seq<u8> {
    seq![NEIGHBOR_ADVERT, 0u8, 0u8, 0u8, advert_flags(override_flag, router_flag), 0u8, 0u8, 0u8]
        + adv.target@ + ll_option(adv.ll_addr_opt)
}

impl Advertisement {
    /// The reply to `solicit`: from the solicited target to the soliciting
    /// host, about the target, with the link-layer address `mac`.
    pub fn reply_to(solicit: &Solicitation, mac: MacAddr) -> (res: Advertisement)
        ensures
            res.src == solicit.target,
            res.dst == solicit.src,
            res.target == solicit.target,
            res.ll_addr_opt == Some(mac),
    {
        Advertisement {
            src: solicit.target,
            dst: solicit.src,
            target: solicit.target,
            ll_addr_opt: Some(mac),
        }
    }

    /// The ICMPv6 message of the advertisement, as an answer to a
    /// solicitation, with the override and router flags as given and its
    /// checksum from `src` to `dst`.  The reserved bytes are zero; without
    /// a link-layer address the option space is zero too.
    pub fn solicited_to_packet(&self, override_flag: bool, router_flag: bool) -> (res: Vec<u8>)
        ensures
            res@ == with_icmpv6_checksum(
                advert_bytes(*self, override_flag, router_flag),
                self.src@,
                self.dst@,
            ),
            res@.len() == NEIGHBOR_ADVERT_SIZE + NEIGHBOR_ADVERT_LL_ADDR_OPTION_SIZE,
            res@[0] == 136 && res@[1] == 0 && res@[5] == 0 && res@[6] == 0 && res@[7] == 0,
            res@[4] == (if router_flag { 128int } else { 0int }) + 64 + (if override_flag {
                32int
            } else {
                0int
            }),
    {
        proof {
            lemma_advert_layout(*self, override_flag, router_flag);
        }
        let flags: u8 = (ADVERT_SOLICITED | (if override_flag {
            ADVERT_OVERRIDE
        } else {
            0u8
        })) | (if router_flag {
            ADVERT_ROUTER
        } else {
            0u8
        });
        let mut pkt: Vec<u8> = Vec::new();
        pkt.push(NEIGHBOR_ADVERT);
        pkt.push(0);
        pkt.push(0);
        pkt.push(0);
        pkt.push(flags);
        pkt.push(0);
        pkt.push(0);
        pkt.push(0);
        append_bytes(&mut pkt, self.target.as_slice());
        match self.ll_addr_opt {
            Some(m) => {
                pkt.push(TARGET_LL_ADDR);
                pkt.push(1);
                append_bytes(&mut pkt, m.as_bytes());
            },
            None => {
                append_bytes(&mut pkt, &[0u8, 0, 0, 0, 0, 0, 0, 0]);
            },
        }
        proof {
            assert(pkt@ =~= advert_bytes(*self, override_flag, router_flag));
        }
        set_icmpv6_checksum(&mut pkt, self.src, self.dst);
        pkt
    }
}

/// A solicited-node multicast address made by
/// `make_solicited_node_multicast` is recognized as one.
pub proof fn lemma_solicited_node_multicast_recognized(a: [u8; 16], m: [u8; 16])
    requires
        m@ == solicited_node_multicast(a),
    ensures
        solicited_node_multicast_test(m),
{
    assert(m@[0] == 0xff && m@[1] == 0x02);
    assert(segment(m, 0) == 0xff02);
}

/// The advertisement sent in reply holds its own ICMPv6 checksum from its
/// source to its destination, and announces the solicited flag.
pub proof fn lemma_advert_checksum_valid(adv: Advertisement, override_flag: bool, router_flag: bool)
    ensures
        ({
            let p = with_icmpv6_checksum(
                advert_bytes(adv, override_flag, router_flag),
                adv.src@,
                adv.dst@,
            );
            &&& p[0] == NEIGHBOR_ADVERT
            &&& be16(p[2], p[3]) == icmpv6_checksum(p, adv.src@, adv.dst@)
            &&& p[4] & ADVERT_SOLICITED == ADVERT_SOLICITED
        }),
{
    let b = advert_bytes(adv, override_flag, router_flag);
    crate::packet::lemma_with_checksum_valid(b, adv.src@, adv.dst@);
    let f = advert_flags(override_flag, router_flag);
    assert(b[4] == f);
    let o: u8 = if override_flag { ADVERT_OVERRIDE } else { 0u8 };
    let r: u8 = if router_flag { ADVERT_ROUTER } else { 0u8 };
    assert(((ADVERT_SOLICITED | o) | r) & ADVERT_SOLICITED == ADVERT_SOLICITED) by (bit_vector);
}

/// The advertisement sent in reply, for every choice of the override and
/// router flags: 32 bytes; type 136 and code 0; the flag byte holds the
/// router flag as its top bit, the solicited flag (always set) as the next
/// and the override flag as the one after, nothing else; the three
/// reserved bytes are zero; then the target address, and the target
/// link-layer address option (type 2, length 1, the six octets) or eight
/// zero bytes without an address.
pub proof fn lemma_advert_layout(adv: Advertisement, override_flag: bool, router_flag: bool)
    ensures
        ({
            let p = with_icmpv6_checksum(
                advert_bytes(adv, override_flag, router_flag),
                adv.src@,
                adv.dst@,
            );
            &&& p.len() == 32
            &&& p[0] == 136
            &&& p[1] == 0
            &&& p[4] == (if router_flag { 128int } else { 0int }) + 64 + (if override_flag {
                32int
            } else {
                0int
            })
            &&& p[5] == 0 && p[6] == 0 && p[7] == 0
            &&& p.subrange(8, 24) == adv.target@
            &&& (adv.ll_addr_opt matches Some(m) ==> p[24] == 2 && p[25] == 1 && p.subrange(26, 32)
                == m.octets@)
            &&& (adv.ll_addr_opt is None ==> p.subrange(24, 32) == seq![0u8, 0, 0, 0, 0, 0, 0, 0])
        }),
{
    let b = advert_bytes(adv, override_flag, router_flag);
    let p = with_icmpv6_checksum(b, adv.src@, adv.dst@);
    assert(b.len() == 32);
    let f = advert_flags(override_flag, router_flag);
    assert(b[4] == f);
    if router_flag {
        if override_flag {
            assert((ADVERT_SOLICITED | ADVERT_OVERRIDE) | ADVERT_ROUTER == 224u8) by (bit_vector);
        } else {
            assert((ADVERT_SOLICITED | 0u8) | ADVERT_ROUTER == 192u8) by (bit_vector);
        }
    } else {
        if override_flag {
            assert((ADVERT_SOLICITED | ADVERT_OVERRIDE) | 0u8 == 96u8) by (bit_vector);
        } else {
            assert((ADVERT_SOLICITED | 0u8) | 0u8 == 64u8) by (bit_vector);
        }
    }
    assert(p.subrange(8, 24) =~= b.subrange(8, 24));
    assert(b.subrange(8, 24) =~= adv.target@);
    assert(p.subrange(24, 32) =~= b.subrange(24, 32));
    assert(b.subrange(24, 32) =~= ll_option(adv.ll_addr_opt));
    match adv.ll_addr_opt {
        Some(m) => {
            assert(p.subrange(26, 32) =~= ll_option(adv.ll_addr_opt).subrange(2, 8));
            assert(ll_option(adv.ll_addr_opt).subrange(2, 8) =~= m.octets@);
        },
        None => {},
    }
}

} // verus!
