//! A parser for the Neighbor Discovery messages that the proxy deals with:
//! neighbor advertisements and solicitations, with their source and target
//! link-layer address options.  A message parses only when all its bytes
//! are accounted for.

use vstd::prelude::*;

use crate::net::MacAddr;
use crate::packet::{be16, read_u16_be};

verus! {

/// ICMPv6 type of a neighbor solicitation.
pub const ND_NEIGHBOR_SOLICIT: u8 = 135;

/// ICMPv6 type of a neighbor advertisement.
pub const ND_NEIGHBOR_ADVERT: u8 = 136;

/// Option type of a source link-layer address.
pub const SRC_LL_ADDR: u8 = 1;

/// Option type of a target link-layer address.
pub const TGT_LL_ADDR: u8 = 2;

/// The fixed header of an ICMPv6 message.
#[derive(Clone, Copy, Debug)]
pub struct IcmpV6Header {
    pub typ: u8,
    pub code: u8,
    pub checksum: u16,
}

/// The options understood: a source or a target link-layer address.
#[derive(Clone, Copy, Debug)]
pub enum IcmpV6Option {
    SrcLLAddr(MacAddr),
    TgtLLAddr(MacAddr),
}

/// A neighbor advertisement.
pub struct NeighborAdvert {
    pub header: IcmpV6Header,
    pub router: bool,
    pub solicited: bool,
    pub overrid: bool,
    pub target: [u8; 16],
    pub options: Vec<IcmpV6Option>,
}

/// A neighbor solicitation.
pub struct NeighborSolicit {
    pub header: IcmpV6Header,
    pub target: [u8; 16],
    pub options: Vec<IcmpV6Option>,
}

/// A Neighbor Discovery message.
pub enum NdpPacket {
    NeighAdvert(NeighborAdvert),
    NeighSolicit(NeighborSolicit),
}

/// An option as plain values: its type and its six address octets.
pub open spec fn option_view(o: IcmpV6Option) -> (u8, Seq<u8>) {
    match o {
        IcmpV6Option::SrcLLAddr(m) => (SRC_LL_ADDR, m.octets@),
        IcmpV6Option::TgtLLAddr(m) => (TGT_LL_ADDR, m.octets@),
    }
}

/// The data size that an option's length byte `l` announces: `l * 8 - 2`
/// in 8-bit arithmetic.
pub open spec fn option_data_size(l: u8) -> int {
    ((l as int * 8 - 2) % 256)
}

/// The option at the start of `b`, with the bytes it takes: its type must
/// be a link-layer address option, and its announced data, at least six
/// bytes, must be there; the address is the first six.
pub open spec fn option_at(b: Seq<u8>) -> Option<((u8, Seq<u8>), int)> {
    if b.len() < 2 {
        None
    } else {
        let size = option_data_size(b[1]);
        if b.len() < 2 + size || size < 6 || (b[0] != SRC_LL_ADDR && b[0] != TGT_LL_ADDR) {
            None
        } else {
            Some(((b[0], b.subrange(2, 8)), 2 + size))
        }
    }
}

/// The options that make up all of `b`, first to last; `None` when `b` is
/// not a sequence of options.
pub open spec fn options_all(b: Seq<u8>) -> Option<Seq<(u8, Seq<u8>)>>
    decreases b.len(),
{
    if b.len() == 0 {
        Some(Seq::empty())
    } else {
        match option_at(b) {
            None => None,
            Some((o, n)) => if n <= 0 {
                None
            } else {
                match options_all(b.skip(n)) {
                    None => None,
                    Some(rest) => Some(seq![o] + rest),
                }
            },
        }
    }
}

/// The bytes of `b` from index `pos` on.
pub open spec fn skip_at(b: Seq<u8>, pos: usize) -> Seq<u8> {
    b.skip(pos as int)
}

/// The data size that the length byte `l` announces (see
/// `option_data_size`).
fn option_size(l: u8) -> (res: usize)
    ensures
        res == option_data_size(l),
{
    let size = l.wrapping_mul(8).wrapping_sub(2) as usize;
    proof {
        assert(size == (((l as int * 8) % 256 + 256 - 2) % 256)) by (nonlinear_arith)
            requires
                size == ((((l as int * 8) % 256) - 2) % 256),
        ;
    }
    size
}

/// The address in the first sixteen bytes.
pub fn ipv6_address(b: &[u8]) -> (res: Option<[u8; 16]>)
    ensures
        b@.len() < 16 ==> res is None,
        b@.len() >= 16 ==> (res matches Some(a) && a@ == b@.subrange(0, 16)),
{
    if b.len() < 16 {
        return None;
    }
    let a: [u8; 16] = [
        b[0],
        b[1],
        b[2],
        b[3],
        b[4],
        b[5],
        b[6],
        b[7],
        b[8],
        b[9],
        b[10],
        b[11],
        b[12],
        b[13],
        b[14],
        b[15],
    ];
    proof {
        assert(a@ =~= b@.subrange(0, 16));
    }
    Some(a)
}

/// The link-layer address in the first six bytes.
pub fn mac_addr(b: &[u8]) -> (res: Option<MacAddr>)
    ensures
        b@.len() < 6 ==> res is None,
        b@.len() >= 6 ==> (res matches Some(m) && m.octets@ == b@.subrange(0, 6)),
{
    if b.len() < 6 {
        return None;
    }
    let m = MacAddr::new(b[0], b[1], b[2], b[3], b[4], b[5]);
    proof {
        assert(m.octets@ =~= b@.subrange(0, 6));
    }
    Some(m)
}

/// The link-layer address that makes up all of `b`.
pub fn mac_addr_eof(b: &[u8]) -> (res: Option<MacAddr>)
    ensures
        b@.len() != 6 ==> res is None,
        b@.len() == 6 ==> (res matches Some(m) && m.octets@ == b@),
{
    if b.len() != 6 {
        return None;
    }
    let r = mac_addr(b);
    proof {
        assert(b@.subrange(0, 6) =~= b@);
    }
    r
}

/// The header of a message of type `typ`.
pub fn icmpv6_header(b: &[u8], typ: u8) -> (res: Option<IcmpV6Header>)
    ensures
        (b@.len() < 4 || b@[0] != typ) ==> res is None,
        (b@.len() >= 4 && b@[0] == typ) ==> (res matches Some(h) && h.typ == typ && h.code == b@[1]
            && h.checksum == be16(b@[2], b@[3])),
{
    if b.len() < 4 || b[0] != typ {
        return None;
    }
    Some(IcmpV6Header { typ, code: b[1], checksum: read_u16_be(b, 2) })
}

/// The option at the start of `b`, with the number of bytes it takes (see
/// `option_at`).
pub fn icmpv6_option(b: &[u8]) -> (res: Option<(IcmpV6Option, usize)>)
    ensures
        option_at(b@) is None ==> res is None,
        option_at(b@) matches Some((o, n)) ==> (res matches Some((r, k)) && option_view(r) == o && k
            == n),
{
    if b.len() < 2 {
        return None;
    }
    let typ = b[0];
    let size = option_size(b[1]);
    if b.len() - 2 < size || size < 6 || (typ != SRC_LL_ADDR && typ != TGT_LL_ADDR) {
        return None;
    }
    let m = match mac_addr(vstd::slice::slice_subrange(b, 2, b.len())) {
        Some(m) => m,
        None => {
            return None;
        },
    };
    proof {
        assert(b@.skip(2).subrange(0, 6) =~= b@.subrange(2, 8));
    }
    let o = if typ == SRC_LL_ADDR {
        IcmpV6Option::SrcLLAddr(m)
    } else {
        IcmpV6Option::TgtLLAddr(m)
    };
    Some((o, 2 + size))
}

/// The options that make up all of `b` (see `options_all`).
pub fn icmpv6_options(b: &[u8]) -> (res: Option<Vec<IcmpV6Option>>)
    ensures
        options_all(b@) is None ==> res is None,
        options_all(b@) matches Some(v) ==> (res matches Some(r) && r@.map_values(
            |o: IcmpV6Option| option_view(o),
        ) == v),
{
    let mut out: Vec<IcmpV6Option> = Vec::new();
    let mut pos: usize = 0;
    proof {
        assert(skip_at(b@, 0) =~= b@);
        match options_all(b@) {
            None => {},
            Some(r) => {
                assert(out@.map_values(|o: IcmpV6Option| option_view(o)) + r =~= r);
            },
        }
    }
    while pos < b.len()
        invariant
            pos <= b@.len(),
            options_all(b@) == (match options_all(skip_at(b@, pos)) {
                None => None,
                Some(rest) => Some(out@.map_values(|o: IcmpV6Option| option_view(o)) + rest),
            }),
        decreases b@.len() - pos,
    {
        let rest = vstd::slice::slice_subrange(b, pos, b.len());
        match icmpv6_option(rest) {
            Some((o, n)) => {
                proof {
                    assert(rest@ =~= skip_at(b@, pos));
                    assert(skip_at(rest@, n) =~= b@.skip(pos + n));
                }
                let ghost before = out@;
                out.push(o);
                proof {
                    assert(out@.map_values(|o: IcmpV6Option| option_view(o)) =~= before.map_values(
                        |o: IcmpV6Option| option_view(o),
                    ).push(option_view(o)));
                    match options_all(b@.skip(pos + n)) {
                        None => {},
                        Some(r) => {
                            assert(before.map_values(|o: IcmpV6Option| option_view(o)) + (seq![
                                option_view(o),
                            ] + r) =~= out@.map_values(|o: IcmpV6Option| option_view(o)) + r);
                        },
                    }
                }
                pos = pos + n;
            },
            None => {
                proof {
                    assert(rest@ =~= skip_at(b@, pos));
                }
                return None;
            },
        }
    }
    proof {
        assert(skip_at(b@, pos) =~= Seq::<u8>::empty());
        assert(out@.map_values(|o: IcmpV6Option| option_view(o)) + Seq::<(u8, Seq<u8>)>::empty()
            =~= out@.map_values(|o: IcmpV6Option| option_view(o)));
    }
    Some(out)
}

/// What `neighbor_solicit` accepts: a solicitation header, four reserved
/// bytes, the target address and options making up the rest.
pub open spec fn solicit_ok(b: Seq<u8>) -> bool {
    b.len() >= 24 && b[0] == ND_NEIGHBOR_SOLICIT && options_all(b.skip(24)) is Some
}

/// What `neighbor_advert` accepts: an advertisement header, the flag byte,
/// three reserved bytes, the target address and options making up the
/// rest.
pub open spec fn advert_ok(b: Seq<u8>) -> bool {
    b.len() >= 24 && b[0] == ND_NEIGHBOR_ADVERT && options_all(b.skip(24)) is Some
}

/// `s` is the solicitation read from `b`: its header, the target address
/// in bytes 8 to 24 and the options after them.
pub open spec fn solicit_parsed(s: NeighborSolicit, b: Seq<u8>) -> bool {
    &&& s.header.typ == ND_NEIGHBOR_SOLICIT
    &&& s.header.code == b[1]
    &&& s.header.checksum == be16(b[2], b[3])
    &&& s.target@ == b.subrange(8, 24)
    &&& Some(s.options@.map_values(|o: IcmpV6Option| option_view(o))) == options_all(b.skip(24))
}

/// `a` is the advertisement read from `b`: its header, the router,
/// solicited and override flags (the top three bits of byte 4), the target
/// address in bytes 8 to 24 and the options after them.
pub open spec fn advert_parsed(a: NeighborAdvert, b: Seq<u8>) -> bool {
    &&& a.header.typ == ND_NEIGHBOR_ADVERT
    &&& a.header.code == b[1]
    &&& a.header.checksum == be16(b[2], b[3])
    &&& a.router == (b[4] & 128 != 0)
    &&& a.solicited == (b[4] & 64 != 0)
    &&& a.overrid == (b[4] & 32 != 0)
    &&& a.target@ == b.subrange(8, 24)
    &&& Some(a.options@.map_values(|o: IcmpV6Option| option_view(o))) == options_all(b.skip(24))
}

/// The flags of a parsed advertisement are the three high bits of byte 4,
/// each on its own: the router flag is the top bit, the solicited flag the
/// next, the override flag the one after; the other bits do not count.
pub proof fn lemma_advert_flag_bits(a: NeighborAdvert, b: Seq<u8>)
    requires
        b.len() >= 24,
        advert_parsed(a, b),
    ensures
        a.router == (b[4] >= 128),
        a.solicited == ((b[4] / 64) % 2 == 1),
        a.overrid == ((b[4] / 32) % 2 == 1),
        a.header.typ == ND_NEIGHBOR_ADVERT,
        a.header.code == b[1],
        a.header.checksum == b[2] * 256 + b[3],
        a.target@ == b.subrange(8, 24),
{
    let x: u8 = b[4];
    assert((x & 128u8 != 0) == (x >= 128)) by (bit_vector);
    assert((x & 64u8 != 0) == ((x / 64) % 2 == 1)) by (bit_vector);
    assert((x & 32u8 != 0) == ((x / 32) % 2 == 1)) by (bit_vector);
}

/// A parsed solicitation carries the code of byte 1, the checksum of
/// bytes 2 and 3 (high byte first) and the target address of bytes 8 to
/// 24.
pub proof fn lemma_solicit_fields(s: NeighborSolicit, b: Seq<u8>)
    requires
        b.len() >= 24,
        solicit_parsed(s, b),
    ensures
        s.header.typ == ND_NEIGHBOR_SOLICIT,
        s.header.code == b[1],
        s.header.checksum == b[2] * 256 + b[3],
        s.target@ == b.subrange(8, 24),
{
}

/// Parses a neighbor solicitation (see `solicit_ok`)./// Parses a neighbor solicitation (see `solicit_ok`).
pub fn neighbor_solicit(b: &[u8]) -> (res: Option<NeighborSolicit>)
    ensures
        !solicit_ok(b@) ==> res is None,
        solicit_ok(b@) ==> (res matches Some(s) && solicit_parsed(s, b@)),
{
    let header = match icmpv6_header(b, ND_NEIGHBOR_SOLICIT) {
        Some(h) => h,
        None => {
            return None;
        },
    };
    if b.len() < 24 {
        return None;
    }
    let target = match ipv6_address(vstd::slice::slice_subrange(b, 8, b.len())) {
        Some(t) => t,
        None => {
            return None;
        },
    };
    proof {
        assert(b@.skip(8).subrange(0, 16) =~= b@.subrange(8, 24));
    }
    let rest = vstd::slice::slice_subrange(b, 24, b.len());
    match icmpv6_options(rest) {
        Some(options) => Some(NeighborSolicit { header, target, options }),
        None => None,
    }
}

/// Parses a neighbor advertisement (see `advert_ok`); the flags are the
/// top three bits of the flag byte.
pub fn neighbor_advert(b: &[u8]) -> (res: Option<NeighborAdvert>)
    ensures
        !advert_ok(b@) ==> res is None,
        advert_ok(b@) ==> (res matches Some(a) && advert_parsed(a, b@)),
        res matches Some(a) ==> a.overrid == ((b@[4] / 32) % 2 == 1) && a.solicited == ((b@[4] / 64) % 2
            == 1) && a.router == (b@[4] >= 128),
{
    let header = match icmpv6_header(b, ND_NEIGHBOR_ADVERT) {
        Some(h) => h,
        None => {
            return None;
        },
    };
    if b.len() < 24 {
        return None;
    }
    let flags = b[4];
    let target = match ipv6_address(vstd::slice::slice_subrange(b, 8, b.len())) {
        Some(t) => t,
        None => {
            return None;
        },
    };
    proof {
        assert(b@.skip(8).subrange(0, 16) =~= b@.subrange(8, 24));
    }
    let rest = vstd::slice::slice_subrange(b, 24, b.len());
    proof {
        let x: u8 = flags;
        assert((x & 128u8 != 0) == (x >= 128)) by (bit_vector);
        assert((x & 64u8 != 0) == ((x / 64) % 2 == 1)) by (bit_vector);
        assert((x & 32u8 != 0) == ((x / 32) % 2 == 1)) by (bit_vector);
    }
    match icmpv6_options(rest) {
        Some(options) => Some(
            NeighborAdvert {
                header,
                router: flags & 128 != 0,
                solicited: flags & 64 != 0,
                overrid: flags & 32 != 0,
                target,
                options,
            },
        ),
        None => None,
    }
}

/// Parses a Neighbor Discovery message: an advertisement, else a
/// solicitation.
pub fn ndp_packet(b: &[u8]) -> (res: Option<NdpPacket>)
    ensures
        advert_ok(b@) ==> (res matches Some(NdpPacket::NeighAdvert(a)) && advert_parsed(a, b@)),
        !advert_ok(b@) && solicit_ok(b@) ==> (res matches Some(NdpPacket::NeighSolicit(s))
            && solicit_parsed(s, b@)),
        !advert_ok(b@) && !solicit_ok(b@) ==> res is None,
{
    match neighbor_advert(b) {
        Some(a) => Some(NdpPacket::NeighAdvert(a)),
        None => match neighbor_solicit(b) {
            Some(s) => Some(NdpPacket::NeighSolicit(s)),
            None => None,
        },
    }
}

} // verus!
