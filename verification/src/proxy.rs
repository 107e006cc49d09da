//! The NDP proxy's decisions: which configured prefix a neighbor
//! solicitation falls under, whether it is to be answered, whether one more
//! advertisement may be queued, and how an error chain is reported.

use vstd::prelude::*;
use vstd::string::StringExecFns;

use crate::ndp::{
    frame_addresses, ipv6_payload, is_solicited_node_multicast, is_unspecified, is_unspecified_spec,
    solicitation_checks, solicitation_matches, solicited_node_multicast_test, Solicitation,
};

verus! {

/// The `k`-th byte of the mask of a prefix of length `n`.
pub open spec fn mask_byte(n: u8, k: int) -> u8 {
    if 8 * (k + 1) <= n {
        0xffu8
    } else if 8 * k >= n {
        0u8
    } else {
        (0xffu8 << ((8 - (n - 8 * k)) as u8)) as u8
    }
}

/// `addr` lies in the network `network`/`netmask`: the address masked to
/// the netmask is the network address.
pub open spec fn prefix_contains(network: [u8; 16], netmask: u8, addr: [u8; 16]) -> bool {
    forall|k: int| 0 <= k < 16 ==> #[trigger] (addr@[k] & mask_byte(netmask, k)) == network@[k]
}

/// The low 24 bits of an address.
pub open spec fn low24(a: [u8; 16]) -> u32 {
    ((a@[13] as u32) * 65536 + (a@[14] as u32) * 256 + (a@[15] as u32)) as u32
}

/// The bits of the low 24 of `a` that a prefix of length `netmask` (over
/// 104) covers.
pub open spec fn masked_low_bits(a: [u8; 16], netmask: u8) -> u32 {
    low24(a) >> ((128 - netmask) as u32)
}

/// 2 to the power `e`, for `e` up to 8.
pub open spec fn pow2_byte(e: int) -> int {
    if e <= 0 {
        1
    } else if e == 1 {
        2
    } else if e == 2 {
        4
    } else if e == 3 {
        8
    } else if e == 4 {
        16
    } else if e == 5 {
        32
    } else if e == 6 {
        64
    } else if e == 7 {
        128
    } else {
        256
    }
}

/// `a` and `net` agree on their first `n` bits: the bytes wholly inside
/// the first `n` bits are equal, and in the byte that bit `n` falls in,
/// the high `n % 8` bits are equal.
pub open spec fn first_bits_equal(a: [u8; 16], net: [u8; 16], n: int) -> bool {
    &&& forall|k: int| 0 <= k < n / 8 ==> #[trigger] a@[k] == net@[k]
    &&& (n % 8 != 0 ==> a@[n / 8] as int / pow2_byte(8 - n % 8) == net@[n / 8] as int / pow2_byte(
        8 - n % 8,
    ))
}

/// `net` has no bit set after its first `n` bits (as the network address
/// of a prefix of length `n` has).
pub open spec fn host_bits_zero(net: [u8; 16], n: int) -> bool {
    &&& forall|k: int| n / 8 < k < 16 ==> #[trigger] net@[k] == 0
    &&& (n / 8 < 16 ==> net@[n / 8] as int % pow2_byte(8 - n % 8) == 0)
}

/// The mask of a byte keeps exactly its high `m` bits: masking `x` gives
/// `y` (whose low `8 - m` bits are clear) exactly when `x` and `y` agree
/// on their high `m` bits.
proof fn lemma_mask_byte_bits(x: u8, y: u8, n: u8, k: int)
    requires
        n <= 128,
        0 <= k < 16,
        8 * k < n < 8 * (k + 1),
        y as int % pow2_byte(8 - (n - 8 * k)) == 0,
    ensures
        ((x & mask_byte(n, k)) == y) == (x as int / pow2_byte(8 - (n - 8 * k)) == y as int / pow2_byte(
            8 - (n - 8 * k),
        )),
{
    let m = n - 8 * k;
    if m == 1 {
        let mb: u8 = mask_byte(n, k);
        assert(mb == (0xffu8 << 7u8) as u8);
        assert(mb == 0x80u8) by (bit_vector)
            requires
                mb == (0xffu8 << 7u8) as u8,
        ;
        assert(y % 128 == 0 ==> ((x & 0x80u8) == y) == (x / 128 == y / 128)) by (bit_vector);
    } else if m == 2 {
        let mb: u8 = mask_byte(n, k);
        assert(mb == (0xffu8 << 6u8) as u8);
        assert(mb == 0xc0u8) by (bit_vector)
            requires
                mb == (0xffu8 << 6u8) as u8,
        ;
        assert(y % 64 == 0 ==> ((x & 0xc0u8) == y) == (x / 64 == y / 64)) by (bit_vector);
    } else if m == 3 {
        let mb: u8 = mask_byte(n, k);
        assert(mb == (0xffu8 << 5u8) as u8);
        assert(mb == 0xe0u8) by (bit_vector)
            requires
                mb == (0xffu8 << 5u8) as u8,
        ;
        assert(y % 32 == 0 ==> ((x & 0xe0u8) == y) == (x / 32 == y / 32)) by (bit_vector);
    } else if m == 4 {
        let mb: u8 = mask_byte(n, k);
        assert(mb == (0xffu8 << 4u8) as u8);
        assert(mb == 0xf0u8) by (bit_vector)
            requires
                mb == (0xffu8 << 4u8) as u8,
        ;
        assert(y % 16 == 0 ==> ((x & 0xf0u8) == y) == (x / 16 == y / 16)) by (bit_vector);
    } else if m == 5 {
        let mb: u8 = mask_byte(n, k);
        assert(mb == (0xffu8 << 3u8) as u8);
        assert(mb == 0xf8u8) by (bit_vector)
            requires
                mb == (0xffu8 << 3u8) as u8,
        ;
        assert(y % 8 == 0 ==> ((x & 0xf8u8) == y) == (x / 8 == y / 8)) by (bit_vector);
    } else if m == 6 {
        let mb: u8 = mask_byte(n, k);
        assert(mb == (0xffu8 << 2u8) as u8);
        assert(mb == 0xfcu8) by (bit_vector)
            requires
                mb == (0xffu8 << 2u8) as u8,
        ;
        assert(y % 4 == 0 ==> ((x & 0xfcu8) == y) == (x / 4 == y / 4)) by (bit_vector);
    } else {
        let mb: u8 = mask_byte(n, k);
        assert(mb == (0xffu8 << 1u8) as u8);
        assert(mb == 0xfeu8) by (bit_vector)
            requires
                mb == (0xffu8 << 1u8) as u8,
        ;
        assert(y % 2 == 0 ==> ((x & 0xfeu8) == y) == (x / 2 == y / 2)) by (bit_vector);
    }
}

/// A prefix of length `n` whose network address has no bit set after its
/// first `n` bits contains exactly the addresses that agree with the
/// network address on their first `n` bits.
pub proof fn lemma_contains_first_bits(net: [u8; 16], n: u8, a: [u8; 16])
    requires
        n <= 128,
        host_bits_zero(net, n as int),
    ensures
        prefix_contains(net, n, a) == first_bits_equal(a, net, n as int),
{
    let q = n as int / 8;
    let r = n as int % 8;
    assert forall|k: int| 0 <= k < 16 implies ((#[trigger] (a@[k] & mask_byte(n, k)) == net@[k]) == (
        if k < q {
            a@[k] == net@[k]
        } else if k == q && r != 0 {
            a@[k] as int / pow2_byte(8 - r) == net@[k] as int / pow2_byte(8 - r)
        } else {
            true
        })) by {
        let x = a@[k];
        let y = net@[k];
        if k < q {
            assert(mask_byte(n, k) == 0xffu8);
            assert((x & 0xffu8) == x) by (bit_vector);
        } else if k == q && r != 0 {
            assert(8 * k < n < 8 * (k + 1));
            assert(n - 8 * k == r);
            lemma_mask_byte_bits(x, y, n, k);
        } else {
            assert(8 * k >= n);
            assert(mask_byte(n, k) == 0u8);
            assert((x & 0u8) == 0u8) by (bit_vector);
            if k == q {
                assert(r == 0);
                assert(y as int % pow2_byte(8) == 0);
                assert(y == 0);
            }
        }
    }
    if prefix_contains(net, n, a) {
        assert forall|k: int| 0 <= k < q implies #[trigger] a@[k] == net@[k] by {
            assert((a@[k] & mask_byte(n, k)) == net@[k]);
        }
        if r != 0 {
            assert((a@[q] & mask_byte(n, q)) == net@[q]);
        }
    }
    if first_bits_equal(a, net, n as int) {
        assert forall|k: int| 0 <= k < 16 implies #[trigger] (a@[k] & mask_byte(n, k)) == net@[k] by {
            if k < q {
                assert(a@[k] == net@[k]);
            }
        }
    }
}

/// An IPv6 network: its address and its prefix length.
#[derive(Clone, Copy, Debug)]
pub struct Ipv6Prefix {
    pub network: [u8; 16],
    pub netmask: u8,
}

impl Ipv6Prefix {
    /// The mask byte `k` of the prefix.
    fn mask(&self, k: usize) -> (res: u8)
        requires
            self.netmask <= 128,
            k < 16,
        ensures
            res == mask_byte(self.netmask, k as int),
    {
        let n = self.netmask as usize;
        if 8 * (k + 1) <= n {
            0xff
        } else if 8 * k >= n {
            0
        } else {
            let shift = (8 - (n - 8 * k)) as u8;
            0xffu8 << shift
        }
    }

    /// `addr` lies in the network.
    pub fn contains(&self, addr: &[u8; 16]) -> (res: bool)
        requires
            self.netmask <= 128,
        ensures
            res == prefix_contains(self.network, self.netmask, *addr),
            host_bits_zero(self.network, self.netmask as int) ==> res == first_bits_equal(
                *addr,
                self.network,
                self.netmask as int,
            ),
    {
        proof {
            if host_bits_zero(self.network, self.netmask as int) {
                lemma_contains_first_bits(self.network, self.netmask, *addr);
            }
        }
        let mut k: usize = 0;
        while k < 16
            invariant
                k <= 16,
                self.netmask <= 128,
                host_bits_zero(self.network, self.netmask as int) ==> prefix_contains(
                    self.network,
                    self.netmask,
                    *addr,
                ) == first_bits_equal(*addr, self.network, self.netmask as int),
                forall|j: int| 0 <= j < k ==> #[trigger] (addr@[j] & mask_byte(self.netmask, j))
                    == self.network@[j],
            decreases 16 - k,
        {
            if addr[k] & self.mask(k) != self.network[k] {
                return false;
            }
            k = k + 1;
        }
        true
    }
}

/// A prefix to proxy, with the flags of its advertisements.
pub struct PrefixConfig {
    pub prefix: Ipv6Prefix,
    pub router_flag: bool,
    pub reply_unconditionally: bool,
    pub override_flag: bool,
}

/// The prefix answers for `target` and not for `src`.
pub open spec fn prefix_candidate(p: Ipv6Prefix, src: [u8; 16], target: [u8; 16]) -> bool {
    !prefix_contains(p.network, p.netmask, src) && prefix_contains(p.network, p.netmask, target)
}

/// The index of the first prefix from `i` on that is a candidate; the
/// number of prefixes when none is.
pub open spec fn first_candidate(ps: Seq<PrefixConfig>, src: [u8; 16], target: [u8; 16], i: int) -> int
    decreases ps.len() - i,
{
    if i < 0 || i >= ps.len() {
        ps.len() as int
    } else if prefix_candidate(ps[i].prefix, src, target) {
        i
    } else {
        first_candidate(ps, src, target, i + 1)
    }
}

/// The first candidate from `i` on lies between `i` and the number of
/// prefixes.
proof fn lemma_first_candidate_bounds(ps: Seq<PrefixConfig>, src: [u8; 16], target: [u8; 16], i: int)
    requires
        0 <= i <= ps.len(),
    ensures
        i <= first_candidate(ps, src, target, i) <= ps.len(),
    decreases ps.len() - i,
{
    if i < ps.len() && !prefix_candidate(ps[i].prefix, src, target) {
        lemma_first_candidate_bounds(ps, src, target, i + 1);
    }
}

/// The netmasks are at most 128.
pub open spec fn prefixes_wf(ps: Seq<PrefixConfig>) -> bool {
    forall|i: int| 0 <= i < ps.len() ==> (#[trigger] ps[i]).prefix.netmask <= 128
}

/// The prefix under which a solicitation from `src` for `target` is
/// proxied: the first prefix that holds the target and not the source.  No
/// prefix is chosen when the source is `::` (duplicate address detection
/// seen from the other side).
pub fn select_prefix(src: &[u8; 16], target: &[u8; 16], prefixes: &[PrefixConfig]) -> (res: Option<
    usize,
>)
    requires
        prefixes_wf(prefixes@),
    ensures
        ({
            let i = first_candidate(prefixes@, *src, *target, 0);
            &&& i >= prefixes@.len() ==> res is None
            &&& i < prefixes@.len() && is_unspecified_spec(*src) ==> res is None
            &&& i < prefixes@.len() && !is_unspecified_spec(*src) ==> res == Some(i as usize)
        }),
        res matches Some(k) ==> k < prefixes@.len(),
{
    let mut i: usize = 0;
    while i < prefixes.len()
        invariant
            i <= prefixes@.len(),
            prefixes_wf(prefixes@),
            first_candidate(prefixes@, *src, *target, 0) == first_candidate(
                prefixes@,
                *src,
                *target,
                i as int,
            ),
        decreases prefixes@.len() - i,
    {
        let p = &prefixes[i];
        if p.prefix.contains(src) {
            i = i + 1;
            continue;
        }
        if !p.prefix.contains(target) {
            i = i + 1;
            continue;
        }
        if is_unspecified(src) {
            return None;
        }
        return Some(i);
    }
    None
}

/// Whether a solicitation that falls under `prefix` is answered.  Address
/// resolution (to a solicited-node multicast address) needs the source
/// link-layer address, and for a prefix longer than 104 bits the
/// multicast address must carry the prefix's own bits; neighbor
/// reachability detection needs the destination inside the prefix.
pub open spec fn solicitation_answered(s: Solicitation, prefix: Ipv6Prefix) -> bool {
    if solicited_node_multicast_test(s.dst) {
        &&& s.ll_addr_opt is Some
        &&& prefix.netmask > 104 ==> masked_low_bits(s.dst, prefix.netmask) == masked_low_bits(
            prefix.network,
            prefix.netmask,
        )
    } else {
        prefix_contains(prefix.network, prefix.netmask, s.dst)
    }
}

/// The low bits of `a` that a prefix of length `netmask` covers.
fn get_bits(a: &[u8; 16], netmask: u8) -> (res: u32)
    requires
        104 < netmask <= 128,
    ensures
        res == masked_low_bits(*a, netmask),
{
    let last_bits = (a[13] as u32) * 65536 + (a[14] as u32) * 256 + (a[15] as u32);
    last_bits >> ((128 - netmask) as u32)
}

/// Decides whether a solicitation that falls under `prefix` is answered
/// (see `solicitation_answered`).
pub fn is_answered(s: &Solicitation, prefix: &Ipv6Prefix) -> (res: bool)
    requires
        prefix.netmask <= 128,
    ensures
        res == solicitation_answered(*s, *prefix),
{
    if is_solicited_node_multicast(&s.dst) {
        if s.ll_addr_opt.is_none() {
            return false;
        }
        if prefix.netmask > 104 {
            let dst_bits = get_bits(&s.dst, prefix.netmask);
            let prefix_bits = get_bits(&prefix.network, prefix.netmask);
            if dst_bits != prefix_bits {
                return false;
            }
        }
        true
    } else {
        prefix.contains(&s.dst)
    }
}

/// The solicitation `s` is answered under the prefixes `ps`: a prefix is
/// selected for it and it is answered under that prefix.
pub open spec fn proxied_under(s: Solicitation, ps: Seq<PrefixConfig>) -> bool {
    let i = first_candidate(ps, s.src, s.target, 0);
    &&& i < ps.len()
    &&& !is_unspecified_spec(s.src)
    &&& solicitation_answered(s, ps[i].prefix)
}

/// What the proxy makes of an IPv6 packet received on an interface whose
/// configured prefixes are `prefixes`: the neighbor solicitation it
/// answers, with the index of the prefix it answers under, or `None` when
/// the packet is no solicitation (see `Solicitation::parse_frame`) or one
/// that is not answered.
pub fn proxied_solicitation(frame: &[u8], prefixes: &[PrefixConfig]) -> (res: Option<(Solicitation, usize)>)
    requires
        prefixes_wf(prefixes@),
    ensures
        frame@.len() < 40 ==> res is None,
        res matches Some(r) ==> frame_addresses(frame@, r.0.src, r.0.dst),
        forall|src: [u8; 16], dst: [u8; 16]|
            #![trigger frame_addresses(frame@, src, dst)]
            frame_addresses(frame@, src, dst) ==> ({
                let msg = ipv6_payload(frame@);
                &&& solicitation_checks(src, dst, msg) is None ==> res is None
                &&& solicitation_checks(src, dst, msg) matches Some(ll) ==> (match res {
                    Some(r) => solicitation_matches(r.0, src, dst, msg, ll) && proxied_under(r.0, prefixes@)
                        && r.1 == first_candidate(prefixes@, r.0.src, r.0.target, 0),
                    None => forall|s: Solicitation|
                        #[trigger] solicitation_matches(s, src, dst, msg, ll) ==> !proxied_under(s, prefixes@),
                })
            }),
{
    let solicit = match Solicitation::parse_frame(frame) {
        Some(s) => s,
        None => return None,
    };
    let ghost msg = ipv6_payload(frame@);
    proof {
        assert(frame_addresses(frame@, solicit.src, solicit.dst));
        lemma_first_candidate_bounds(prefixes@, solicit.src, solicit.target, 0);
        let ll = solicitation_checks(solicit.src, solicit.dst, msg)->0;
        assert(solicitation_matches(solicit, solicit.src, solicit.dst, msg, ll));
        assert forall|src: [u8; 16], dst: [u8; 16]|
            frame_addresses(frame@, src, dst) implies src == solicit.src && dst == solicit.dst by {
            assert(src =~= solicit.src);
            assert(dst =~= solicit.dst);
        }
        assert forall|s: Solicitation| #[trigger]
            solicitation_matches(s, solicit.src, solicit.dst, msg, ll) implies proxied_under(s, prefixes@)
            == proxied_under(solicit, prefixes@) by {
            assert(s.target =~= solicit.target);
        }
    }
    let i = match select_prefix(&solicit.src, &solicit.target, prefixes) {
        Some(i) => i,
        None => return None,
    };
    if !is_answered(&solicit, &prefixes[i].prefix) {
        return None;
    }
    Some((solicit, i))
}

/// One more advertisement may be queued while fewer than `max_queued` are.
pub fn admit_send(queued: usize, max_queued: usize) -> (res: bool)
    ensures
        res == (queued < max_queued),
{
    queued < max_queued
}

/// The causes of an error joined by ": ".
pub open spec fn joined(causes: Seq<Seq<char>>) -> Seq<char>
    decreases causes.len(),
{
    if causes.len() == 0 {
        Seq::empty()
    } else if causes.len() == 1 {
        causes[0]
    } else {
        joined(causes.drop_last()) + ": "@ + causes.last()
    }
}

/// The line logged for an error, from the messages of its chain of causes,
/// outermost first.
pub fn log_err(causes: &[String]) -> (res: String)
    ensures
        res@ == joined(causes@.map_values(|c: String| c@)),
{
    let ghost cs = causes@.map_values(|c: String| c@);
    let mut out = String::new();
    let mut i: usize = 0;
    while i < causes.len()
        invariant
            i <= causes@.len(),
            cs == causes@.map_values(|c: String| c@),
            out@ == joined(cs.take(i as int)),
        decreases causes@.len() - i,
    {
        if i > 0 {
            out.append(": ");
        }
        out.append(causes[i].as_str());
        i = i + 1;
        proof {
            assert(cs.take(i as int).drop_last() =~= cs.take(i - 1));
            if i == 1 {
                assert(cs.take(1) =~= seq![cs[0]]);
                assert(out@ =~= cs[0]);
            }
        }
    }
    proof {
        assert(cs.take(i as int) =~= cs);
    }
    out
}

/// The line logged for a failed result, if it failed (see `log_err`).
pub fn log_if_err<T>(x: Result<T, Vec<String>>) -> (res: Option<String>)
    ensures
        x is Ok ==> res is None,
        x matches Err(causes) ==> (res matches Some(line) && line@ == joined(
            causes@.map_values(|c: String| c@),
        )),
{
    match x {
        Ok(_) => None,
        Err(causes) => Some(log_err(causes.as_slice())),
    }
}

} // verus!
