//! Protocol constants and the stream packet flag set.

use vstd::prelude::*;

verus! {

pub const STREAM_SYN: u8 = 128;
pub const STREAM_ACK: u8 = 64;
pub const STREAM_FIN: u8 = 32;
pub const STREAM_WS: u8 = 16;

/// The flag bits a stream packet may carry.
pub const STREAM_FLAGS_ALL: u8 = STREAM_SYN | STREAM_ACK | STREAM_FIN | STREAM_WS;

pub const IPV6_HEADER_SIZE: usize = 40;

pub const ICMPV6_ECHO_REQUEST_HEADER_SIZE: usize = 4;

/// ICMPv6 type of an echo request.
pub const ICMPV6_ECHO_REQUEST: u8 = 128;

pub const STREAM_CLIENT_HEADER_SIZE: usize = 6;

pub const STREAM_CLIENT_FULL_HEADER_SIZE: usize = ICMPV6_ECHO_REQUEST_HEADER_SIZE
    + STREAM_CLIENT_HEADER_SIZE;

pub const STREAM_CLIENT_HEADER_SIZE_WITH_IP: usize = STREAM_CLIENT_FULL_HEADER_SIZE
    + IPV6_HEADER_SIZE;

pub const STREAM_SERVER_HEADER_SIZE: usize = 8;

pub const STREAM_SERVER_FULL_HEADER_SIZE: usize = ICMPV6_ECHO_REQUEST_HEADER_SIZE
    + STREAM_SERVER_HEADER_SIZE;

pub const STREAM_SERVER_HEADER_SIZE_WITH_IP: usize = STREAM_SERVER_FULL_HEADER_SIZE
    + IPV6_HEADER_SIZE;

pub const IPV6_MIN_MTU: u16 = 1280;

/// Milliseconds without an acknowledgement after which packets are resent.
pub const PACKET_LOSS_TIMEOUT: u64 = 2000;

/// Milliseconds of silence after which a connection is dropped.
pub const CONNECTION_LOSS_TIMEOUT: u64 = 30000;

pub const RETRANSMISSIONS_NUMBER: u64 = 3;

/// Milliseconds between two acknowledgement rounds of the receiver.
pub const ACK_SEND_PERIOD: u64 = PACKET_LOSS_TIMEOUT / 3;

/// The values of the composite sizes.
pub proof fn lemma_header_sizes()
    ensures
        STREAM_CLIENT_FULL_HEADER_SIZE == 10,
        STREAM_CLIENT_HEADER_SIZE_WITH_IP == 50,
        STREAM_SERVER_FULL_HEADER_SIZE == 12,
        STREAM_SERVER_HEADER_SIZE_WITH_IP == 52,
        ACK_SEND_PERIOD == 666,
        STREAM_FLAGS_ALL == 240,
{
    assert(STREAM_SYN | STREAM_ACK | STREAM_FIN | STREAM_WS == 240u8) by (bit_vector);
}

/// A set of stream packet flags (SYN, ACK, FIN, WS), held as the bits of
/// the flag byte.
#[derive(Clone, Copy, Debug, PartialEq, Eq, Structural)]
pub struct StreamPacketFlags {
    pub bits: u8,
}

/// The byte holds no bit outside the four flags.
pub open spec fn valid_flag_bits(b: u8) -> bool {
    b & 15u8 == 0
}

/// No flag, each single flag, and the union of two valid flag bytes are
/// valid flag bytes.
proof fn lemma_flag_bits_valid()
    ensures
        valid_flag_bits(0),
        valid_flag_bits(STREAM_SYN),
        valid_flag_bits(STREAM_ACK),
        valid_flag_bits(STREAM_FIN),
        valid_flag_bits(STREAM_WS),
        forall|a: u8, b: u8| valid_flag_bits(a) && valid_flag_bits(b) ==> #[trigger] valid_flag_bits(a | b),
{
    assert(0u8 & 15u8 == 0) by (bit_vector);
    assert(128u8 & 15u8 == 0) by (bit_vector);
    assert(64u8 & 15u8 == 0) by (bit_vector);
    assert(32u8 & 15u8 == 0) by (bit_vector);
    assert(16u8 & 15u8 == 0) by (bit_vector);
    assert forall|a: u8, b: u8| valid_flag_bits(a) && valid_flag_bits(b) implies #[trigger] valid_flag_bits(a | b) by {
        assert(a & 15u8 == 0 && b & 15u8 == 0 ==> (a | b) & 15u8 == 0) by (bit_vector);
    }
}

impl StreamPacketFlags {
    pub fn empty() -> (res: Self)
        ensures
            res.bits == 0,
            valid_flag_bits(res.bits),
    {
        proof {
            lemma_flag_bits_valid();
        }
        StreamPacketFlags { bits: 0 }
    }

    pub fn syn() -> (res: Self)
        ensures
            res.bits == STREAM_SYN,
            valid_flag_bits(res.bits),
    {
        proof {
            lemma_flag_bits_valid();
        }
        StreamPacketFlags { bits: STREAM_SYN }
    }

    pub fn ack() -> (res: Self)
        ensures
            res.bits == STREAM_ACK,
            valid_flag_bits(res.bits),
    {
        proof {
            lemma_flag_bits_valid();
        }
        StreamPacketFlags { bits: STREAM_ACK }
    }

    pub fn fin() -> (res: Self)
        ensures
            res.bits == STREAM_FIN,
            valid_flag_bits(res.bits),
    {
        proof {
            lemma_flag_bits_valid();
        }
        StreamPacketFlags { bits: STREAM_FIN }
    }

    pub fn ws() -> (res: Self)
        ensures
            res.bits == STREAM_WS,
            valid_flag_bits(res.bits),
    {
        proof {
            lemma_flag_bits_valid();
        }
        StreamPacketFlags { bits: STREAM_WS }
    }

    /// The flag set of byte `x`; `None` when `x` has a bit that is no flag.
    pub fn from_bits(x: u8) -> (res: Option<Self>)
        ensures
            res is Some <==> valid_flag_bits(x),
            res matches Some(f) ==> f.bits == x,
    {
        if x & 15u8 == 0 {
            Some(StreamPacketFlags { bits: x })
        } else {
            None
        }
    }

    /// The flag byte.
    pub fn bits(&self) -> (res: u8)
        ensures
            res == self.bits,
    {
        self.bits
    }

    /// Every flag of `other` is in `self`.
    pub fn contains(&self, other: Self) -> (res: bool)
        ensures
            res == (self.bits & other.bits == other.bits),
    {
        self.bits & other.bits == other.bits
    }

    /// The flags of both sets.
    pub fn union(&self, other: Self) -> (res: Self)
        ensures
            res.bits == self.bits | other.bits,
            valid_flag_bits(self.bits) && valid_flag_bits(other.bits) ==> valid_flag_bits(res.bits),
    {
        proof {
            lemma_flag_bits_valid();
        }
        StreamPacketFlags { bits: self.bits | other.bits }
    }
}

/// The MTU that a stream works with: the MTU of the interface bound to,
/// capped to 65535, or the IPv6 minimum MTU when no interface is given.
/// An interface MTU is at least the IPv6 minimum.
pub fn stream_mtu(interface_mtu: Option<i32>) -> (res: u16)
    requires
        interface_mtu matches Some(m) ==> m >= 1280,
    ensures
        interface_mtu is None ==> res == IPV6_MIN_MTU,
        interface_mtu matches Some(m) ==> res == (if m >= 65535 { 65535 } else { m }),
{
    match interface_mtu {
        Some(mtu) => {
            if mtu >= 65535 {
                65535
            } else {
                mtu as u16
            }
        },
        None => IPV6_MIN_MTU,
    }
}

} // verus!
