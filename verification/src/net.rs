//! Network helpers: link-layer addresses, the ICMPv6 type filter of a raw
//! socket, interface names as the kernel takes them, and the flags and
//! error numbers of file descriptors.

use vstd::prelude::*;
use vstd::string::{StringExecFns, StringSliceAdditionalSpecFns};

verus! {

/// Errors of the network helpers.
#[derive(Debug, PartialEq, Eq)]
pub enum Error {
    /// The address could not be resolved: the address and the reason.
    AddrError { addr: String, explanation: String },
    /// A buffer of this length is too small.
    BufferTooSmall { len: usize },
    /// An interface name longer than the kernel takes.
    IfNameTooLong { if_name: String },
    /// No interface of this name.
    NoInterface { name: String },
    /// A value of the wrong size.
    WrongSize,
}

/// A link-layer (MAC) address.
#[derive(Clone, Copy, Debug, PartialEq, Eq, Hash)]
pub struct MacAddr {
    pub octets: [u8; 6],
}

impl MacAddr {
    pub fn new(a: u8, b: u8, c: u8, d: u8, e: u8, f: u8) -> (res: MacAddr)
        ensures
            res.octets@ == seq![a, b, c, d, e, f],
    {
        let res = MacAddr { octets: [a, b, c, d, e, f] };
        proof {
            assert(res.octets@ =~= seq![a, b, c, d, e, f]);
        }
        res
    }

    pub fn as_bytes(&self) -> (res: &[u8])
        ensures
            res@ == self.octets@,
    {
        self.octets.as_slice()
    }

    /// The address with the octets `x`; `WrongSize` unless there are six.
    pub fn from_bytes(x: &[u8]) -> (res: Result<MacAddr, Error>)
        ensures
            x@.len() == 6 ==> (res matches Ok(m) && m.octets@ == x@),
            x@.len() != 6 ==> res == Err::<MacAddr, Error>(Error::WrongSize),
    {
        if x.len() != 6 {
            return Err(Error::WrongSize);
        }
        let res = MacAddr { octets: [x[0], x[1], x[2], x[3], x[4], x[5]] };
        proof {
            assert(res.octets@ =~= x@);
        }
        Ok(res)
    }
}

/// The lower-case hexadecimal digit of `d` (`f` from 15 on).
pub open spec fn hex_digit(d: int) -> char {
    if d == 0 {
        '0'
    } else if d == 1 {
        '1'
    } else if d == 2 {
        '2'
    } else if d == 3 {
        '3'
    } else if d == 4 {
        '4'
    } else if d == 5 {
        '5'
    } else if d == 6 {
        '6'
    } else if d == 7 {
        '7'
    } else if d == 8 {
        '8'
    } else if d == 9 {
        '9'
    } else if d == 10 {
        'a'
    } else if d == 11 {
        'b'
    } else if d == 12 {
        'c'
    } else if d == 13 {
        'd'
    } else if d == 14 {
        'e'
    } else {
        'f'
    }
}

/// An octet as two lower-case hexadecimal digits.
pub open spec fn octet_text(b: u8) -> Seq<char> {
    seq![hex_digit((b / 16) as int), hex_digit((b % 16) as int)]
}

/// The first `n` octets of `o` as text, separated by colons.
pub open spec fn octets_text(o: Seq<u8>, n: int) -> Seq<char>
    decreases n,
{
    if n <= 0 {
        Seq::empty()
    } else if n == 1 {
        octet_text(o[0])
    } else {
        octets_text(o, n - 1) + seq![':'] + octet_text(o[n - 1])
    }
}

/// The digit of `d` as a one-character string.
fn hex_str(d: u8) -> (res: &'static str)
    requires
        d < 16,
    ensures
        res@ == seq![hex_digit(d as int)],
{
    match d {
        0 => {
            proof {
                reveal_strlit("0");
            }
            "0"
        },
        1 => {
            proof {
                reveal_strlit("1");
            }
            "1"
        },
        2 => {
            proof {
                reveal_strlit("2");
            }
            "2"
        },
        3 => {
            proof {
                reveal_strlit("3");
            }
            "3"
        },
        4 => {
            proof {
                reveal_strlit("4");
            }
            "4"
        },
        5 => {
            proof {
                reveal_strlit("5");
            }
            "5"
        },
        6 => {
            proof {
                reveal_strlit("6");
            }
            "6"
        },
        7 => {
            proof {
                reveal_strlit("7");
            }
            "7"
        },
        8 => {
            proof {
                reveal_strlit("8");
            }
            "8"
        },
        9 => {
            proof {
                reveal_strlit("9");
            }
            "9"
        },
        10 => {
            proof {
                reveal_strlit("a");
            }
            "a"
        },
        11 => {
            proof {
                reveal_strlit("b");
            }
            "b"
        },
        12 => {
            proof {
                reveal_strlit("c");
            }
            "c"
        },
        13 => {
            proof {
                reveal_strlit("d");
            }
            "d"
        },
        14 => {
            proof {
                reveal_strlit("e");
            }
            "e"
        },
        _ => {
            proof {
                reveal_strlit("f");
            }
            "f"
        },
    }
}

impl MacAddr {
    /// The address as text: each octet as two lower-case hexadecimal
    /// digits, separated by colons.
    pub fn to_text(&self) -> (res: String)
        ensures
            res@ == octets_text(self.octets@, 6),
    {
        let mut out = String::new();
        let mut i: usize = 0;
        while i < 6
            invariant
                i <= 6,
                out@ == octets_text(self.octets@, i as int),
            decreases 6 - i,
        {
            if i > 0 {
                proof {
                    reveal_strlit(":");
                }
                out.append(":");
            }
            let b = self.octets[i];
            out.append(hex_str(b / 16));
            out.append(hex_str(b % 16));
            i = i + 1;
        }
        out
    }
}

/// Longest interface name the kernel takes, terminating zero included.
pub const IFNAMSIZ: usize = 16;

/// `O_NONBLOCK` of Linux.
pub const O_NONBLOCK: i32 = 0o4000;

/// `EAGAIN` (also `EWOULDBLOCK`) of Linux.
pub const EAGAIN: i32 = 11;

/// `EWOULDBLOCK` of Linux.
pub const EWOULDBLOCK: i32 = 11;

/// The error number asks to try again later.
pub fn check_for_eagain(x: i32) -> (res: bool)
    ensures
        res == (x == EAGAIN || x == EWOULDBLOCK),
{
    x == EAGAIN || x == EWOULDBLOCK
}

/// The name field of an interface request for `ifname`: its bytes followed
/// by zeros; `IfNameTooLong` when no terminating zero would fit.
pub fn ifreq_name(ifname: &str) -> (res: Result<[u8; 16], Error>)
    ensures
        ifname.spec_bytes().len() >= IFNAMSIZ ==> (res matches Err(Error::IfNameTooLong { if_name }) && if_name@
            == ifname@),
        ifname.spec_bytes().len() < IFNAMSIZ ==> (res matches Ok(field) && forall|i: int|
            0 <= i < 16 ==> field@[i] == (if i < ifname.spec_bytes().len() {
                ifname.spec_bytes()[i]
            } else {
                0u8
            })),
{
    let bytes = ifname.as_bytes();
    if bytes.len() >= IFNAMSIZ {
        return Err(Error::IfNameTooLong { if_name: ifname.to_owned() });
    }
    let mut field = [0u8; 16];
    let mut i: usize = 0;
    while i < bytes.len()
        invariant
            i <= bytes@.len() < 16,
            bytes@ == ifname.spec_bytes(),
            forall|j: int| 0 <= j < 16 ==> field@[j] == (if j < i { bytes@[j] } else { 0u8 }),
        decreases bytes@.len() - i,
    {
        field[i] = bytes[i];
        i = i + 1;
    }
    Ok(field)
}

/// The file flags to set for the non-blocking mode asked: with
/// `O_NONBLOCK` added for `nonblock`, else the flags masked to `O_NONBLOCK`.
pub open spec fn nonblock_flags_spec(flags: i32, nonblock: bool) -> i32 {
    if nonblock {
        flags | O_NONBLOCK
    } else {
        flags & O_NONBLOCK
    }
}

/// The new file flags for the non-blocking mode asked (see
/// `nonblock_flags_spec`), whether they differ from `flags` (so that they
/// must be set), and whether the mode was non-blocking before.
pub fn nonblock_flags(flags: i32, nonblock: bool) -> (res: (i32, bool, bool))
    ensures
        res.0 == nonblock_flags_spec(flags, nonblock),
        res.1 == (res.0 != flags),
        res.2 == (flags & O_NONBLOCK == O_NONBLOCK),
{
    let new_flags = if nonblock {
        flags | O_NONBLOCK
    } else {
        flags & O_NONBLOCK
    };
    (new_flags, new_flags != flags, flags & O_NONBLOCK == O_NONBLOCK)
}

/// The bit of ICMPv6 type `t` in a type filter: set means blocked.
pub open spec fn filter_bit(words: [u32; 8], t: u8) -> bool {
    (words@[(t / 32) as int] >> ((t % 32) as u32)) & 1u32 == 1u32
}

/// Clears (`block` false) or sets the bit of type `t`.
fn set_filter_bit(words: &mut [u32; 8], t: u8, block: bool)
    ensures
        filter_bit(*final(words), t) == block,
        forall|u: u8| u != t ==> filter_bit(*final(words), u) == filter_bit(*old(words), u),
{
    let idx = (t / 32) as usize;
    let bit = (t % 32) as u32;
    let w = words[idx];
    let nw = if block {
        w | (1u32 << bit)
    } else {
        w & !(1u32 << bit)
    };
    words[idx] = nw;
    proof {
        assert(bit < 32);
        if block {
            assert(((w | (1u32 << bit)) >> bit) & 1u32 == 1u32) by (bit_vector)
                requires
                    bit < 32,
            ;
        } else {
            assert(((w & !(1u32 << bit)) >> bit) & 1u32 == 0u32) by (bit_vector)
                requires
                    bit < 32,
            ;
        }
        assert forall|u: u8| u != t implies filter_bit(*words, u) == filter_bit(*old(words), u) by {
            let ui = u / 32;
            let ub = (u % 32) as u32;
            if ui != idx {
                assert(words@[ui as int] == old(words)@[ui as int]);
            } else {
                assert(ub != bit);
                assert(ub < 32);
                if block {
                    assert((((w | (1u32 << bit)) >> ub) & 1u32) == ((w >> ub) & 1u32)) by (bit_vector)
                        requires
                            bit < 32,
                            ub < 32,
                            ub != bit,
                    ;
                } else {
                    assert((((w & !(1u32 << bit)) >> ub) & 1u32) == ((w >> ub) & 1u32)) by (bit_vector)
                        requires
                            bit < 32,
                            ub < 32,
                            ub != bit,
                    ;
                }
            }
        }
    }
}

/// Words all ones block every type; words all zeros pass every type.
proof fn lemma_filter_all(words: [u32; 8], ones: bool)
    requires
        forall|i: int| 0 <= i < 8 ==> words@[i] == (if ones { 0xffff_ffffu32 } else { 0u32 }),
    ensures
        forall|t: u8| filter_bit(words, t) == ones,
{
    assert forall|t: u8| filter_bit(words, t) == ones by {
        let s = (t % 32) as u32;
        assert(words@[(t / 32) as int] == (if ones { 0xffff_ffffu32 } else { 0u32 }));
        assert((0xffff_ffffu32 >> s) & 1u32 == 1u32) by (bit_vector)
            requires
                s < 32,
        ;
        assert((0u32 >> s) & 1u32 == 0u32) by (bit_vector);
    }
}

/// The ICMPv6 type filter of a raw socket: one bit per type, set when the
/// type is blocked.
#[allow(non_camel_case_types)]
#[derive(Clone, Copy, Debug)]
pub struct icmp6_filter {
    words: [u32; 8],
}

impl icmp6_filter {
    /// Messages of ICMPv6 type `t` are blocked.
    pub closed spec fn blocks(&self, t: u8) -> bool {
        filter_bit(self.words, t)
    }

    /// A filter that blocks every type.
    pub fn new() -> (res: Self)
        ensures
            forall|t: u8| res.blocks(t),
    {
        let res = Self { words: [0xffff_ffffu32; 8] };
        proof {
            lemma_filter_all(res.words, true);
        }
        res
    }

    /// A filter that passes every type.
    pub fn new_pass() -> (res: Self)
        ensures
            forall|t: u8| !res.blocks(t),
    {
        let res = Self { words: [0u32; 8] };
        proof {
            lemma_filter_all(res.words, false);
        }
        res
    }

    /// Lets messages of type `icmp_type` through.
    pub fn pass(&mut self, icmp_type: u8)
        ensures
            !final(self).blocks(icmp_type),
            forall|u: u8| u != icmp_type ==> final(self).blocks(u) == old(self).blocks(u),
    {
        set_filter_bit(&mut self.words, icmp_type, false);
    }

    /// Blocks messages of type `icmp_type`.
    pub fn block(&mut self, icmp_type: u8)
        ensures
            final(self).blocks(icmp_type),
            forall|u: u8| u != icmp_type ==> final(self).blocks(u) == old(self).blocks(u),
    {
        set_filter_bit(&mut self.words, icmp_type, true);
    }

    /// The eight words of the filter, as the kernel takes them.
    pub fn words(&self) -> (res: [u32; 8])
        ensures
            forall|t: u8| filter_bit(res, t) == self.blocks(t),
    {
        self.words
    }
}

} // verus!
