//! The decisions of the sending side of a stream: which data goes out next,
//! what an acknowledgement from the server releases, what a timeout sends
//! again, and when the data is all acknowledged.  Reading the input, sending
//! packets and running the timers is up to the caller, who reports each
//! event to a `SendData` and carries out what it answers.

use std::collections::VecDeque;

use vstd::prelude::*;

use crate::ack_waitlist::{
    is_first_unacked, lemma_removed_range_keeps, removal_bounds, removed_range, same_list, AckWait,
    AckWaitlist,
};
use crate::buffer::{cleaned, lemma_released_after_push, released_after, releases_done, TrimmingBuffer, TrimmingBufferSlice};
use crate::checksum::MAX_CHECKSUMMED_LEN;
use crate::constants::{
    valid_flag_bits, StreamPacketFlags, STREAM_ACK, STREAM_CLIENT_FULL_HEADER_SIZE,
    STREAM_CLIENT_HEADER_SIZE_WITH_IP, STREAM_FIN, STREAM_SERVER_FULL_HEADER_SIZE, STREAM_SYN,
    STREAM_WS,
};
use crate::irange::IRange;
use crate::packet::{client_packet, make_stream_client_icmpv6_packet, parse_stream_server_packet, be16};

verus! {

/// The sequence number `k` steps before `next` (modulo 2^16).
pub open spec fn seqno_back(next: u16, k: int) -> u16 {
    ((next as int - k) % 65536) as u16
}

/// How far `from` lies behind `next`, modulo 2^16.
pub open spec fn seqno_diff(next: u16, from: u16) -> int {
    (next as int - from as int) % 65536
}

/// The distance from `seqno_back(next, k)` to `next` is `k`.
proof fn lemma_seqno_diff(next: u16, k: int)
    requires
        0 <= k < 65536,
    ensures
        seqno_diff(next, seqno_back(next, k)) == k,
{
    let m = 65536int;
    let s = (next as int - k) % m;
    let q = (next as int - k) / m;
    assert(next as int - k == q * m + s) by (nonlinear_arith)
        requires
            m == 65536,
            s == (next as int - k) % m,
            q == (next as int - k) / m,
    ;
    assert(next as int - s == q * m + k);
    assert((q * m + k) % m == k) by (nonlinear_arith)
        requires
            m == 65536,
            0 <= k < m,
    ;
}

/// Stepping both the next sequence number and the distance by one names
/// the same sequence number.
proof fn lemma_seqno_back_step(next: u16, k: int)
    ensures
        seqno_back(next_seqno_after(next), k + 1) == seqno_back(next, k),
{
    let m = 65536int;
    let a = next as int - k;
    if next == 65535 {
        assert(next_seqno_after(next) == 0);
        assert((0 - (k + 1)) == a - m);
        assert((a - m) % m == a % m) by (nonlinear_arith)
            requires
                m == 65536,
        ;
    } else {
        assert(next_seqno_after(next) == next + 1);
    }
}

/// How an acknowledgement takes `w` to `after` through `mid`: when it hits
/// the window with the WS flag, `[ws, start]` is acknowledged first
/// (answering `r1`), and then `[start, end]` (answering `r2`).
pub open spec fn ack_steps(
    w: AckWaitlist,
    mid: AckWaitlist,
    after: AckWaitlist,
    ws_hit: bool,
    ws: u16,
    start: u16,
    end: u16,
    r1: bool,
    r2: bool,
) -> bool {
    &&& ws_hit ==> removed_range(w, mid, ws, start, r1)
    &&& !ws_hit ==> same_list(w, mid) && !r1
    &&& removed_range(mid, after, start, end, r2)
}

/// The waiting packets are numbered in increasing order: their numbers do
/// not wrap around within the list.
pub open spec fn seqnos_increasing(w: AckWaitlist) -> bool {
    forall|i: int, j: int|
        0 <= i < j < w.waits().len() ==> #[trigger] w.waits()[i].seqno < #[trigger] w.waits()[j].seqno
}

/// Every packet of `w` numbered in `[s, e]` is acknowledged in `after`.
pub open spec fn acks_range(w: AckWaitlist, after: AckWaitlist, s: u16, e: u16) -> bool {
    forall|i: int| 0 <= i < w.waits().len() && s <= #[trigger] w.waits()[i].seqno <= e ==> after.acked(i)
}

/// An acknowledgement of `[s, e]` (with `s <= e`) leaves every waiting
/// packet numbered in `[s, e]` acknowledged, whether or not it carries WS
/// and whether or not `s` lies in the window.  This needs the waiting
/// numbers not to wrap around: the acknowledgement walks the list in order
/// and stops at the first number past `e`.
pub proof fn lemma_ack_covers_range(
    w: AckWaitlist,
    mid: AckWaitlist,
    after: AckWaitlist,
    ws_hit: bool,
    ws: u16,
    s: u16,
    e: u16,
    r1: bool,
    r2: bool,
)
    requires
        ack_steps(w, mid, after, ws_hit, ws, s, e, r1, r2),
        s <= e,
        seqnos_increasing(w),
    ensures
        acks_range(w, after, s, e),
{
    if ws_hit {
        lemma_removed_range_keeps(w, mid, ws, s, r1);
    }
    assert(mid.waits() == w.waits());
    let q = mid.waits();
    let n = q.len() as int;
    let (a, b) = choose|a: int, b: int|
        {
            &&& #[trigger] removal_bounds(mid, s, e, a, b)
            &&& after.waits() == mid.waits()
            &&& after.capacity() == mid.capacity()
            &&& forall|p: int| #[trigger] after.acked(p) == (mid.acked(p) || a <= p < b)
            &&& r2 == (a < b)
        };
    assert forall|i: int| 0 <= i < w.waits().len() && s <= #[trigger] w.waits()[i].seqno <= e implies after.acked(
        i,
    ) by {
        assert(q[i] == w.waits()[i]);
        if !mid.acked(i) {
            if i < a {
                assert(q[i].seqno < s);
            } else if i >= b {
                assert(b < n);
                assert(q[b].seqno > e);
                if i > b {
                    assert(w.waits()[b].seqno < w.waits()[i].seqno);
                }
            }
        }
        assert(after.acked(i) == (mid.acked(i) || a <= i < b));
    }
}

/// The sequence number after `x`, wrapping around.
pub open spec fn next_seqno_after(x: u16) -> u16 {
    if x == 65535 {
        0
    } else {
        (x + 1) as u16
    }
}

/// Marking more packets moves the first unacknowledged index forward, if at
/// all.
proof fn lemma_first_unacked_grows(before: AckWaitlist, after: AckWaitlist)
    requires
        after.waits() == before.waits(),
        forall|p: int| #[trigger] before.acked(p) ==> after.acked(p),
    ensures
        after.first_unacked() >= before.first_unacked(),
{
    before.lemma_first_unacked();
    after.lemma_first_unacked();
    let f = before.first_unacked();
    let g = after.first_unacked();
    if g < f {
        assert(before.acked(g));
    }
}

/// The data packet with sequence number `seqno` and data `payload`.
fn data_packet(src: [u8; 16], dst: [u8; 16], seqno: u16, payload: &[u8]) -> (res: Vec<u8>)
    requires
        STREAM_CLIENT_FULL_HEADER_SIZE + payload@.len() <= MAX_CHECKSUMMED_LEN,
    ensures
        res@ == client_packet(src@, dst@, seqno, 0, payload@),
{
    let mut buf: Vec<u8> = Vec::new();
    make_stream_client_icmpv6_packet(&mut buf, src, dst, seqno, StreamPacketFlags::empty(), payload)
}

/// The data of the next packet: fresh input, or a packet to send again
/// with its sequence number.
pub enum NextData {
    Input(TrimmingBufferSlice),
    Retransmission(Vec<u8>, u16),
}

impl NextData {
    /// The data the packet carries.
    pub open spec fn bytes(&self) -> Seq<u8> {
        match self {
            NextData::Input(s) => s@,
            NextData::Retransmission(v, _) => v@,
        }
    }

    pub fn from_tb_slice(slice: TrimmingBufferSlice) -> (res: NextData)
        ensures
            res == NextData::Input(slice),
    {
        NextData::Input(slice)
    }

    pub fn from_retransmission(payload: Vec<u8>, seqno: u16) -> (res: NextData)
        ensures
            res == NextData::Retransmission(payload, seqno),
    {
        NextData::Retransmission(payload, seqno)
    }

    /// The data the packet carries.
    pub fn as_slice(&self) -> (res: &[u8])
        ensures
            res@ == self.bytes(),
    {
        match self {
            NextData::Input(s) => s.as_slice(),
            NextData::Retransmission(v, _) => v.as_slice(),
        }
    }
}

/// `after` is the waiting list `before` without the run of acknowledged
/// packets at its front; the rest keep their acknowledgement state.
pub open spec fn acked_dropped(before: AckWaitlist, after: AckWaitlist) -> bool {
    &&& after.waits() == before.waits().skip(before.first_unacked())
    &&& after.first_unacked() == 0
    &&& after.capacity() == before.capacity()
    &&& forall|p: int| p >= 0 ==> #[trigger] after.acked(p) == before.acked(p + before.first_unacked())
}

/// The data of the acknowledged packets at the front of `w`, first to
/// last.
pub open spec fn acked_front_data(w: AckWaitlist) -> Seq<TrimmingBufferSlice> {
    w.waits().take(w.first_unacked()).map_values(|a: AckWait| a.data)
}

/// What `read_space` does to a stream whose read buffer has less room than
/// the MTU: the released front of the buffer is dropped; when the room is
/// still short of the MTU, the acknowledged packets at the front of the
/// waiting list are dropped too, their data given back to the buffer, and
/// its released front dropped again.
pub open spec fn frees_room(before: SendData, after: SendData) -> bool {
    exists|b1: TrimmingBuffer|
        #[trigger] cleaned(before.read_buf(), b1) && {
            let short = b1.capacity() - b1.data().len() < before.mtu();
            &&& !short ==> after.read_buf() == b1 && after.ack_wait() == before.ack_wait()
            &&& short ==> acked_dropped(before.ack_wait(), after.ack_wait()) && exists|b2: TrimmingBuffer|
                #[trigger] releases_done(b1, b2, acked_front_data(before.ack_wait())) && cleaned(
                    b2,
                    after.read_buf(),
                )
        }
}

/// The state of the data transfer phase of a sending stream./// The state of the data transfer phase of a sending stream.
pub struct SendData {
    read_buf: TrimmingBuffer,
    next_data: Option<NextData>,
    retransmit_queue: VecDeque<(Vec<u8>, u16)>,
    send_pending: bool,
    ack_wait: AckWaitlist,
    reached_input_eof: bool,
    next_seqno: u16,
    window_size: u32,
    mtu: u16,
}

impl SendData {
    /// Input read and not acknowledged yet.
    pub closed spec fn read_buf(&self) -> TrimmingBuffer {
        self.read_buf
    }

    /// The data chosen for the next packet.
    pub closed spec fn next_data(&self) -> Option<NextData> {
        self.next_data
    }

    /// Packets to send again, with their sequence numbers.
    pub closed spec fn retransmit_queue(&self) -> Seq<(Seq<u8>, u16)> {
        self.retransmit_queue@.map_values(|x: (Vec<u8>, u16)| (x.0@, x.1))
    }

    /// A packet is being sent.
    pub closed spec fn send_pending(&self) -> bool {
        self.send_pending
    }

    /// Sent packets that wait for an acknowledgement.
    pub closed spec fn ack_wait(&self) -> AckWaitlist {
        self.ack_wait
    }

    /// The input has ended.
    pub closed spec fn reached_input_eof(&self) -> bool {
        self.reached_input_eof
    }

    /// The sequence number of the next fresh packet.
    pub closed spec fn next_seqno(&self) -> u16 {
        self.next_seqno
    }

    /// The most packets sent and not acknowledged.
    pub closed spec fn window_size(&self) -> u32 {
        self.window_size
    }

    /// The path MTU, in bytes.
    pub closed spec fn mtu(&self) -> u16 {
        self.mtu
    }

    /// The most data bytes in one packet.
    pub open spec fn max_payload(&self) -> int {
        self.mtu() - STREAM_CLIENT_HEADER_SIZE_WITH_IP
    }

    /// Packets sent and not acknowledged: those from the first one not
    /// acknowledged to the last one sent.
    pub open spec fn in_flight(&self) -> int {
        self.ack_wait().waits().len() - self.ack_wait().first_unacked()
    }

    /// Some packet waits for an acknowledgement.
    pub open spec fn has_unacked(&self) -> bool {
        self.ack_wait().first_unacked() < self.ack_wait().waits().len()
    }

    /// The sequence number of the first packet not acknowledged.
    pub open spec fn window_start(&self) -> u16 {
        self.ack_wait().waits()[self.ack_wait().first_unacked()].seqno
    }

    /// The server packet `packet` has the WS flag and its first sequence
    /// number lies in the window.
    pub open spec fn ws_hit(&self, packet: Seq<u8>) -> bool {
        let start = be16(packet[8], packet[9]);
        &&& packet[7] & STREAM_WS == STREAM_WS
        &&& self.window_start() <= start
        &&& start <= self.window_start() + self.window_size() - 1
    }

    /// The window is full: as many packets are in flight as it allows,
    /// counted by sequence numbers from the first one not acknowledged.
    pub open spec fn window_full(&self) -> bool {
        let w = self.ack_wait();
        &&& w.first_unacked() < w.waits().len()
        &&& seqno_diff(self.next_seqno(), w.waits()[w.first_unacked()].seqno) == self.window_size()
    }

    pub closed spec fn wf(&self) -> bool {
        let n = self.ack_wait.waits().len();
        &&& self.read_buf.wf()
        &&& self.ack_wait.wf()
        &&& 1 <= self.window_size <= 65535
        &&& self.mtu >= 1280
        &&& self.ack_wait.capacity() == self.window_size * self.mtu
        &&& forall|i: int|
            0 <= i < n ==> (#[trigger] self.ack_wait.waits()[i]).seqno == seqno_back(
                self.next_seqno,
                n - i,
            )
        &&& forall|i: int|
            0 <= i < n ==> (#[trigger] self.ack_wait.waits()[i]).data@.len() <= self.max_payload()
        &&& forall|i: int|
            0 <= i < self.retransmit_queue@.len() ==> (#[trigger] self.retransmit_queue@[i]).0@.len()
                <= self.max_payload()
        &&& self.next_data matches Some(d) ==> d.bytes().len() <= self.max_payload()
        &&& self.in_flight() <= self.window_size
        &&& self.next_data matches Some(NextData::Input(_)) ==> self.in_flight() < self.window_size
    }

    /// The data transfer state at its start: nothing read, nothing sent;
    /// the first data packet gets `next_seqno`.  The window holds at most
    /// 65535 packets: with 65536, the test for a full window (the distance,
    /// modulo 2^16, from the first unacknowledged sequence number to the
    /// next one equals the window size) could never hold, and a packet
    /// would go out under the sequence number of one still unacknowledged.
    pub fn new(window_size: u32, mtu: u16, read_buffer_size: usize, next_seqno: u16) -> (res:
        SendData)
        requires
            1 <= window_size <= 65535,
            mtu >= 1280,
            read_buffer_size < isize::MAX,
            (window_size as int) * (mtu as int) < isize::MAX,
        ensures
            res.wf(),
            res.read_buf().capacity() == read_buffer_size,
            res.read_buf().data().len() == 0,
            res.next_data() is None,
            res.retransmit_queue().len() == 0,
            !res.send_pending(),
            res.ack_wait().waits().len() == 0,
            !res.reached_input_eof(),
            res.next_seqno() == next_seqno,
            res.window_size() == window_size,
            res.mtu() == mtu,
    {
        let res = SendData {
            read_buf: TrimmingBuffer::new(read_buffer_size),
            next_data: None,
            retransmit_queue: VecDeque::new(),
            send_pending: false,
            ack_wait: AckWaitlist::new(window_size, mtu),
            reached_input_eof: false,
            next_seqno,
            window_size,
            mtu,
        };
        proof {
            res.ack_wait.lemma_first_unacked();
            assert(res.retransmit_queue() =~= Seq::<(Seq<u8>, u16)>::empty());
        }
        res
    }

    /// The first index of the waiting list that is not acknowledged.
    proof fn lemma_first_unacked_unique(w: AckWaitlist, f: int)
        requires
            is_first_unacked(w, f),
        ensures
            w.first_unacked() == f,
    {
        w.lemma_first_unacked();
        let g = w.first_unacked();
        if g < f {
            assert(w.acked(g));
        }
        if f < g {
            assert(w.acked(f));
        }
    }

    /// Drops the acknowledged packets at the front of the waiting list and
    /// gives their data back to the read buffer.
    fn release_acked(&mut self)
        requires
            old(self).wf(),
        ensures
            final(self).wf(),
            final(self).read_buf().data() == old(self).read_buf().data(),
            final(self).read_buf().capacity() == old(self).read_buf().capacity(),
            final(self).read_buf().first_available() == old(self).read_buf().first_available(),
            final(self).read_buf().drained() == old(self).read_buf().drained(),
            forall|p: int| #[trigger] old(self).read_buf().released(p) ==> final(self).read_buf().released(p),
            final(self).next_data() == old(self).next_data(),
            final(self).retransmit_queue() == old(self).retransmit_queue(),
            final(self).send_pending() == old(self).send_pending(),
            final(self).reached_input_eof() == old(self).reached_input_eof(),
            final(self).next_seqno() == old(self).next_seqno(),
            final(self).window_size() == old(self).window_size(),
            final(self).mtu() == old(self).mtu(),
            final(self).in_flight() == old(self).in_flight(),
            final(self).ack_wait().waits() == old(self).ack_wait().waits().skip(
                old(self).ack_wait().first_unacked(),
            ),
            final(self).ack_wait().first_unacked() == 0,
            final(self).ack_wait().capacity() == old(self).ack_wait().capacity(),
            forall|p: int|
                p >= 0 ==> #[trigger] final(self).ack_wait().acked(p) == old(self).ack_wait().acked(
                    p + old(self).ack_wait().first_unacked(),
                ),
            acked_dropped(old(self).ack_wait(), final(self).ack_wait()),
            releases_done(old(self).read_buf(), final(self).read_buf(), acked_front_data(old(self).ack_wait())),
    {
        let ghost w0 = self.ack_wait;
        proof {
            w0.lemma_first_unacked();
        }
        let ghost f = w0.first_unacked();
        let dropped = self.ack_wait.cleanup();
        let ghost w1 = self.ack_wait;
        proof {
            let n = w0.waits().len();
            if w0.acked(0) {
                let k = choose|k: int|
                    {
                        &&& #[trigger] crate::ack_waitlist::dropped_acked(w0, w1, k)
                        &&& dropped@ == w0.waits().take(k + 1)
                    };
                assert(f == k + 1) by {
                    if f <= k {
                        assert(w0.acked(f));
                    }
                    if f > k + 1 {
                        assert(w0.acked(k + 1));
                    }
                }
                assert(is_first_unacked(w1, 0)) by {
                    if 0 < w1.waits().len() {
                        assert(!w0.acked(f));
                        assert(w1.acked(0) == w0.acked(0 + k + 1));
                    }
                }
                Self::lemma_first_unacked_unique(w1, 0);
                assert forall|i: int| 0 <= i < w1.waits().len() implies (#[trigger] w1.waits()[i]).seqno
                    == seqno_back(self.next_seqno, w1.waits().len() - i) by {
                    assert(w1.waits()[i] == w0.waits()[i + k + 1]);
                }
                assert forall|i: int| 0 <= i < w1.waits().len() implies (
                #[trigger] w1.waits()[i]).data@.len() <= self.max_payload() by {
                    assert(w1.waits()[i] == w0.waits()[i + k + 1]);
                }
            } else {
                assert(f == 0) by {
                    if f > 0 {
                        assert(w0.acked(0));
                    }
                }
                assert(is_first_unacked(w1, 0));
                Self::lemma_first_unacked_unique(w1, 0);
                assert(w1.waits() =~= w0.waits().skip(0));
            }
        }
        let mut dropped = dropped;
        let ghost s1 = *self;
        let ghost dropped0 = dropped@;
        let ghost ds = dropped0.map_values(|a: AckWait| a.data);
        proof {
            assert(dropped0 == w0.waits().take(f)) by {
                if !w0.acked(0) {
                    assert(dropped0 =~= w0.waits().take(0));
                }
            }
            assert(ds =~= acked_front_data(w0));
            assert forall|p: int| #[trigger] self.read_buf.released(p) == released_after(
                old(self).read_buf,
                ds.take(0),
                p,
            ) by {
                assert(ds.take(0).len() == 0);
            }
        }
        let ghost mut i: int = 0;
        while dropped.len() > 0
            invariant
                self.ack_wait == s1.ack_wait,
                self.next_data == s1.next_data,
                self.retransmit_queue == s1.retransmit_queue,
                self.send_pending == s1.send_pending,
                self.reached_input_eof == s1.reached_input_eof,
                self.next_seqno == s1.next_seqno,
                self.window_size == s1.window_size,
                self.mtu == s1.mtu,
                self.read_buf.wf(),
                self.read_buf.data() == old(self).read_buf.data(),
                self.read_buf.capacity() == old(self).read_buf.capacity(),
                self.read_buf.first_available() == old(self).read_buf.first_available(),
                self.read_buf.drained() == old(self).read_buf.drained(),
                forall|p: int| #[trigger] old(self).read_buf.released(p) ==> self.read_buf.released(p),
                0 <= i <= dropped0.len(),
                dropped@ == dropped0.skip(i),
                ds == dropped0.map_values(|a: AckWait| a.data),
                forall|p: int| #[trigger] self.read_buf.released(p) == released_after(
                    old(self).read_buf,
                    ds.take(i),
                    p,
                ),
            decreases dropped@.len(),
        {
            let w = dropped.remove(0);
            let ghost before = self.read_buf;
            proof {
                assert(w == dropped0[i]);
                assert(ds.take(i + 1).drop_last() =~= ds.take(i));
                assert(ds.take(i + 1).last() == w.data);
                assert(dropped@ =~= dropped0.skip(i + 1));
            }
            proof {
                let b0 = old(self).read_buf;
                let idx = b0.slice_index(&w.data);
                let n = w.data@.len() as int;
                assert(before.slice_index(&w.data) == idx);
                assert((forall|q: int| idx <= q < idx + n ==> !#[trigger] before.released(q)) == (forall|q: int|
                    idx <= q < idx + n ==> !#[trigger] released_after(b0, ds.take(i), q))) by {
                    assert forall|q: int|
                        #![trigger before.released(q)]
                        #![trigger released_after(b0, ds.take(i), q)]
                        before.released(q) == released_after(b0, ds.take(i), q) by {}
                }
            }
            let _ = self.read_buf.release(w.data);
            proof {
                assert forall|p: int| #[trigger] old(self).read_buf.released(p) implies self.read_buf.released(p) by {
                    assert(before.released(p));
                }
                assert(ds.take(i + 1) =~= ds.take(i).push(w.data));
                assert forall|p: int| #[trigger] self.read_buf.released(p) == released_after(
                    old(self).read_buf,
                    ds.take(i + 1),
                    p,
                ) by {
                    lemma_released_after_push(old(self).read_buf, ds.take(i), w.data, p);
                }
                i = i + 1;
            }
        }
        proof {
            assert(i == dropped0.len());
            assert(ds.take(i) =~= ds);
        }
    }

    /// Chooses the data of the next packet, when none is chosen: the first
    /// packet waiting to be sent again, else fresh input of up to
    /// `max_payload` bytes, unless the window is full or no input is
    /// available.
    pub fn fill_next_data(&mut self)
        requires
            old(self).wf(),
        ensures
            final(self).wf(),
            final(self).send_pending() == old(self).send_pending(),
            final(self).ack_wait() == old(self).ack_wait(),
            final(self).reached_input_eof() == old(self).reached_input_eof(),
            final(self).next_seqno() == old(self).next_seqno(),
            final(self).window_size() == old(self).window_size(),
            final(self).mtu() == old(self).mtu(),
            final(self).read_buf().data() == old(self).read_buf().data(),
            final(self).read_buf().capacity() == old(self).read_buf().capacity(),
            final(self).read_buf().drained() == old(self).read_buf().drained(),
            forall|p: int| #[trigger] final(self).read_buf().released(p) == old(self).read_buf().released(p),
            old(self).next_data() is Some ==> final(self).next_data() == old(self).next_data()
                && final(self).retransmit_queue() == old(self).retransmit_queue()
                && final(self).read_buf().first_available() == old(self).read_buf().first_available(),
            old(self).next_data() is None && old(self).retransmit_queue().len() > 0 ==> {
                &&& final(self).next_data() matches Some(NextData::Retransmission(v, s))
                &&& (v@, s) == old(self).retransmit_queue()[0]
                &&& final(self).retransmit_queue() == old(self).retransmit_queue().drop_first()
                &&& final(self).read_buf().first_available() == old(self).read_buf().first_available()
            },
            old(self).next_data() is None && old(self).retransmit_queue().len() == 0 ==> {
                let rb = old(self).read_buf();
                let fa = rb.first_available() as int;
                let avail = rb.data().len() - fa;
                let n = if avail < old(self).max_payload() { avail } else { old(self).max_payload() };
                &&& final(self).retransmit_queue() == old(self).retransmit_queue()
                &&& (old(self).window_full() || n == 0) ==> final(self).next_data() is None
                    && final(self).read_buf().first_available() == fa
                &&& (!old(self).window_full() && n > 0) ==> {
                    &&& final(self).next_data() matches Some(NextData::Input(sl))
                    &&& sl@ == rb.data().subrange(fa, fa + n)
                    &&& sl.pos() == vstd::wrapping::usize_specs::wrapping_add(rb.drained(), fa as usize)
                    &&& final(self).read_buf().first_available() == fa + n
                }
            },
    {
        if self.next_data.is_some() {
            return;
        }
        if self.retransmit_queue.len() == 0 {
            let ghost w = self.ack_wait;
            proof {
                w.lemma_first_unacked();
            }
            match self.ack_wait.first_seqno() {
                Some(window_start) => {
                    let diff: u32 = if self.next_seqno >= window_start {
                        (self.next_seqno - window_start) as u32
                    } else {
                        (65536u32 - window_start as u32) + self.next_seqno as u32
                    };
                    proof {
                        let f = w.first_unacked();
                        let n = w.waits().len();
                        lemma_seqno_diff(self.next_seqno, n - f);
                        assert(diff == seqno_diff(self.next_seqno, window_start));
                        assert(diff == n - f);
                    }
                    if diff == self.window_size {
                        return;
                    }
                },
                None => {},
            }
            proof {
                crate::constants::lemma_header_sizes();
            }
            let max = (self.mtu - STREAM_CLIENT_HEADER_SIZE_WITH_IP as u16) as usize;
            let ghost rb0 = self.read_buf;
            match self.read_buf.take(max) {
                Some(slice) => {
                    proof {
                        let fa = rb0.first_available() as int;
                        let avail = rb0.data().len() - fa;
                        let n = if avail < max { avail } else { max as int };
                        rb0.lemma_wf();
                        assert(slice@ == rb0.data().subrange(fa, fa + n));
                        assert(slice@.len() == n);
                        assert(slice@.len() <= max);
                        assert(max == self.max_payload());
                    }
                    self.next_data = Some(NextData::from_tb_slice(slice));
                    proof {
                        let f = w.first_unacked();
                        let n = w.waits().len();
                        if f < n {
                            lemma_seqno_diff(self.next_seqno, n - f);
                        }
                    }
                },
                None => {},
            }
        } else {
            let ghost q = self.retransmit_queue@;
            match self.retransmit_queue.pop_front() {
                Some((payload, seqno)) => {
                    self.next_data = Some(NextData::from_retransmission(payload, seqno));
                    proof {
                        assert(self.retransmit_queue@ =~= q.drop_first());
                        assert(self.retransmit_queue() =~= old(self).retransmit_queue().drop_first());
                        assert(q[0].0@.len() <= self.max_payload());
                        assert forall|i: int| 0 <= i < self.retransmit_queue@.len() implies (
                        #[trigger] self.retransmit_queue@[i]).0@.len() <= self.max_payload() by {
                            assert(self.retransmit_queue@[i] == q[i + 1]);
                        }
                    }
                },
                None => {},
            }
        }
    }

    /// Turns the chosen data into the packet to send, unless a packet is
    /// being sent already.  Fresh input gets the next sequence number and
    /// joins the waiting list (after the acknowledged packets at its front
    /// are dropped, when the list is full); a packet sent again keeps its
    /// sequence number.
    pub fn make_data_send(&mut self, src: [u8; 16], dst: [u8; 16]) -> (res: Option<Vec<u8>>)
        requires
            old(self).wf(),
            old(self).next_data() is Some,
        ensures
            final(self).wf(),
            old(self).send_pending() ==> res is None && *final(self) == *old(self),
            !old(self).send_pending() ==> {
                &&& final(self).send_pending()
                &&& final(self).next_data() is None
                &&& final(self).retransmit_queue() == old(self).retransmit_queue()
                &&& final(self).reached_input_eof() == old(self).reached_input_eof()
                &&& final(self).window_size() == old(self).window_size()
                &&& final(self).mtu() == old(self).mtu()
                &&& final(self).read_buf().data() == old(self).read_buf().data()
                &&& final(self).read_buf().capacity() == old(self).read_buf().capacity()
                &&& final(self).read_buf().first_available() == old(self).read_buf().first_available()
                &&& final(self).read_buf().drained() == old(self).read_buf().drained()
                &&& forall|p: int| #[trigger] old(self).read_buf().released(p) ==> final(self).read_buf().released(p)
            },
            !old(self).send_pending() ==> (old(self).next_data() matches Some(NextData::Input(sl)) ==> {
                let w = old(self).ack_wait();
                let f = if w.waits().len() == w.capacity() { w.first_unacked() } else { 0 };
                let seqno = old(self).next_seqno();
                &&& (res matches Some(p) && p@ == client_packet(src@, dst@, seqno, 0, sl@))
                &&& final(self).next_seqno() == next_seqno_after(seqno)
                &&& final(self).ack_wait().waits() == w.waits().skip(f).push(AckWait { seqno, data: sl })
                &&& forall|q: int| #![trigger final(self).ack_wait().acked(q)]
                    q >= 0 ==> final(self).ack_wait().acked(q) == w.acked(q + f)
            }),
            !old(self).send_pending() ==> (old(self).next_data() matches Some(
                NextData::Retransmission(v, seqno),
            ) ==> {
                &&& (res matches Some(p) && p@ == client_packet(src@, dst@, seqno, 0, v@))
                &&& final(self).next_seqno() == old(self).next_seqno()
                &&& final(self).ack_wait() == old(self).ack_wait()
            }),
    {
        if self.send_pending {
            return None;
        }
        let ghost in_flight0 = self.in_flight();
        proof {
            crate::constants::lemma_header_sizes();
        }
        let data = self.next_data.take();
        match data {
            Some(NextData::Input(slice)) => {
                let seqno = self.next_seqno;
                let pkt = data_packet(src, dst, seqno, slice.as_slice());
                self.send_pending = true;
                let ghost w0 = self.ack_wait;
                proof {
                    w0.lemma_wf();
                    w0.lemma_first_unacked();
                }
                if self.ack_wait.is_full() {
                    self.release_acked();
                    proof {
                        assert(self.ack_wait.waits().len() == in_flight0);
                        assert(self.window_size * self.mtu >= self.window_size * 2) by (nonlinear_arith)
                            requires
                                self.mtu >= 1280,
                        ;
                    }
                } else {
                    proof {
                        assert(w0.waits() =~= w0.waits().skip(0));
                    }
                }
                let ghost w1 = self.ack_wait;
                let ghost f1 = w1.first_unacked();
                proof {
                    w1.lemma_wf();
                    w1.lemma_first_unacked();
                    assert(self.window_size * self.mtu >= self.window_size * 2) by (nonlinear_arith)
                        requires
                            self.mtu >= 1280,
                    ;
                }
                self.ack_wait.add(AckWait::new(seqno, slice));
                self.next_seqno = if seqno == 65535 {
                    0
                } else {
                    seqno + 1
                };
                proof {
                    let w2 = self.ack_wait;
                    let n1 = w1.waits().len();
                    assert(is_first_unacked(w2, f1)) by {
                        if f1 < n1 {
                            assert(!w1.acked(f1));
                        } else {
                            assert(!w1.acked(n1 as int));
                        }
                    }
                    Self::lemma_first_unacked_unique(w2, f1);
                    assert forall|i: int| 0 <= i < w2.waits().len() implies (
                    #[trigger] w2.waits()[i]).seqno == seqno_back(self.next_seqno, w2.waits().len() - i) by {
                        lemma_seqno_back_step(seqno, n1 - i);
                        if i < n1 {
                            assert(w2.waits()[i] == w1.waits()[i]);
                        } else {
                            assert(seqno_back(seqno, 0) == seqno);
                        }
                    }
                    assert forall|i: int| 0 <= i < w2.waits().len() implies (
                    #[trigger] w2.waits()[i]).data@.len() <= self.max_payload() by {
                        if i < n1 {
                            assert(w2.waits()[i] == w1.waits()[i]);
                        }
                    }
                }
                Some(pkt)
            },
            Some(NextData::Retransmission(payload, seqno)) => {
                let pkt = data_packet(src, dst, seqno, payload.as_slice());
                self.send_pending = true;
                Some(pkt)
            },
            None => None,
        }
    }

    /// The sequence number of the next fresh packet.
    pub fn get_next_seqno(&self) -> (res: u16)
        ensures
            res == self.next_seqno(),
    {
        self.next_seqno
    }

    /// Data is chosen for the next packet.
    pub fn has_next_data(&self) -> (res: bool)
        ensures
            res == (self.next_data() is Some),
    {
        self.next_data.is_some()
    }

    /// Number of packets waiting to be sent again.
    pub fn retransmissions_queued(&self) -> (res: usize)
        ensures
            res == self.retransmit_queue().len(),
    {
        self.retransmit_queue.len()
    }

    /// The packet being sent has gone out.
    pub fn send_done(&mut self)
        requires
            old(self).wf(),
        ensures
            final(self).wf(),
            !final(self).send_pending(),
            final(self).read_buf() == old(self).read_buf(),
            final(self).next_data() == old(self).next_data(),
            final(self).retransmit_queue() == old(self).retransmit_queue(),
            final(self).ack_wait() == old(self).ack_wait(),
            final(self).reached_input_eof() == old(self).reached_input_eof(),
            final(self).next_seqno() == old(self).next_seqno(),
            final(self).window_size() == old(self).window_size(),
            final(self).mtu() == old(self).mtu(),
    {
        self.send_pending = false;
    }

    /// Room left in the read buffer.
    pub open spec fn space_left(&self) -> int {
        self.read_buf().capacity() - self.read_buf().data().len()
    }

    /// How many bytes to read from the input now, given a read of at most
    /// `tmp_len` bytes: none once the input has ended; else the room left in
    /// the read buffer.  When that is less than the MTU, the released front
    /// of the buffer is dropped first, and when still less, the
    /// acknowledged packets are dropped from the waiting list too, their
    /// data given back and the buffer trimmed again.
    pub fn read_space(&mut self, tmp_len: usize) -> (res: usize)
        requires
            old(self).wf(),
        ensures
            final(self).wf(),
            old(self).reached_input_eof() ==> res == 0 && *final(self) == *old(self),
            !old(self).reached_input_eof() ==> res == (if final(self).space_left() < tmp_len {
                final(self).space_left()
            } else {
                tmp_len as int
            }),
            !old(self).reached_input_eof() && old(self).space_left() >= old(self).mtu() ==> *final(self) == *old(self),
            !old(self).reached_input_eof() && old(self).space_left() < old(self).mtu() ==> frees_room(
                *old(self),
                *final(self),
            ),
            final(self).next_data() == old(self).next_data(),
            final(self).retransmit_queue() == old(self).retransmit_queue(),
            final(self).send_pending() == old(self).send_pending(),
            final(self).reached_input_eof() == old(self).reached_input_eof(),
            final(self).next_seqno() == old(self).next_seqno(),
            final(self).window_size() == old(self).window_size(),
            final(self).mtu() == old(self).mtu(),
            final(self).read_buf().capacity() == old(self).read_buf().capacity(),
            final(self).in_flight() == old(self).in_flight(),
    {
        if self.reached_input_eof {
            return 0;
        }
        let sp = self.read_buf.get_space_left();
        let space = if sp < self.mtu as usize {
            self.read_buf.cleanup();
            let ghost b1 = self.read_buf;
            let sp2 = self.read_buf.get_space_left();
            if sp2 < self.mtu as usize {
                self.release_acked();
                let ghost b2 = self.read_buf;
                self.read_buf.cleanup();
                proof {
                    assert(cleaned(old(self).read_buf(), b1));
                    assert(releases_done(b1, b2, acked_front_data(old(self).ack_wait())));
                    assert(frees_room(*old(self), *self));
                }
                self.read_buf.get_space_left()
            } else {
                proof {
                    assert(cleaned(old(self).read_buf(), b1));
                    assert(frees_room(*old(self), *self));
                }
                sp2
            }
        } else {
            sp
        };
        if space < tmp_len {
            space
        } else {
            tmp_len
        }
    }

    /// `data` was read from the input; nothing read means the input ended.
    /// The bytes must fit in the room left.
    pub fn input_read(&mut self, data: &[u8])
        requires
            old(self).wf(),
            !old(self).reached_input_eof(),
            data@.len() <= old(self).space_left(),
        ensures
            final(self).wf(),
            data@.len() == 0 ==> final(self).reached_input_eof() && final(self).read_buf() == old(self).read_buf(),
            data@.len() > 0 ==> {
                &&& !final(self).reached_input_eof()
                &&& final(self).read_buf().data() == old(self).read_buf().data() + data@
                &&& final(self).read_buf().capacity() == old(self).read_buf().capacity()
                &&& final(self).read_buf().first_available() == old(self).read_buf().first_available()
                &&& final(self).read_buf().drained() == old(self).read_buf().drained()
                &&& forall|p: int| #[trigger] final(self).read_buf().released(p) == old(self).read_buf().released(p)
            },
            final(self).next_data() == old(self).next_data(),
            final(self).retransmit_queue() == old(self).retransmit_queue(),
            final(self).send_pending() == old(self).send_pending(),
            final(self).ack_wait() == old(self).ack_wait(),
            final(self).next_seqno() == old(self).next_seqno(),
            final(self).window_size() == old(self).window_size(),
            final(self).mtu() == old(self).mtu(),
    {
        if data.len() == 0 {
            self.reached_input_eof = true;
        } else {
            self.read_buf.add(data);
        }
    }

    /// An acknowledgement from the server, `packet` (a validated server
    /// packet), arrived.  Nothing happens while no packet waits for one.
    /// Else a packet with the WS flag whose first sequence number lies in
    /// the window `[window_start, window_start + window_size - 1]`
    /// acknowledges everything from the window start to it; then the range
    /// that the packet carries is acknowledged.  Answers whether the packet
    /// was taken into account and whether it acknowledged something new.
    pub fn receive_packet(&mut self, packet: &[u8]) -> (res: (bool, bool))
        requires
            old(self).wf(),
            packet@.len() >= STREAM_SERVER_FULL_HEADER_SIZE,
            valid_flag_bits(packet@[7]),
        ensures
            final(self).wf(),
            final(self).read_buf() == old(self).read_buf(),
            final(self).next_data() == old(self).next_data(),
            final(self).retransmit_queue() == old(self).retransmit_queue(),
            final(self).send_pending() == old(self).send_pending(),
            final(self).reached_input_eof() == old(self).reached_input_eof(),
            final(self).next_seqno() == old(self).next_seqno(),
            final(self).window_size() == old(self).window_size(),
            final(self).mtu() == old(self).mtu(),
            !old(self).has_unacked() ==> res == (false, false) && final(self).ack_wait() == old(
                self).ack_wait(),
            old(self).has_unacked() ==> res.0,
            be16(packet@[8], packet@[9]) <= be16(packet@[10], packet@[11]) && seqnos_increasing(
                old(self).ack_wait(),
            ) ==> acks_range(
                old(self).ack_wait(),
                final(self).ack_wait(),
                be16(packet@[8], packet@[9]),
                be16(packet@[10], packet@[11]),
            ),
            old(self).has_unacked() ==> exists|mid: AckWaitlist, r1: bool, r2: bool|
                #[trigger] ack_steps(
                    old(self).ack_wait(),
                    mid,
                    final(self).ack_wait(),
                    old(self).ws_hit(packet@),
                    old(self).window_start(),
                    be16(packet@[8], packet@[9]),
                    be16(packet@[10], packet@[11]),
                    r1,
                    r2,
                ) && res.1 == (r1 || r2),
    {
        let ghost w0 = self.ack_wait;
        proof {
            w0.lemma_first_unacked();
        }
        let first = match self.ack_wait.first_seqno() {
            Some(first) => first,
            None => {
                proof {
                    assert forall|i: int|
                        0 <= i < w0.waits().len() && be16(packet@[8], packet@[9])
                            <= #[trigger] w0.waits()[i].seqno <= be16(packet@[10], packet@[11]) implies w0.acked(
                        i,
                    ) by {}
                }
                return (false, false);
            },
        };
        let window_start = first as u32;
        let window_end = window_start + self.window_size - 1;
        let pkt = parse_stream_server_packet(packet);
        let mut got_new_ack = false;
        let ghost mut r1 = false;
        if pkt.flags.contains(StreamPacketFlags::ws()) {
            let win_range = IRange(window_start, window_end);
            if win_range.contains_point(pkt.seqno_start as u32) {
                let removed = self.remove_acked(IRange(first, pkt.seqno_start));
                proof {
                    r1 = removed;
                }
                if removed {
                    got_new_ack = true;
                }
            }
        }
        let ghost mid = self.ack_wait;
        proof {
            if !(pkt.flags.bits & STREAM_WS == STREAM_WS && window_start <= pkt.seqno_start
                && pkt.seqno_start <= window_end) {
                assert(same_list(w0, mid));
            }
        }
        let removed2 = self.remove_acked(IRange(pkt.seqno_start, pkt.seqno_end));
        if removed2 {
            got_new_ack = true;
        }
        proof {
            let ws_hit = pkt.flags.bits & STREAM_WS == STREAM_WS && window_start
                <= pkt.seqno_start && pkt.seqno_start <= window_end;
            assert(ack_steps(
                w0,
                mid,
                self.ack_wait,
                ws_hit,
                first,
                pkt.seqno_start,
                pkt.seqno_end,
                r1,
                removed2,
            ));
        }
        proof {
            let w = old(self).ack_wait();
            let ws = old(self).window_start();
            let start = be16(packet@[8], packet@[9]);
            let end = be16(packet@[10], packet@[11]);
            let ws_hit = old(self).ws_hit(packet@);
            assert(ws == first);
            assert(start == pkt.seqno_start);
            assert(end == pkt.seqno_end);
            assert(ack_steps(w, mid, self.ack_wait(), ws_hit, ws, start, end, r1, removed2));
            if start <= end && seqnos_increasing(w) {
                lemma_ack_covers_range(w, mid, self.ack_wait(), ws_hit, ws, start, end, r1, removed2);
            }
            assert(got_new_ack == (r1 || removed2));
            assert(exists|m: AckWaitlist, a: bool, b: bool|
                #[trigger] ack_steps(w, m, self.ack_wait(), ws_hit, ws, start, end, a, b)
                    && got_new_ack == (a || b));
        }
        (true, got_new_ack)
    }

    /// Acknowledges `range` in the waiting list; the sending state stays
    /// well formed.
    fn remove_acked(&mut self, range: IRange<u16>) -> (res: bool)
        requires
            old(self).wf(),
        ensures
            final(self).wf(),
            removed_range(old(self).ack_wait(), final(self).ack_wait(), range.0, range.1, res),
            final(self).read_buf() == old(self).read_buf(),
            final(self).next_data() == old(self).next_data(),
            final(self).retransmit_queue() == old(self).retransmit_queue(),
            final(self).send_pending() == old(self).send_pending(),
            final(self).reached_input_eof() == old(self).reached_input_eof(),
            final(self).next_seqno() == old(self).next_seqno(),
            final(self).window_size() == old(self).window_size(),
            final(self).mtu() == old(self).mtu(),
    {
        let ghost w0 = self.ack_wait;
        let res = self.ack_wait.remove(range);
        proof {
            lemma_removed_range_keeps(w0, self.ack_wait, range.0, range.1, res);
            lemma_first_unacked_grows(w0, self.ack_wait);
        }
        res
    }

    /// The acknowledgement timer fired.  Unless packets still wait to be
    /// sent again, every packet not acknowledged is queued to be sent again;
    /// answers whether that happened (the timer is then to be restarted).
    pub fn ack_timeout(&mut self) -> (res: bool)
        requires
            old(self).wf(),
        ensures
            final(self).wf(),
            old(self).retransmit_queue().len() > 0 ==> !res && *final(self) == *old(self),
            old(self).retransmit_queue().len() == 0 ==> res && final(self).retransmit_queue()
                == old(self).ack_wait().unacked().map_values(|x: (u16, Seq<u8>)| (x.1, x.0)),
            final(self).read_buf() == old(self).read_buf(),
            final(self).next_data() == old(self).next_data(),
            final(self).send_pending() == old(self).send_pending(),
            final(self).ack_wait() == old(self).ack_wait(),
            final(self).reached_input_eof() == old(self).reached_input_eof(),
            final(self).next_seqno() == old(self).next_seqno(),
            final(self).window_size() == old(self).window_size(),
            final(self).mtu() == old(self).mtu(),
    {
        if self.retransmit_queue.len() > 0 {
            return false;
        }
        let waiting = self.ack_wait.iter();
        let ghost u = self.ack_wait.unacked();
        let ghost n = self.ack_wait.waits().len() as int;
        proof {
            assert(self.retransmit_queue@.len() == 0);
            assert(self.retransmit_queue() =~= u.take(0).map_values(|x: (u16, Seq<u8>)| (x.1, x.0)));
        }
        let mut i: usize = 0;
        while i < waiting.len()
            invariant
                self.wf(),
                self.ack_wait == old(self).ack_wait,
                self.read_buf == old(self).read_buf,
                self.next_data == old(self).next_data,
                self.send_pending == old(self).send_pending,
                self.reached_input_eof == old(self).reached_input_eof,
                self.next_seqno == old(self).next_seqno,
                self.window_size == old(self).window_size,
                self.mtu == old(self).mtu,
                n == self.ack_wait.waits().len(),
                u == self.ack_wait.unacked_upto(n),
                waiting@.map_values(|x: (u16, Vec<u8>)| (x.0, x.1@)) == u,
                i <= waiting@.len(),
                self.retransmit_queue() == u.take(i as int).map_values(|x: (u16, Seq<u8>)| (x.1, x.0)),
            decreases waiting@.len() - i,
        {
            let seqno = waiting[i].0;
            let data = waiting[i].1.clone();
            proof {
                assert(data@ =~= waiting@[i as int].1@);
                assert(u[i as int] == (waiting@[i as int].0, waiting@[i as int].1@));
                self.ack_wait.lemma_unacked_upto(n);
                let k = choose|k: int|
                    0 <= k < n && !self.ack_wait.acked(k) && #[trigger] self.ack_wait.unacked_upto(
                        n,
                    )[i as int] == (self.ack_wait.waits()[k].seqno, self.ack_wait.waits()[k].data@);
                assert(self.ack_wait.waits()[k].data@.len() <= self.max_payload());
            }
            let ghost q = self.retransmit_queue@;
            let ghost before = self.retransmit_queue();
            self.retransmit_queue.push_back((data, seqno));
            proof {
                let g = |x: (u16, Seq<u8>)| (x.1, x.0);
                assert(self.retransmit_queue@ == q.push((data, seqno)));
                assert(self.retransmit_queue() =~= before.push((data@, seqno)));
                assert(u.take(i + 1) =~= u.take(i as int).push(u[i as int]));
                assert(u.take(i + 1).map_values(g) =~= u.take(i as int).map_values(g).push(
                    g(u[i as int]),
                ));
                assert forall|j: int| 0 <= j < self.retransmit_queue@.len() implies (
                #[trigger] self.retransmit_queue@[j]).0@.len() <= self.max_payload() by {
                    if j < q.len() {
                        assert(self.retransmit_queue@[j] == q[j]);
                    }
                }
            }
            i = i + 1;
        }
        proof {
            assert(u.take(u.len() as int) =~= u);
        }
        true
    }

    /// Once the input has ended and no data waits to be sent, drops the
    /// acknowledged packets from the waiting list and answers whether every
    /// packet sent has been acknowledged (the stream can then be closed).
    pub fn finish(&mut self) -> (res: bool)
        requires
            old(self).wf(),
        ensures
            final(self).wf(),
            res == (old(self).reached_input_eof() && old(self).next_data() is None && old(self).in_flight() == 0),
            final(self).next_data() == old(self).next_data(),
            final(self).retransmit_queue() == old(self).retransmit_queue(),
            final(self).send_pending() == old(self).send_pending(),
            final(self).reached_input_eof() == old(self).reached_input_eof(),
            final(self).next_seqno() == old(self).next_seqno(),
            final(self).in_flight() == old(self).in_flight(),
    {
        if self.reached_input_eof && self.next_data.is_none() {
            self.release_acked();
            self.ack_wait.is_empty()
        } else {
            false
        }
    }
}


/// The flag byte and the acknowledged range of a server packet.
pub open spec fn server_fields(packet: Seq<u8>) -> (u8, u16, u16) {
    (packet[7], be16(packet[8], packet[9]), be16(packet[10], packet[11]))
}

/// The server packet answers the SYN with sequence number `seqno`: SYN and
/// ACK set, FIN not, and the range is that one number.
pub fn is_syn_ack_for(packet: &[u8], seqno: u16) -> (res: bool)
    requires
        packet@.len() >= STREAM_SERVER_FULL_HEADER_SIZE,
        valid_flag_bits(packet@[7]),
    ensures
        res == ({
            let (f, start, end) = server_fields(packet@);
            &&& f & STREAM_SYN == STREAM_SYN
            &&& f & STREAM_ACK == STREAM_ACK
            &&& f & STREAM_FIN != STREAM_FIN
            &&& start == end
            &&& start == seqno
        }),
{
    let p = parse_stream_server_packet(packet);
    p.flags.contains(StreamPacketFlags::syn()) && p.flags.contains(StreamPacketFlags::ack())
        && !p.flags.contains(StreamPacketFlags::fin()) && p.seqno_start == p.seqno_end
        && p.seqno_start == seqno
}

/// The SYN+ACK `packet` arrived after the SYN with sequence number
/// `next_seqno` was sent.  The sequence number moves past the SYN; the
/// packet completes the handshake when its flags are exactly SYN and ACK and
/// its range is the SYN's number.  Answers the sequence number after the
/// SYN and, when the handshake completes, the sequence number of the ACK to
/// send (the first data packet gets the one after it).
pub fn on_syn_ack(next_seqno: u16, packet: &[u8]) -> (res: (u16, Option<u16>))
    requires
        packet@.len() >= STREAM_SERVER_FULL_HEADER_SIZE,
        valid_flag_bits(packet@[7]),
    ensures
        res.0 == next_seqno_after(next_seqno),
        ({
            let (f, start, end) = server_fields(packet@);
            let ok = start == end && start == next_seqno && f == STREAM_SYN | STREAM_ACK;
            &&& ok ==> res.1 == Some(next_seqno_after(next_seqno))
            &&& !ok ==> res.1 is None
        }),
{
    let next = if next_seqno == 65535 {
        0
    } else {
        next_seqno + 1
    };
    let p = parse_stream_server_packet(packet);
    if p.seqno_start != p.seqno_end || p.seqno_start != next_seqno {
        return (next, None);
    }
    if p.flags.bits() != STREAM_SYN | STREAM_ACK {
        return (next, None);
    }
    (next, Some(next))
}

/// The server packet answers the FIN with sequence number `seqno`: ACK and
/// FIN set, SYN not, and the range is that one number.
pub fn is_fin_ack_for(packet: &[u8], seqno: u16) -> (res: bool)
    requires
        packet@.len() >= STREAM_SERVER_FULL_HEADER_SIZE,
        valid_flag_bits(packet@[7]),
    ensures
        res == ({
            let (f, start, end) = server_fields(packet@);
            &&& f & STREAM_SYN != STREAM_SYN
            &&& f & STREAM_ACK == STREAM_ACK
            &&& f & STREAM_FIN == STREAM_FIN
            &&& start == end
            &&& start == seqno
        }),
{
    let p = parse_stream_server_packet(packet);
    !p.flags.contains(StreamPacketFlags::syn()) && p.flags.contains(StreamPacketFlags::ack())
        && p.flags.contains(StreamPacketFlags::fin()) && p.seqno_start == p.seqno_end
        && p.seqno_start == seqno
}

/// During the data transfer the sender takes server packets with ACK or
/// FIN and without SYN.
pub fn is_ack_or_fin(packet: &[u8]) -> (res: bool)
    requires
        packet@.len() >= STREAM_SERVER_FULL_HEADER_SIZE,
        valid_flag_bits(packet@[7]),
    ensures
        res == ({
            let f = packet@[7];
            (f & STREAM_ACK == STREAM_ACK || f & STREAM_FIN == STREAM_FIN) && f & STREAM_SYN
                != STREAM_SYN
        }),
{
    let p = parse_stream_server_packet(packet);
    (p.flags.contains(StreamPacketFlags::ack()) || p.flags.contains(StreamPacketFlags::fin()))
        && !p.flags.contains(StreamPacketFlags::syn())
}

/// What a well-formed sending state guarantees: no more packets are in
/// flight than the window allows, the packets waiting for an
/// acknowledgement carry consecutive sequence numbers ending just before
/// the next one, and no packet carries more than `max_payload` bytes.
pub proof fn lemma_send_window(s: SendData)
    requires
        s.wf(),
    ensures
        s.in_flight() <= s.window_size(),
        forall|i: int|
            0 <= i < s.ack_wait().waits().len() ==> (#[trigger] s.ack_wait().waits()[i]).seqno
                == seqno_back(s.next_seqno(), s.ack_wait().waits().len() - i),
        forall|i: int|
            0 <= i < s.ack_wait().waits().len() ==> (#[trigger] s.ack_wait().waits()[i]).data@.len()
                <= s.max_payload(),
{
}

} // verus!
