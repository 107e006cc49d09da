//! The decisions of the receiving side of a stream: which client packets
//! start, complete and carry a stream, where received data goes, which data
//! can be written out next, and which acknowledgements go out.  Receiving,
//! sending, writing and timing are up to the caller.

use std::collections::VecDeque;

use vstd::prelude::*;

use crate::buffer::TrimmingBufferSlice;
use crate::constants::{
    valid_flag_bits, STREAM_ACK, STREAM_CLIENT_FULL_HEADER_SIZE, STREAM_FIN, STREAM_SYN, STREAM_WS,
};
use crate::data_orderer::{lemma_pending_sorted, packet_seqno, DataOrderer};
use crate::irange::IRange;
use crate::packet::parse_stream_client_packet;
use crate::recv_errors::Error;
use crate::seqno_tracker::{from_sequential, sequential, taken, SeqnoTracker};

verus! {

/// The flag byte of a client packet.
pub open spec fn packet_flags(packet: Seq<u8>) -> u8 {
    packet[7]
}

/// The client packet opens a stream: its only flag is SYN.
pub fn is_first_syn(packet: &[u8]) -> (res: bool)
    requires
        packet@.len() >= STREAM_CLIENT_FULL_HEADER_SIZE,
        valid_flag_bits(packet@[7]),
    ensures
        res == (packet_flags(packet@) == STREAM_SYN),
{
    let p = parse_stream_client_packet(packet);
    p.flags.bits() == STREAM_SYN
}

/// The client packet carries the FIN flag: the sender has no more data.
pub fn carries_fin(packet: &[u8]) -> (res: bool)
    requires
        packet@.len() >= STREAM_CLIENT_FULL_HEADER_SIZE,
    ensures
        res == (packet_flags(packet@) & STREAM_FIN != 0),
{
    packet[7] & STREAM_FIN != 0
}

/// The receiving side of a stream once the first SYN has arrived.
pub struct RecvStream {
    next_seqno: u16,
    order: DataOrderer,
    seqno_tracker: SeqnoTracker,
    window_size: u32,
    mtu: u16,
}

impl RecvStream {
    /// The sequence number of the next packet to write out.
    pub closed spec fn next_seqno(&self) -> u16 {
        self.next_seqno
    }

    /// Received packets not written out yet.
    pub closed spec fn order(&self) -> DataOrderer {
        self.order
    }

    /// Sequence numbers received and not acknowledged yet.
    pub closed spec fn seqno_tracker(&self) -> SeqnoTracker {
        self.seqno_tracker
    }

    /// The most packets the sender has in flight.
    pub closed spec fn window_size(&self) -> u32 {
        self.window_size
    }

    /// The largest packet expected, in bytes.
    pub closed spec fn mtu(&self) -> u16 {
        self.mtu
    }

    pub closed spec fn wf(&self) -> bool {
        &&& self.order.wf()
        &&& self.seqno_tracker.wf()
        &&& self.mtu >= STREAM_CLIENT_FULL_HEADER_SIZE
    }

    /// Room left for received packets, in bytes.
    pub open spec fn space_left(&self) -> int {
        self.order().buffer().capacity() - self.order().buffer().data().len()
    }

    /// The stream that the first SYN `packet` opens: the next packet
    /// expected follows the SYN's sequence number, and so does the
    /// acknowledgement window; the reordering buffer holds `window_size`
    /// packets of `mtu` bytes.  Also answers the sequence number that the
    /// SYN+ACK acknowledges (the SYN's own).
    pub fn on_first_syn(packet: &[u8], window_size: u32, mtu: u16) -> (res: (RecvStream, u16))
        requires
            packet@.len() >= STREAM_CLIENT_FULL_HEADER_SIZE,
            valid_flag_bits(packet@[7]),
            mtu >= STREAM_CLIENT_FULL_HEADER_SIZE,
            (window_size as int) * (mtu as int) < isize::MAX,
        ensures
            res.0.wf(),
            res.1 == packet_seqno(packet@),
            res.0.next_seqno() == from_sequential(packet_seqno(packet@), 1),
            res.0.seqno_tracker().window_start() == res.0.next_seqno(),
            forall|p: int| !res.0.seqno_tracker().has(p),
            res.0.order().pending().len() == 0,
            res.0.order().buffer().capacity() == window_size * mtu,
            res.0.order().buffer().data().len() == 0,
            res.0.window_size() == window_size,
            res.0.mtu() == mtu,
    {
        let p = parse_stream_client_packet(packet);
        let next_seqno = if p.seqno == 65535 {
            0
        } else {
            p.seqno + 1
        };
        let stream = RecvStream {
            next_seqno,
            order: DataOrderer::new(window_size, mtu),
            seqno_tracker: SeqnoTracker::new(next_seqno),
            window_size,
            mtu,
        };
        (stream, p.seqno)
    }

    /// A validated client packet arrived while the SYN+ACK waits for its
    /// ACK.  Its sequence number is recorded as received.  The ACK of the
    /// handshake (flags exactly ACK, the expected sequence number) is
    /// passed on (`Ok(true)`); any other packet is data that came early and
    /// is stored (`Ok(false)`), unless it does not fit
    /// (`RecvBufferOverrunOnStart`).
    pub fn on_handshake_packet(&mut self, packet: &[u8]) -> (res: Result<bool, Error>)
        requires
            old(self).wf(),
            packet@.len() >= STREAM_CLIENT_FULL_HEADER_SIZE,
            valid_flag_bits(packet@[7]),
        ensures
            final(self).wf(),
            final(self).next_seqno() == old(self).next_seqno(),
            final(self).window_size() == old(self).window_size(),
            final(self).mtu() == old(self).mtu(),
            final(self).seqno_tracker().window_start() == old(self).seqno_tracker().window_start(),
            forall|p: int|
                #[trigger] final(self).seqno_tracker().has(p) == (old(self).seqno_tracker().has(p)
                    || p == sequential(
                    old(self).seqno_tracker().window_start(),
                    packet_seqno(packet@),
                )),
            ({
                let handshake_ack = packet_flags(packet@) == STREAM_ACK && packet_seqno(packet@)
                    == old(self).next_seqno();
                &&& handshake_ack ==> res == Ok::<bool, Error>(true) && final(self).order() == old(self).order()
                &&& !handshake_ack && old(self).space_left() < packet@.len() ==> res == Err::<bool, Error>(
                    Error::RecvBufferOverrunOnStart,
                ) && final(self).order() == old(self).order()
                &&& !handshake_ack && old(self).space_left() >= packet@.len() ==> {
                    &&& res == Ok::<bool, Error>(false)
                    &&& final(self).order().buffer().data() == old(self).order().buffer().data() + packet@
                    &&& exists|i: int|
                        {
                            &&& 0 <= i <= old(self).order().pending().len()
                            &&& #[trigger] final(self).order().pending() == old(self).order().pending().insert(
                                i,
                                (packet_seqno(packet@), packet@),
                            )
                        }
                }
            }),
    {
        let p = parse_stream_client_packet(packet);
        let _ = self.seqno_tracker.add(p.seqno);
        if p.flags.bits() == STREAM_ACK && p.seqno == self.next_seqno {
            Ok(true)
        } else {
            if self.order.get_space_left() < packet.len() {
                return Err(Error::RecvBufferOverrunOnStart);
            }
            self.order.add(packet);
            Ok(false)
        }
    }

    /// A validated client packet is data of the stream: it lies within the
    /// window from the acknowledgement window start, and has neither SYN nor
    /// ACK.
    pub fn accepts_data_packet(&self, packet: &[u8]) -> (res: bool)
        requires
            self.wf(),
            packet@.len() >= STREAM_CLIENT_FULL_HEADER_SIZE,
            valid_flag_bits(packet@[7]),
        ensures
            res == (sequential(self.seqno_tracker().window_start(), packet_seqno(packet@))
                < self.window_size() && packet_flags(packet@) & STREAM_SYN == 0
                && packet_flags(packet@) & STREAM_ACK == 0),
    {
        let p = parse_stream_client_packet(packet);
        let seqno = self.seqno_tracker.pos_to_sequential(p.seqno);
        seqno < self.window_size as usize && p.flags.bits() & STREAM_SYN == 0 && p.flags.bits()
            & STREAM_ACK == 0
    }

    /// The sequence number of the next packet to write out.
    pub fn get_next_seqno(&self) -> (res: u16)
        ensures
            res == self.next_seqno(),
    {
        self.next_seqno
    }

    /// There is room for a packet of the largest size.
    pub fn can_receive(&self) -> (res: bool)
        requires
            self.wf(),
        ensures
            res == (self.space_left() >= self.mtu()),
    {
        self.order.get_space_left() >= self.mtu as usize
    }

    /// A data packet arrived (validated, accepted, and with room for it).
    /// A packet larger than the MTU is an error; otherwise its sequence
    /// number is recorded and the packet stored.
    pub fn on_data_packet(&mut self, packet: &[u8]) -> (res: Result<(), Error>)
        requires
            old(self).wf(),
            packet@.len() >= STREAM_CLIENT_FULL_HEADER_SIZE,
            valid_flag_bits(packet@[7]),
            packet_flags(packet@) & STREAM_FIN == 0,
            old(self).space_left() >= old(self).mtu(),
        ensures
            final(self).wf(),
            final(self).next_seqno() == old(self).next_seqno(),
            final(self).window_size() == old(self).window_size(),
            final(self).mtu() == old(self).mtu(),
            packet@.len() > old(self).mtu() ==> (res matches Err(Error::MtuLessThanReal { packet_size })
                && packet_size == (packet@.len() % 65536) as u16) && *final(self) == *old(self),
            packet@.len() <= old(self).mtu() ==> {
                &&& res is Ok
                &&& final(self).seqno_tracker().window_start() == old(self).seqno_tracker().window_start()
                &&& forall|p: int|
                    #[trigger] final(self).seqno_tracker().has(p) == (old(self).seqno_tracker().has(p)
                        || p == sequential(
                        old(self).seqno_tracker().window_start(),
                        packet_seqno(packet@),
                    ))
                &&& final(self).order().buffer().data() == old(self).order().buffer().data() + packet@
                &&& exists|i: int|
                    {
                        &&& 0 <= i <= old(self).order().pending().len()
                        &&& #[trigger] final(self).order().pending() == old(self).order().pending().insert(
                            i,
                            (packet_seqno(packet@), packet@),
                        )
                    }
            },
    {
        if packet.len() > self.mtu as usize {
            return Err(Error::MtuLessThanReal { packet_size: (packet.len() % 65536) as u16 });
        }
        let p = parse_stream_client_packet(packet);
        let _ = self.seqno_tracker.add(p.seqno);
        self.order.add(packet);
        Ok(())
    }

    /// The next packet to write out, if it has arrived: the stored packet
    /// with the smallest sequence number, when that is the expected one; the
    /// expected number then moves on.
    pub fn next_write(&mut self) -> (res: Option<TrimmingBufferSlice>)
        requires
            old(self).wf(),
        ensures
            final(self).wf(),
            final(self).seqno_tracker() == old(self).seqno_tracker(),
            final(self).window_size() == old(self).window_size(),
            final(self).mtu() == old(self).mtu(),
            final(self).order().buffer() == old(self).order().buffer(),
            ({
                let pend = old(self).order().pending();
                let ready = pend.len() > 0 && pend[0].0 == old(self).next_seqno();
                &&& !ready ==> res is None && final(self).order().pending() == pend
                    && final(self).next_seqno() == old(self).next_seqno()
                &&& ready ==> {
                    &&& res matches Some(s) && s@ == pend[0].1 && s@.len() >= STREAM_CLIENT_FULL_HEADER_SIZE
                        && packet_seqno(s@) == old(self).next_seqno()
                    &&& final(self).order().pending() == pend.drop_first()
                    &&& final(self).next_seqno() == from_sequential(old(self).next_seqno(), 1)
                }
            }),
    {
        proof {
            lemma_pending_sorted(self.order);
        }
        let peeked = self.order.peek_seqno();
        match peeked {
            Some(s) => {
                if s == self.next_seqno {
                    self.next_seqno = if s == 65535 {
                        0
                    } else {
                        s + 1
                    };
                    self.order.take()
                } else {
                    None
                }
            },
            None => None,
        }
    }

    /// A packet handed out by `next_write` has been written out; its bytes
    /// are given back to the reordering buffer (see `DataOrderer::release`).
    pub fn written(&mut self, slice: TrimmingBufferSlice) -> (res: bool)
        requires
            old(self).wf(),
        ensures
            final(self).wf(),
            final(self).next_seqno() == old(self).next_seqno(),
            final(self).seqno_tracker() == old(self).seqno_tracker(),
            final(self).order().pending() == old(self).order().pending(),
            final(self).order().buffer().data() == old(self).order().buffer().data(),
            res == old(self).order().buffer().release_ok(&slice),
    {
        self.order.release(slice)
    }

    /// One poll of the acknowledgement generator over the stream's record
    /// of received numbers (see `ack_gen_poll`).
    pub fn poll_acks(&mut self, stopped: bool, active: bool, timeless: bool, interval_ready: bool) -> (res:
        AckGenPoll)
        requires
            old(self).wf(),
        ensures
            final(self).wf(),
            final(self).next_seqno() == old(self).next_seqno(),
            final(self).order() == old(self).order(),
            stopped ==> res is End && final(self).seqno_tracker() == old(self).seqno_tracker(),
            !stopped && (!active || (!timeless && !interval_ready)) ==> res is NotReady
                && final(self).seqno_tracker() == old(self).seqno_tracker(),
            !stopped && active && (timeless || interval_ready) ==> {
                let t = old(self).seqno_tracker();
                let ranges = t.runs().map_values(
                    |r: IRange<usize>| crate::seqno_tracker::seqno_range(t.window_start(), r),
                );
                &&& ranges.len() == 0 ==> res is NotReady
                &&& ranges.len() > 0 ==> (res matches AckGenPoll::Ready(v, ws) && v@ == ranges && ws
                    == t.window_start())
                &&& taken(t, final(self).seqno_tracker())
            },
    {
        ack_gen_poll(&mut self.seqno_tracker, stopped, active, timeless, interval_ready)
    }

    /// Hands out the received sequence numbers as ranges, with the window
    /// start they count from, and moves the window (see
    /// `SeqnoTracker::take`).
    pub fn take_acks(&mut self) -> (res: (Vec<IRange<u16>>, u16))
        requires
            old(self).wf(),
        ensures
            final(self).wf(),
            res.1 == old(self).seqno_tracker().window_start(),
            res.0@ == old(self).seqno_tracker().runs().map_values(
                |r: IRange<usize>| crate::seqno_tracker::seqno_range(old(self).seqno_tracker().window_start(), r),
            ),
            taken(old(self).seqno_tracker(), final(self).seqno_tracker()),
            final(self).next_seqno() == old(self).next_seqno(),
            final(self).order() == old(self).order(),
    {
        self.seqno_tracker.take()
    }
}

/// What the acknowledgement generator does when polled.
pub enum AckGenPoll {
    /// The generator was stopped: no more acknowledgements.
    End,
    /// Nothing to send now.
    NotReady,
    /// Ranges of received sequence numbers to acknowledge, and the window
    /// start they count from.
    Ready(Vec<IRange<u16>>, u16),
}

/// One poll of the acknowledgement generator: nothing once stopped or while
/// not started; else, unless an acknowledgement without delay was requested,
/// only when the period has elapsed, the received ranges are taken from
/// `tracker` and handed out when there are any.
pub fn ack_gen_poll(
    tracker: &mut SeqnoTracker,
    stopped: bool,
    active: bool,
    timeless: bool,
    interval_ready: bool,
) -> (res: AckGenPoll)
    requires
        old(tracker).wf(),
    ensures
        final(tracker).wf(),
        stopped ==> res is End && *final(tracker) == *old(tracker),
        !stopped && (!active || (!timeless && !interval_ready)) ==> res is NotReady && *final(tracker)
            == *old(tracker),
        !stopped && active && (timeless || interval_ready) ==> {
            let ranges = old(tracker).runs().map_values(
                |r: IRange<usize>| crate::seqno_tracker::seqno_range(old(tracker).window_start(), r),
            );
            &&& ranges.len() == 0 ==> res is NotReady
            &&& ranges.len() > 0 ==> (res matches AckGenPoll::Ready(v, ws) && v@ == ranges && ws
                == old(tracker).window_start())
            &&& taken(*old(tracker), *final(tracker))
        },
{
    if stopped {
        return AckGenPoll::End;
    }
    if !active {
        return AckGenPoll::NotReady;
    }
    if !timeless && !interval_ready {
        return AckGenPoll::NotReady;
    }
    let (ranges, ws) = tracker.take();
    if ranges.len() == 0 {
        AckGenPoll::NotReady
    } else {
        AckGenPoll::Ready(ranges, ws)
    }
}

/// The acknowledgements waiting to be sent: the first of each batch
/// carries the WS flag.
pub struct AckSender {
    ranges_to_send: VecDeque<IRange<u16>>,
    first_packet: bool,
    send_pending: bool,
}

impl AckSender {
    /// Ranges still to acknowledge, in order.
    pub closed spec fn ranges_to_send(&self) -> Seq<IRange<u16>> {
        self.ranges_to_send@
    }

    /// The next acknowledgement is the first of its batch.
    pub closed spec fn first_packet(&self) -> bool {
        self.first_packet
    }

    /// An acknowledgement is being sent.
    pub closed spec fn send_pending(&self) -> bool {
        self.send_pending
    }

    pub fn new() -> (res: AckSender)
        ensures
            res.ranges_to_send().len() == 0,
            !res.first_packet(),
            !res.send_pending(),
    {
        AckSender { ranges_to_send: VecDeque::new(), first_packet: false, send_pending: false }
    }

    /// A new batch of ranges to acknowledge replaces the ranges not sent.
    pub fn set_ranges(&mut self, ranges: Vec<IRange<u16>>)
        ensures
            final(self).ranges_to_send() == ranges@,
            final(self).first_packet(),
            final(self).send_pending() == old(self).send_pending(),
    {
        let mut q: VecDeque<IRange<u16>> = VecDeque::new();
        let mut i: usize = 0;
        while i < ranges.len()
            invariant
                i <= ranges@.len(),
                q@ == ranges@.take(i as int),
            decreases ranges@.len() - i,
        {
            q.push_back(ranges[i]);
            i = i + 1;
            proof {
                assert(ranges@.take(i as int) =~= ranges@.take(i - 1).push(ranges@[i - 1]));
            }
        }
        proof {
            assert(ranges@.take(i as int) =~= ranges@);
        }
        self.ranges_to_send = q;
        self.first_packet = true;
    }

    /// The next acknowledgement to send, when none is being sent: its flag
    /// byte (ACK, with WS for the first of a batch) and its range.
    pub fn next_ack(&mut self) -> (res: Option<(u8, u16, u16)>)
        ensures
            old(self).send_pending() || old(self).ranges_to_send().len() == 0 ==> res is None
                && *final(self) == *old(self),
            !old(self).send_pending() && old(self).ranges_to_send().len() > 0 ==> {
                let r = old(self).ranges_to_send()[0];
                &&& res == Some(
                    (
                        if old(self).first_packet() {
                            STREAM_ACK | STREAM_WS
                        } else {
                            STREAM_ACK
                        },
                        r.0,
                        r.1,
                    ),
                )
                &&& final(self).ranges_to_send() == old(self).ranges_to_send().drop_first()
                &&& !final(self).first_packet()
                &&& final(self).send_pending()
            },
    {
        if self.send_pending || self.ranges_to_send.len() == 0 {
            return None;
        }
        let ghost q = self.ranges_to_send@;
        match self.ranges_to_send.pop_front() {
            Some(r) => {
                let flags = if self.first_packet {
                    STREAM_ACK | STREAM_WS
                } else {
                    STREAM_ACK
                };
                self.first_packet = false;
                self.send_pending = true;
                proof {
                    assert(self.ranges_to_send@ =~= q.drop_first());
                }
                Some((flags, r.0, r.1))
            },
            None => None,
        }
    }

    /// The acknowledgement being sent has gone out.
    pub fn sent(&mut self)
        ensures
            !final(self).send_pending(),
            final(self).ranges_to_send() == old(self).ranges_to_send(),
            final(self).first_packet() == old(self).first_packet(),
    {
        self.send_pending = false;
    }
}

/// `after` is `before` once `next_write` handed out the packet `packet`.
pub open spec fn delivered(before: RecvStream, after: RecvStream, packet: Seq<u8>) -> bool {
    let pend = before.order().pending();
    &&& pend.len() > 0
    &&& pend[0].0 == before.next_seqno()
    &&& packet == pend[0].1
    &&& after.order().pending() == pend.drop_first()
    &&& after.next_seqno() == from_sequential(before.next_seqno(), 1)
}

/// Data is written out in sequence: a packet handed out by `next_write`
/// carries the sequence number expected, and the next one handed out
/// carries the number after it.
pub proof fn lemma_delivery_in_order(
    r0: RecvStream,
    r1: RecvStream,
    r2: RecvStream,
    a: Seq<u8>,
    b: Seq<u8>,
)
    requires
        r0.wf(),
        r1.wf(),
        delivered(r0, r1, a),
        delivered(r1, r2, b),
    ensures
        packet_seqno(a) == r0.next_seqno(),
        packet_seqno(b) == from_sequential(packet_seqno(a), 1),
{
    crate::data_orderer::lemma_pending_sorted(r0.order());
    crate::data_orderer::lemma_pending_sorted(r1.order());
}

} // verus!
