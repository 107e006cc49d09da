//! The receiver's reordering buffer: received client packets are stored in a
//! trimming buffer and handed out in order of their sequence numbers, the
//! smallest first.

use vstd::prelude::*;

use crate::buffer::{TrimmingBuffer, TrimmingBufferSlice};
use crate::constants::STREAM_CLIENT_FULL_HEADER_SIZE;
use crate::packet::{be16, read_u16_be};

verus! {

/// The sequence number field of a client packet.
pub open spec fn packet_seqno(packet: Seq<u8>) -> u16 {
    be16(packet[8], packet[9])
}

/// `after` is `before` once `add` stored `packet`: it is inserted after
/// every pending packet whose sequence number is not larger than its own
/// and before the others.
pub open spec fn add_step(before: DataOrderer, after: DataOrderer, packet: Seq<u8>) -> bool {
    exists|i: int|
        {
            &&& 0 <= i <= before.pending().len()
            &&& #[trigger] after.pending() == before.pending().insert(i, (packet_seqno(packet), packet))
            &&& forall|j: int| 0 <= j < i ==> #[trigger] before.pending()[j].0 <= packet_seqno(packet)
            &&& forall|j: int|
                i <= j < before.pending().len() ==> #[trigger] before.pending()[j].0 > packet_seqno(
                    packet,
                )
        }
}

/// `after` is `before` once `take` handed out `out`: the first pending
/// packet.
pub open spec fn take_step(before: DataOrderer, after: DataOrderer, out: Seq<u8>) -> bool {
    &&& before.pending().len() > 0
    &&& out == before.pending()[0].1
    &&& after.pending() == before.pending().drop_first()
}

/// A stored packet with its sequence number.
struct OrderedTrimmingBufferSlice {
    seqno: u16,
    slice: TrimmingBufferSlice,
}

impl OrderedTrimmingBufferSlice {
    /// The stored packet.
    fn take(self) -> (res: TrimmingBufferSlice)
        ensures
            res == self.slice,
    {
        self.slice
    }
}

/// Received client packets, handed out by increasing sequence number.
pub struct DataOrderer {
    buffer: TrimmingBuffer,
    order: Vec<OrderedTrimmingBufferSlice>,
}

impl DataOrderer {
    /// The stored packets that have not been handed out, with their sequence
    /// numbers, in the order in which they will be handed out.
    pub closed spec fn pending(&self) -> Seq<(u16, Seq<u8>)> {
        self.order@.map_values(|o: OrderedTrimmingBufferSlice| (o.seqno, o.slice@))
    }

    /// The buffer that holds the packets.
    pub closed spec fn buffer(&self) -> TrimmingBuffer {
        self.buffer
    }

    pub closed spec fn wf(&self) -> bool {
        &&& self.buffer.wf()
        &&& forall|i: int|
            0 <= i < self.order@.len() ==> {
                &&& #[trigger] self.order@[i].slice@.len() >= STREAM_CLIENT_FULL_HEADER_SIZE
                &&& self.order@[i].seqno == packet_seqno(self.order@[i].slice@)
            }
        &&& forall|i: int, j: int|
            0 <= i < j < self.order@.len() ==> #[trigger] self.order@[i].seqno
                <= #[trigger] self.order@[j].seqno
    }

    /// An empty orderer whose buffer holds `window_size` packets of `mtu`
    /// bytes.
    pub fn new(window_size: u32, mtu: u16) -> (res: DataOrderer)
        requires
            (window_size as int) * (mtu as int) <= usize::MAX,
            (window_size as int) * (mtu as int) < isize::MAX,
        ensures
            res.wf(),
            res.pending() == Seq::<(u16, Seq<u8>)>::empty(),
            res.buffer().capacity() == window_size * mtu,
            res.buffer().data() == Seq::<u8>::empty(),
            res.buffer().first_available() == 0,
            forall|p: int| !res.buffer().released(p),
    {
        let size = window_size as usize * mtu as usize;
        DataOrderer { buffer: TrimmingBuffer::new(size), order: Vec::new() }
    }

    /// Stores the client packet `packet`.  It goes after every stored packet
    /// whose sequence number is not larger than its own.  The packet must fit
    /// in the space left.
    pub fn add(&mut self, packet: &[u8])
        requires
            old(self).wf(),
            packet@.len() >= STREAM_CLIENT_FULL_HEADER_SIZE,
            packet@.len() <= old(self).buffer().capacity() - old(self).buffer().data().len(),
        ensures
            final(self).wf(),
            final(self).buffer().data() == old(self).buffer().data() + packet@,
            final(self).buffer().capacity() == old(self).buffer().capacity(),
            exists|i: int|
                {
                    &&& 0 <= i <= old(self).pending().len()
                    &&& #[trigger] final(self).pending() == old(self).pending().insert(
                        i,
                        (packet_seqno(packet@), packet@),
                    )
                    &&& forall|j: int|
                        0 <= j < i ==> #[trigger] old(self).pending()[j].0 <= packet_seqno(
                            packet@,
                        )
                    &&& forall|j: int|
                        i <= j < old(self).pending().len() ==> #[trigger] old(self).pending()[j].0
                            > packet_seqno(packet@)
                },
            add_step(*old(self), *final(self), packet@),
    {
        let seqno = read_u16_be(packet, 8);
        let slice = self.buffer.add_slicing(packet);
        let mut i: usize = 0;
        while i < self.order.len() && self.order[i].seqno <= seqno
            invariant
                i <= self.order@.len(),
                forall|j: int| 0 <= j < i ==> #[trigger] self.order@[j].seqno <= seqno,
            decreases self.order@.len() - i,
        {
            i = i + 1;
        }
        let ghost old_order = self.order@;
        self.order.insert(i, OrderedTrimmingBufferSlice { seqno, slice });
        proof {
            let e = OrderedTrimmingBufferSlice { seqno, slice };
            assert(self.order@ == old_order.insert(i as int, e));
            assert forall|j: int| i <= j < old_order.len() implies #[trigger] old_order[j].seqno
                > seqno by {
                if i < old_order.len() {
                    assert(old_order[i as int].seqno > seqno);
                    if j > i {
                        assert(old_order[i as int].seqno <= old_order[j].seqno);
                    }
                }
            }
            assert(self.pending() =~= old(self).pending().insert(
                i as int,
                (packet_seqno(packet@), packet@),
            ));
            assert(forall|j: int|
                0 <= j < i ==> #[trigger] old(self).pending()[j].0 <= packet_seqno(packet@));
            assert(forall|j: int|
                i <= j < old(self).pending().len() ==> #[trigger] old(self).pending()[j].0
                    > packet_seqno(packet@));
        }
    }

    /// Room left in the buffer, in bytes.
    pub fn get_space_left(&self) -> (res: usize)
        requires
            self.wf(),
        ensures
            res == self.buffer().capacity() - self.buffer().data().len(),
    {
        self.buffer.get_space_left()
    }

    /// The smallest stored sequence number, `None` when nothing is stored.
    pub fn peek_seqno(&self) -> (res: Option<u16>)
        requires
            self.wf(),
        ensures
            self.pending().len() == 0 ==> res is None,
            self.pending().len() > 0 ==> res == Some(self.pending()[0].0),
            forall|j: int|
                0 <= j < self.pending().len() ==> res.unwrap() <= #[trigger] self.pending()[j].0,
    {
        if self.order.len() == 0 {
            None
        } else {
            proof {
                assert forall|j: int|
                    0 <= j < self.pending().len() implies self.order@[0].seqno
                    <= #[trigger] self.pending()[j].0 by {
                    if j > 0 {
                        assert(self.order@[0].seqno <= self.order@[j].seqno);
                    }
                }
            }
            Some(self.order[0].seqno)
        }
    }

    /// Hands out the stored packet with the smallest sequence number (the
    /// first stored of them when several share it).
    pub fn take(&mut self) -> (res: Option<TrimmingBufferSlice>)
        requires
            old(self).wf(),
        ensures
            final(self).wf(),
            final(self).buffer() == old(self).buffer(),
            old(self).pending().len() == 0 ==> res is None && final(self).pending() == old(
                self,
            ).pending(),
            old(self).pending().len() > 0 ==> {
                &&& res matches Some(s) && s@ == old(self).pending()[0].1 && take_step(
                    *old(self),
                    *final(self),
                    s@,
                )
                &&& final(self).pending() == old(self).pending().drop_first()
            },
    {
        if self.order.len() == 0 {
            None
        } else {
            let ghost old_order = self.order@;
            let o = self.order.remove(0);
            proof {
                assert(self.order@ =~= old_order.drop_first());
                assert(self.pending() =~= old(self).pending().drop_first());
                assert forall|i: int, j: int|
                    0 <= i < j < self.order@.len() implies #[trigger] self.order@[i].seqno
                    <= #[trigger] self.order@[j].seqno by {
                    assert(old_order[i + 1].seqno <= old_order[j + 1].seqno);
                }
                assert forall|i: int| 0 <= i < self.order@.len() implies {
                    &&& #[trigger] self.order@[i].slice@.len() >= STREAM_CLIENT_FULL_HEADER_SIZE
                    &&& self.order@[i].seqno == packet_seqno(self.order@[i].slice@)
                } by {
                    assert(old_order[i + 1].slice@.len() >= STREAM_CLIENT_FULL_HEADER_SIZE);
                }
            }
            Some(o.take())
        }
    }

    /// Gives back a packet that `take` handed out, so that `cleanup` can
    /// reclaim its bytes; see `TrimmingBuffer::release`.
    pub fn release(&mut self, slice: TrimmingBufferSlice) -> (res: bool)
        requires
            old(self).wf(),
        ensures
            final(self).wf(),
            final(self).pending() == old(self).pending(),
            final(self).buffer().data() == old(self).buffer().data(),
            final(self).buffer().capacity() == old(self).buffer().capacity(),
            final(self).buffer().first_available() == old(self).buffer().first_available(),
            final(self).buffer().drained() == old(self).buffer().drained(),
            ({
                let idx = old(self).buffer().slice_index(&slice);
                let n = slice@.len() as int;
                &&& res == old(self).buffer().release_ok(&slice)
                &&& res ==> forall|p: int|
                    #[trigger] final(self).buffer().released(p) == (old(self).buffer().released(p)
                        || idx <= p < idx + n)
                &&& !res ==> forall|p: int|
                    #[trigger] final(self).buffer().released(p) == old(self).buffer().released(p)
            }),
    {
        self.buffer.release(slice)
    }

    /// Drops the released bytes at the front of the buffer; see
    /// `TrimmingBuffer::cleanup`.
    pub fn cleanup(&mut self)
        requires
            old(self).wf(),
        ensures
            final(self).wf(),
            final(self).pending() == old(self).pending(),
            final(self).buffer().capacity() == old(self).buffer().capacity(),
            !old(self).buffer().released(0) ==> {
                &&& final(self).buffer().data() == old(self).buffer().data()
                &&& final(self).buffer().first_available() == old(self).buffer().first_available()
                &&& final(self).buffer().drained() == old(self).buffer().drained()
                &&& forall|p: int| #[trigger] final(self).buffer().released(p) == old(self).buffer().released(p)
            },
            old(self).buffer().released(0) ==> exists|k: int|
                #[trigger] crate::buffer::dropped_prefix(old(self).buffer(), final(self).buffer(), k),
    {
        self.buffer.cleanup();
    }

    /// No packet is waiting to be handed out.
    pub fn is_empty(&self) -> (res: bool)
        ensures
            res == (self.pending().len() == 0),
    {
        self.order.len() == 0
    }
}

/// The orderer hands packets out by increasing sequence number: the
/// pending packets are sorted by their sequence number field, which is
/// the number they are kept under.
pub proof fn lemma_pending_sorted(o: DataOrderer)
    requires
        o.wf(),
    ensures
        forall|i: int, j: int|
            0 <= i < j < o.pending().len() ==> #[trigger] o.pending()[i].0 <= #[trigger] o.pending()[j].0,
        forall|i: int|
            0 <= i < o.pending().len() ==> (#[trigger] o.pending()[i]).1.len()
                >= STREAM_CLIENT_FULL_HEADER_SIZE && o.pending()[i].0 == packet_seqno(
                o.pending()[i].1,
            ),
{
    assert forall|i: int, j: int|
        0 <= i < j < o.pending().len() implies #[trigger] o.pending()[i].0
        <= #[trigger] o.pending()[j].0 by {
        assert(o.order@[i].seqno <= o.order@[j].seqno);
    }
    assert forall|i: int| 0 <= i < o.pending().len() implies (#[trigger] o.pending()[i]).1.len()
        >= STREAM_CLIENT_FULL_HEADER_SIZE && o.pending()[i].0 == packet_seqno(
        o.pending()[i].1,
    ) by {
        assert(o.order@[i].slice@.len() >= STREAM_CLIENT_FULL_HEADER_SIZE);
    }
}

/// The packets a run of `add`s stores into an empty orderer: whatever the
/// order of the adds, the pending packets are the added ones, each under
/// its own sequence number.
pub proof fn lemma_adds_keep_all(states: Seq<DataOrderer>, packets: Seq<Seq<u8>>)
    requires
        states.len() == packets.len() + 1,
        states[0].pending().len() == 0,
        forall|k: int| 0 <= k < packets.len() ==> #[trigger] add_step(states[k], states[k + 1], packets[k]),
    ensures
        states.last().pending().to_multiset() == packets.map_values(
            |p: Seq<u8>| (packet_seqno(p), p),
        ).to_multiset(),
    decreases packets.len(),
{
    broadcast use vstd::seq_lib::group_to_multiset_ensures;

    let f = |p: Seq<u8>| (packet_seqno(p), p);
    if packets.len() == 0 {
        assert(states.last().pending() =~= Seq::<(u16, Seq<u8>)>::empty());
        assert(packets.map_values(f) =~= Seq::<(u16, Seq<u8>)>::empty());
    } else {
        let n = packets.len() - 1;
        let ps = packets.drop_last();
        let ss = states.drop_last();
        assert forall|k: int| 0 <= k < ps.len() implies #[trigger] add_step(ss[k], ss[k + 1], ps[k]) by {
            assert(add_step(states[k], states[k + 1], packets[k]));
        }
        lemma_adds_keep_all(ss, ps);
        assert(add_step(states[n], states[n + 1], packets[n]));
        let before = states[n].pending();
        let after = states[n + 1].pending();
        let x = f(packets[n]);
        let i = choose|i: int|
            {
                &&& 0 <= i <= states[n].pending().len()
                &&& #[trigger] states[n + 1].pending() == states[n].pending().insert(
                    i,
                    (packet_seqno(packets[n]), packets[n]),
                )
                &&& forall|j: int|
                    0 <= j < i ==> #[trigger] states[n].pending()[j].0 <= packet_seqno(packets[n])
                &&& forall|j: int|
                    i <= j < states[n].pending().len() ==> #[trigger] states[n].pending()[j].0
                        > packet_seqno(packets[n])
            };
        assert(after.remove(i) =~= before);
        assert(after[i] == x);
        assert(after.to_multiset().remove(x) =~= before.to_multiset());
        assert(after.to_multiset().count(x) > 0) by {
            assert(after.contains(x));
        }
        assert(after.to_multiset() =~= before.to_multiset().insert(x));
        assert(packets.map_values(f) =~= ps.map_values(f).push(x));
        assert(states.last() == states[n + 1]);
        assert(ss.last() == states[n]);
    }
}

/// A run of `take`s hands the pending packets out in their order, which
/// is by increasing sequence number (`lemma_pending_sorted`), and leaves
/// the rest pending.
pub proof fn lemma_takes_in_order(states: Seq<DataOrderer>, outs: Seq<Seq<u8>>)
    requires
        states.len() == outs.len() + 1,
        forall|k: int| 0 <= k < outs.len() ==> #[trigger] take_step(states[k], states[k + 1], outs[k]),
    ensures
        outs.len() <= states[0].pending().len(),
        outs == states[0].pending().take(outs.len() as int).map_values(|e: (u16, Seq<u8>)| e.1),
        states.last().pending() == states[0].pending().skip(outs.len() as int),
    decreases outs.len(),
{
    let g = |e: (u16, Seq<u8>)| e.1;
    if outs.len() == 0 {
        assert(states[0].pending().skip(0) =~= states[0].pending());
        assert(outs =~= states[0].pending().take(0).map_values(g));
    } else {
        let n = outs.len() - 1;
        let os = outs.drop_last();
        let ss = states.drop_last();
        assert forall|k: int| 0 <= k < os.len() implies #[trigger] take_step(ss[k], ss[k + 1], os[k]) by {
            assert(take_step(states[k], states[k + 1], outs[k]));
        }
        lemma_takes_in_order(ss, os);
        assert(take_step(states[n], states[n + 1], outs[n]));
        let p0 = states[0].pending();
        assert(states[n] == ss.last());
        assert(states[n].pending() == p0.skip(n));
        assert(n < p0.len());
        assert(p0.skip(n)[0] == p0[n]);
        assert(outs[n] == p0[n].1);
        assert(states[n + 1].pending() =~= p0.skip(n + 1));
        assert(outs =~= p0.take(n + 1).map_values(g)) by {
            assert(os =~= p0.take(n).map_values(g));
            assert forall|k: int| 0 <= k < n + 1 implies #[trigger] outs[k] == p0.take(n + 1).map_values(g)[k] by {
                if k < n {
                    assert(outs[k] == os[k]);
                    assert(os[k] == p0.take(n).map_values(g)[k]);
                }
            }
        }
        assert(states.last() == states[n + 1]);
    }
}

/// Adds then takes: packets added in any order to an empty orderer, then
/// taken as many times, come out by increasing sequence number, each added
/// packet exactly once, and nothing is left pending.
pub proof fn lemma_orderer_hands_out_sorted(
    adds: Seq<DataOrderer>,
    packets: Seq<Seq<u8>>,
    takes: Seq<DataOrderer>,
    outs: Seq<Seq<u8>>,
)
    requires
        adds.len() == packets.len() + 1,
        adds[0].pending().len() == 0,
        forall|k: int| 0 <= k < packets.len() ==> #[trigger] add_step(adds[k], adds[k + 1], packets[k]),
        adds.last().wf(),
        takes.len() == outs.len() + 1,
        takes[0] == adds.last(),
        forall|k: int| 0 <= k < outs.len() ==> #[trigger] take_step(takes[k], takes[k + 1], outs[k]),
        outs.len() == packets.len(),
    ensures
        outs.map_values(|o: Seq<u8>| (packet_seqno(o), o)).to_multiset() == packets.map_values(
            |p: Seq<u8>| (packet_seqno(p), p),
        ).to_multiset(),
        forall|i: int, j: int|
            0 <= i < j < outs.len() ==> packet_seqno(#[trigger] outs[i]) <= packet_seqno(#[trigger] outs[j]),
        takes.last().pending().len() == 0,
{
    broadcast use vstd::seq_lib::group_to_multiset_ensures;

    let f = |p: Seq<u8>| (packet_seqno(p), p);
    let g = |e: (u16, Seq<u8>)| e.1;
    lemma_adds_keep_all(adds, packets);
    lemma_takes_in_order(takes, outs);
    lemma_pending_sorted(adds.last());
    let pend = adds.last().pending();
    assert(pend.len() == packets.map_values(f).len()) by {
        assert(pend.to_multiset().len() == pend.len());
        assert(packets.map_values(f).to_multiset().len() == packets.map_values(f).len());
    }
    assert(pend.take(outs.len() as int) =~= pend);
    assert(outs.map_values(f) =~= pend) by {
        assert forall|i: int| 0 <= i < outs.len() implies #[trigger] outs.map_values(f)[i] == pend[i] by {
            assert(outs[i] == pend.take(outs.len() as int).map_values(g)[i]);
            assert(outs[i] == pend[i].1);
            assert(pend[i].0 == packet_seqno(pend[i].1));
        }
    }
    assert forall|i: int, j: int| 0 <= i < j < outs.len() implies packet_seqno(#[trigger] outs[i])
        <= packet_seqno(#[trigger] outs[j]) by {
        assert(outs[i] == pend.take(outs.len() as int).map_values(g)[i]);
        assert(outs[j] == pend.take(outs.len() as int).map_values(g)[j]);
        assert(pend[i].0 <= pend[j].0);
        assert(pend[i].0 == packet_seqno(pend[i].1));
        assert(pend[j].0 == packet_seqno(pend[j].1));
    }
    assert(takes.last().pending() =~= pend.skip(outs.len() as int));
}

} // verus!
