//! Decisions of the sending stage of an actor: which outgoing connection a
//! message goes to, and whether that connection must first be opened.
use vstd::prelude::*;
use crate::addr_map::{AddrMap, has_key};
use crate::message::addr_seq;

verus! {

/// How the node controller resolved an actor address: a socket address of
/// another node (`A`), the sending end of a local channel (`L`), or nothing.
#[derive(Debug)]
pub enum Connection<A, L> {
    Remote(A),
    Local(L),
    CouldntResolve,
}

/// Requests from an actor to its node controller; `S` carries the reply.
pub enum ControlReq<S> {
    Resolve { addr: String, resp_tx: S },
}

/// The destinations known after writing to each of `targets` in turn: each
/// new one is added at the end.
pub open spec fn dests_after(dests: Seq<Seq<char>>, targets: Seq<Seq<char>>) -> Seq<Seq<char>>
    decreases targets.len(),
{
    if targets.len() == 0 {
        dests
    } else {
        let d = dests_after(dests, targets.drop_last());
        if d.contains(targets.last()) {
            d
        } else {
            d.push(targets.last())
        }
    }
}

/// `(slot, fresh)` is the connection for `addr` among `dests`: its slot when
/// known, otherwise the next slot, which must be opened.
pub open spec fn is_slot(dests: Seq<Seq<char>>, addr: Seq<char>, slot: usize, fresh: bool) -> bool {
    &&& fresh == !dests.contains(addr)
    &&& fresh ==> slot == dests.len()
    &&& !fresh ==> slot < dests.len() && dests[slot as int] == addr
}

/// The outgoing connections of an actor, one per destination address,
/// numbered in the order the destinations were first written to.
pub struct SenderTable {
    slots: AddrMap<()>,
}

impl SenderTable {
    pub closed spec fn wf(&self) -> bool {
        self.slots.wf()
    }

    /// The destinations, in slot order.
    pub closed spec fn destinations(&self) -> Seq<Seq<char>> {
        self.slots.entry_seq().map_values(|e: (String, ())| e.0@)
    }

    /// One connection per destination: no destination has two slots.
    pub proof fn law_one_slot_per_destination(&self)
        requires
            self.wf(),
        ensures
            self.destinations().no_duplicates(),
    {
        self.slots.lemma_wf();
        let d = self.destinations();
        assert forall|i: int, j: int| 0 <= i < d.len() && 0 <= j < d.len() && i != j implies d[i]
            != d[j] by {
            assert(d[i] == self.slots.entry_seq()[i].0@);
            assert(d[j] == self.slots.entry_seq()[j].0@);
        }
    }

    pub fn new() -> (r: Self)
        ensures
            r.wf(),
            r.destinations() == Seq::<Seq<char>>::empty(),
    {
        let r = SenderTable { slots: AddrMap::new() };
        assert(r.destinations() =~= Seq::<Seq<char>>::empty());
        r
    }

    /// The slot of the connection to `addr`, and whether it is new (the
    /// sending stage must then open the connection). A new destination gets
    /// the next slot; a known one keeps its slot.
    pub fn slot_for(&mut self, addr: &str) -> (r: (usize, bool))
        requires
            old(self).wf(),
        ensures
            final(self).wf(),
            r.1 == !old(self).destinations().contains(addr@),
            r.1 ==> r.0 == old(self).destinations().len() && final(self).destinations()
                == old(self).destinations().push(addr@),
            !r.1 ==> final(self).destinations() == old(self).destinations() && r.0
                < old(self).destinations().len() && old(self).destinations()[r.0 as int]
                == addr@,
    {
        let ghost d = self.destinations();
        match self.slots.position(addr) {
            Some(i) => {
                assert(d[i as int] == addr@);
                (i, false)
            },
            None => {
                assert(!d.contains(addr@)) by {
                    if d.contains(addr@) {
                        let j = choose|j: int| 0 <= j < d.len() && d[j] == addr@;
                        assert(self.slots.entry_seq()[j].0@ == addr@);
                    }
                }
                let n = self.slots.len();
                let _ = self.slots.insert(String::from_str(addr), ());
                assert(self.destinations() =~= d.push(addr@));
                (n, true)
            },
        }
    }


    /// The connection of each of `targets`, in order (see [`is_slot`]), as
    /// one message is written to each of them in turn.
    pub fn slots_for(&mut self, targets: &Vec<String>) -> (r: Vec<(usize, bool)>)
        requires
            old(self).wf(),
        ensures
            final(self).wf(),
            r@.len() == targets@.len(),
            forall|i: int|
                0 <= i < r@.len() ==> is_slot(
                    dests_after(old(self).destinations(), addr_seq(targets@).take(i)),
                    targets@[i]@,
                    (#[trigger] r@[i]).0,
                    r@[i].1,
                ),
            final(self).destinations() == dests_after(old(self).destinations(), addr_seq(targets@)),
    {
        let ghost d0 = self.destinations();
        let ghost ts = addr_seq(targets@);
        let mut out: Vec<(usize, bool)> = Vec::new();
        let mut i: usize = 0;
        while i < targets.len()
            invariant
                self.wf(),
                i <= targets@.len(),
                ts == addr_seq(targets@),
                out@.len() == i,
                self.destinations() == dests_after(d0, ts.take(i as int)),
                forall|k: int|
                    0 <= k < i ==> is_slot(
                        dests_after(d0, ts.take(k)),
                        targets@[k]@,
                        (#[trigger] out@[k]).0,
                        out@[k].1,
                    ),
            decreases targets@.len() - i,
        {
            let ghost before = self.destinations();
            let s = self.slot_for(targets[i].as_str());
            out.push(s);
            proof {
                let t = ts.take(i + 1);
                assert(t.drop_last() =~= ts.take(i as int));
                assert(t.last() == targets@[i as int]@);
            }
            i = i + 1;
        }
        assert(ts.take(targets@.len() as int) =~= ts);
        out
    }
}

} // verus!
