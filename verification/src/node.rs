//! The node controller's bookkeeping: which actors run on this node, which
//! live on other nodes, how an address is resolved, which instruction a chaos
//! request becomes, and which port the next spawned actor listens on.
use vstd::prelude::*;
use crate::addr_map::{AddrMap, has_key, keys_distinct, lemma_dom_len};
use crate::placement::copy_strings;
use crate::chaos::Probability;
use crate::receive::ControlInst;

verus! {

/// How an address resolves on this node: to a local actor's control handle,
/// to the socket address of a remote actor, or to nothing.
pub enum Resolution<H, A> {
    Local(H),
    Remote(A),
    Unresolved,
}

/// The actors a node controller knows: local ones with their control handles
/// (`H`), remote ones with their socket addresses (`A`).
pub struct NodeActors<H, A> {
    local: AddrMap<H>,
    remote: AddrMap<A>,
}

impl<H, A: Copy> NodeActors<H, A> {
    pub closed spec fn wf(&self) -> bool {
        self.local.wf() && self.remote.wf()
    }

    /// Local actors by address.
    pub closed spec fn local(&self) -> Map<Seq<char>, H> {
        self.local@
    }

    /// How many local actors there are.
    pub closed spec fn local_count(&self) -> nat {
        self.local.entry_seq().len()
    }

    /// Remote actors by address.
    pub closed spec fn remote(&self) -> Map<Seq<char>, A> {
        self.remote@
    }

    pub fn new() -> (r: Self)
        ensures
            r.wf(),
            r.local() == Map::<Seq<char>, H>::empty(),
            r.remote() == Map::<Seq<char>, A>::empty(),
    {
        NodeActors { local: AddrMap::new(), remote: AddrMap::new() }
    }

    /// Resolves an address; a local actor wins over a remote one of the same
    /// address.
    pub fn resolve(&self, addr: &str) -> (r: Resolution<&H, A>)
        requires
            self.wf(),
        ensures
            self.local().dom().contains(addr@) ==> (r matches Resolution::Local(h) && *h
                == self.local()[addr@]),
            !self.local().dom().contains(addr@) && self.remote().dom().contains(addr@) ==> r
                == Resolution::<&H, A>::Remote(self.remote()[addr@]),
            !self.local().dom().contains(addr@) && !self.remote().dom().contains(addr@) ==> r
                is Unresolved,
    {
        match self.local.get(addr) {
            Some(h) => Resolution::Local(h),
            None => match self.remote.get(addr) {
                Some(a) => Resolution::Remote(*a),
                None => Resolution::Unresolved,
            },
        }
    }

    /// Records a freshly spawned local actor; a previous actor of the same
    /// address is replaced and its handle handed back.
    pub fn spawned(&mut self, addr: String, handle: H) -> (r: Option<H>)
        requires
            old(self).wf(),
        ensures
            final(self).wf(),
            final(self).local() == old(self).local().insert(addr@, handle),
            final(self).remote() == old(self).remote(),
            r is Some == old(self).local().dom().contains(addr@),
            r matches Some(h) ==> h == old(self).local()[addr@],
    {
        self.local.insert(addr, handle)
    }

    /// Records an actor that started on another node.
    pub fn remote_added(&mut self, addr: String, sock_addr: A)
        requires
            old(self).wf(),
        ensures
            final(self).wf(),
            final(self).remote() == old(self).remote().insert(addr@, sock_addr),
            final(self).local() == old(self).local(),
    {
        let _ = self.remote.insert(addr, sock_addr);
    }

    /// Forgets a local actor, handing back its handle so that it can be told
    /// to stop; nothing happens for an unknown address.
    pub fn stop(&mut self, addr: &str) -> (r: Option<H>)
        requires
            old(self).wf(),
        ensures
            final(self).wf(),
            final(self).local() == old(self).local().remove(addr@),
            final(self).remote() == old(self).remote(),
            r is Some == old(self).local().dom().contains(addr@),
            r matches Some(h) ==> h == old(self).local()[addr@],
    {
        self.local.remove(addr)
    }

    /// Forgets every local actor, handing back all of them to be stopped.
    pub fn stop_all(&mut self) -> (r: Vec<(String, H)>)
        requires
            old(self).wf(),
        ensures
            final(self).wf(),
            final(self).local() == Map::<Seq<char>, H>::empty(),
            final(self).remote() == old(self).remote(),
            crate::addr_map::keys_distinct(r@),
            crate::addr_map::entries_map(r@) == old(self).local(),
    {
        self.local.drain()
    }

    /// The control handle of a local actor, for forwarding chaos settings.
    pub fn local_handle(&self, addr: &str) -> (r: Option<&H>)
        requires
            self.wf(),
        ensures
            r is Some == self.local().dom().contains(addr@),
            r matches Some(h) ==> *h == self.local()[addr@],
    {
        self.local.get(addr)
    }

    /// Number of local actors.
    pub fn num_local(&self) -> (r: usize)
        requires
            self.wf(),
        ensures
            r == self.local_count(),
            self.local().dom().finite(),
            r == self.local().dom().len(),
    {
        proof {
            self.local.lemma_wf();
            lemma_dom_len(self.local.entry_seq());
        }
        self.local.len()
    }
}

impl<H: Clone, A: Copy> NodeActors<H, A> {
    /// The addresses of the local actors.
    pub fn local_names(&self) -> (r: Vec<String>)
        requires
            self.wf(),
        ensures
            forall|k: Seq<char>| self.local().dom().contains(k) <==> exists|i: int| 0 <= i < r@.len() && (#[trigger] r@[i])@ == k,
            r@.len() == self.local_count(),
    {
        self.local.keys()
    }
}

/// A spawned actor resolves to itself, locally, until it is stopped; a stopped
/// one no longer resolves locally (only a remote actor of that address, if
/// any, is left).
pub proof fn law_spawn_then_stop<H>(local: Map<Seq<char>, H>, addr: Seq<char>, h: H)
    ensures
        local.insert(addr, h).dom().contains(addr),
        local.insert(addr, h)[addr] == h,
        !local.insert(addr, h).remove(addr).dom().contains(addr),
        local.insert(addr, h).remove(addr) == local.remove(addr),
{
    assert(local.insert(addr, h).remove(addr) =~= local.remove(addr));
}

/// Chaos requests that reach a node controller for one of its actors.
pub enum ChaosMsg {
    MsgLoss { actor_name: String, probability: Probability },
    MsgDuplication { actor_name: String, factor: u32, probability: Probability },
    MsgDelay { actor_name: String, delay_range_ms: (u64, u64), senders: Vec<String> },
    DisableMsgLoss { actor_name: String },
    DisableMsgDuplication { actor_name: String },
    DisableMsgDelay { actor_name: String, senders: Vec<String> },
}

/// The actor a chaos request is for, and the instruction it becomes.
pub open spec fn spec_chaos_instruction<L>(msg: ChaosMsg) -> (String, ControlInst<L>) {
    match msg {
        ChaosMsg::MsgLoss { actor_name, probability } => (
            actor_name,
            ControlInst::SetMsgLoss { probability },
        ),
        ChaosMsg::MsgDuplication { actor_name, factor, probability } => (
            actor_name,
            ControlInst::SetMsgDuplication { factor, probability },
        ),
        ChaosMsg::MsgDelay { actor_name, delay_range_ms, senders } => (
            actor_name,
            ControlInst::SetMsgDelay { delay_range_ms, senders },
        ),
        ChaosMsg::DisableMsgLoss { actor_name } => (actor_name, ControlInst::UnsetMsgLoss),
        ChaosMsg::DisableMsgDuplication { actor_name } => (
            actor_name,
            ControlInst::UnsetMsgDuplication,
        ),
        ChaosMsg::DisableMsgDelay { actor_name, senders } => (
            actor_name,
            ControlInst::UnsetMsgDelay { senders },
        ),
    }
}

/// Turns a chaos request into the actor it targets and the instruction that
/// actor receives (when it runs on this node).
pub fn chaos_instruction<L>(msg: ChaosMsg) -> (r: (String, ControlInst<L>))
    ensures
        r == spec_chaos_instruction::<L>(msg),
{
    match msg {
        ChaosMsg::MsgLoss { actor_name, probability } => (
            actor_name,
            ControlInst::SetMsgLoss { probability },
        ),
        ChaosMsg::MsgDuplication { actor_name, factor, probability } => (
            actor_name,
            ControlInst::SetMsgDuplication { factor, probability },
        ),
        ChaosMsg::MsgDelay { actor_name, delay_range_ms, senders } => (
            actor_name,
            ControlInst::SetMsgDelay { delay_range_ms, senders },
        ),
        ChaosMsg::DisableMsgLoss { actor_name } => (actor_name, ControlInst::UnsetMsgLoss),
        ChaosMsg::DisableMsgDuplication { actor_name } => (
            actor_name,
            ControlInst::UnsetMsgDuplication,
        ),
        ChaosMsg::DisableMsgDelay { actor_name, senders } => (
            actor_name,
            ControlInst::UnsetMsgDelay { senders },
        ),
    }
}

/// The port handed to the first actor a node spawns.
pub const FIRST_ACTOR_PORT: u16 = 6000;

/// Ports for spawned actors: every request from the job controller uses the
/// current port and moves to the next one; after port 65535 there is none.
pub struct PortCounter {
    next: u32,
}

impl PortCounter {
    /// The port the next request gets (65536 once they are used up).
    pub closed spec fn next_port(&self) -> nat {
        self.next as nat
    }

    pub closed spec fn wf(&self) -> bool {
        self.next <= 65536
    }

    pub fn new() -> (r: Self)
        ensures
            r.wf(),
            r.next_port() == FIRST_ACTOR_PORT,
    {
        PortCounter { next: FIRST_ACTOR_PORT as u32 }
    }

    /// The port for the current request, or `None` when the ports are used up.
    pub fn take(&mut self) -> (r: Option<u16>)
        requires
            old(self).wf(),
        ensures
            final(self).wf(),
            old(self).next_port() <= u16::MAX ==> r == Some(old(self).next_port() as u16)
                && final(self).next_port() == old(self).next_port() + 1,
            old(self).next_port() > u16::MAX ==> r is None && final(self).next_port()
                == old(self).next_port(),
    {
        if self.next <= 65535 {
            let p = self.next as u16;
            self.next = self.next + 1;
            Some(p)
        } else {
            None
        }
    }
}

/// `prefix` is at the start of `s`.
pub open spec fn starts_with(s: Seq<char>, prefix: Seq<char>) -> bool {
    prefix.len() <= s.len() && s.subrange(0, prefix.len() as int) == prefix
}

/// The library name of a shared object's file stem: the stem without its
/// leading `lib`, if it has one.
pub open spec fn spec_lib_name(stem: Seq<char>) -> Seq<char> {
    if starts_with(stem, seq!['l', 'i', 'b']) {
        stem.skip(3)
    } else {
        stem
    }
}

pub fn lib_name_of_stem(stem: &str) -> (r: String)
    ensures
        r@ == spec_lib_name(stem@),
{
    let n = stem.unicode_len();
    if n >= 3 && stem.get_char(0) == 'l' && stem.get_char(1) == 'i' && stem.get_char(2) == 'b' {
        assert(stem@.subrange(0, 3) =~= seq!['l', 'i', 'b']);
        let rest = stem.substring_char(3, n);
        assert(rest@ =~= stem@.skip(3));
        String::from_str(rest)
    } else {
        proof {
            if starts_with(stem@, seq!['l', 'i', 'b']) {
                assert(stem@.subrange(0, 3)[0] == 'l');
                assert(stem@.subrange(0, 3)[1] == 'i');
                assert(stem@.subrange(0, 3)[2] == 'b');
            }
        }
        String::from_str(stem)
    }
}

/// Whether a file extension names a loadable operator library.
pub fn is_library_extension(ext: &str) -> (r: bool)
    ensures
        r == (ext@ == seq!['s', 'o'] || ext@ == seq!['d', 'y', 'l', 'i', 'b']),
{
    let n = ext.unicode_len();
    if n == 2 {
        let r = ext.get_char(0) == 's' && ext.get_char(1) == 'o';
        proof {
            if r {
                assert(ext@ =~= seq!['s', 'o']);
            }
        }
        r
    } else if n == 5 {
        let r = ext.get_char(0) == 'd' && ext.get_char(1) == 'y' && ext.get_char(2) == 'l'
            && ext.get_char(3) == 'i' && ext.get_char(4) == 'b';
        proof {
            if r {
                assert(ext@ =~= seq!['d', 'y', 'l', 'i', 'b']);
            }
        }
        r
    } else {
        false
    }
}

/// The operator libraries a node has loaded: under each library's name, the
/// loaded library (`L`) and the names of the operators it registers.
pub struct OpLibrary<L> {
    container: AddrMap<(L, Vec<String>)>,
}

impl<L> OpLibrary<L> {
    pub closed spec fn wf(&self) -> bool {
        self.container.wf()
    }

    /// The libraries by name.
    pub closed spec fn libs(&self) -> Map<Seq<char>, (L, Vec<String>)> {
        self.container@
    }

    pub fn new() -> (r: Self)
        ensures
            r.wf(),
            r.libs() == Map::<Seq<char>, (L, Vec<String>)>::empty(),
    {
        OpLibrary { container: AddrMap::new() }
    }

    /// Keeps a loaded library and the operators it registers under `name`,
    /// in place of any library of that name.
    pub fn add_lib(&mut self, name: String, library: L, registered: Vec<String>)
        requires
            old(self).wf(),
        ensures
            final(self).wf(),
            final(self).libs() == old(self).libs().insert(name@, (library, registered)),
    {
        let _ = self.container.insert(name, (library, registered));
    }

    /// The library called `lib_name`, if loaded.
    pub fn get_lib(&self, lib_name: &str) -> (r: Option<&L>)
        requires
            self.wf(),
        ensures
            r is Some == self.libs().dom().contains(lib_name@),
            r matches Some(l) ==> *l == self.libs()[lib_name@].0,
    {
        match self.container.get(lib_name) {
            Some(e) => Some(&e.0),
            None => None,
        }
    }

    /// How many libraries are loaded.
    pub fn num_libs(&self) -> (r: usize)
        requires
            self.wf(),
        ensures
            self.libs().dom().finite(),
            r == self.libs().dom().len(),
    {
        proof {
            self.container.lemma_wf();
            lemma_dom_len(self.container.entry_seq());
        }
        self.container.len()
    }

    /// Each loaded library's name with the operators it registers.
    pub fn lib_names(&self) -> (r: Vec<(String, Vec<String>)>)
        requires
            self.wf(),
        ensures
            keys_distinct(r@),
            forall|k: Seq<char>| #[trigger] has_key(r@, k) == self.libs().dom().contains(k),
            forall|i: int|
                0 <= i < r@.len() ==> (#[trigger] r@[i]).1@ == self.libs()[r@[i].0@].1@,
    {
        proof {
            self.container.lemma_wf();
        }
        let entries = self.container.entries();
        let mut out: Vec<(String, Vec<String>)> = Vec::new();
        let mut i: usize = 0;
        while i < entries.len()
            invariant
                i <= entries@.len(),
                entries@ == self.container.entry_seq(),
                keys_distinct(entries@),
                out@.len() == i,
                forall|j: int| 0 <= j < i ==> (#[trigger] out@[j]).0@ == entries@[j].0@,
                forall|j: int| 0 <= j < i ==> (#[trigger] out@[j]).1@ == entries@[j].1.1@,
            decreases entries@.len() - i,
        {
            let ops = copy_strings(&entries[i].1.1);
            out.push((entries[i].0.clone(), ops));
            i = i + 1;
        }
        proof {
            assert forall|k: Seq<char>| #[trigger] has_key(out@, k) == self.libs().dom().contains(k) by {
                if has_key(out@, k) {
                    let j = choose|j: int| 0 <= j < out@.len() && (#[trigger] out@[j]).0@ == k;
                    assert(entries@[j].0@ == k);
                }
                if has_key(entries@, k) {
                    let j = choose|j: int| 0 <= j < entries@.len() && (#[trigger] entries@[j]).0@ == k;
                    assert(out@[j].0@ == k);
                }
            }
            assert forall|i: int| 0 <= i < out@.len() implies (#[trigger] out@[i]).1@
                == self.libs()[out@[i].0@].1@ by {
                crate::addr_map::lemma_entry_value(entries@, i);
            }
            assert forall|a: int, b: int|
                0 <= a < out@.len() && 0 <= b < out@.len() && a != b implies (#[trigger] out@[a]).0@
                != (#[trigger] out@[b]).0@ by {
                assert(entries@[a].0@ != entries@[b].0@);
            }
        }
        out
    }
}

} // verus!

verus! {

/// The chaos request that an instruction for `actor_name` carries out, if it
/// is one: setting a fault for a kind of message fault comes from the request
/// that turns that fault on with the same values, unsetting it from the
/// request that turns that same fault off.
pub open spec fn spec_request_of<L>(actor_name: String, inst: ControlInst<L>) -> Option<ChaosMsg> {
    match inst {
        ControlInst::SetMsgLoss { probability } => Some(ChaosMsg::MsgLoss { actor_name, probability }),
        ControlInst::SetMsgDuplication { factor, probability } => Some(
            ChaosMsg::MsgDuplication { actor_name, factor, probability },
        ),
        ControlInst::SetMsgDelay { delay_range_ms, senders } => Some(
            ChaosMsg::MsgDelay { actor_name, delay_range_ms, senders },
        ),
        ControlInst::UnsetMsgLoss => Some(ChaosMsg::DisableMsgLoss { actor_name }),
        ControlInst::UnsetMsgDuplication => Some(ChaosMsg::DisableMsgDuplication { actor_name }),
        ControlInst::UnsetMsgDelay { senders } => Some(ChaosMsg::DisableMsgDelay { actor_name, senders }),
        _ => None,
    }
}

/// A chaos request goes to the actor it names, as the instruction that turns
/// on or off exactly the fault it asks for, with the values it carries: read
/// back, the instruction is the request.
pub proof fn law_chaos_instruction_keeps_the_request<L>(msg: ChaosMsg)
    ensures
        ({
            let (actor, inst) = spec_chaos_instruction::<L>(msg);
            spec_request_of(actor, inst) == Some(msg)
        }),
{
}

/// A file stem `lib` followed by a name gives that name; a stem that does
/// not start with `lib` is the name itself.
pub proof fn law_lib_name_strips_the_prefix(name: Seq<char>, stem: Seq<char>)
    ensures
        spec_lib_name(seq!['l', 'i', 'b'] + name) == name,
        !(stem.len() >= 3 && stem[0] == 'l' && stem[1] == 'i' && stem[2] == 'b') ==> spec_lib_name(stem)
            == stem,
{
    let s = seq!['l', 'i', 'b'] + name;
    assert(s.subrange(0, 3) =~= seq!['l', 'i', 'b']);
    assert(s.skip(3) =~= name);
    if starts_with(stem, seq!['l', 'i', 'b']) {
        assert(stem.subrange(0, 3)[0] == stem[0]);
        assert(stem.subrange(0, 3)[1] == stem[1]);
        assert(stem.subrange(0, 3)[2] == stem[2]);
    }
}

} // verus!
