//! The job controller's decisions: where each actor of a job is started,
//! which nodes hear about it, when its chaos operations are applied and
//! undone, and which request each of those steps sends to a node.
use vstd::prelude::*;
use crate::addr_map::AddrMap;
use crate::sorted_map::{SortedMap, sorted, text_lt};
use crate::placement::{ChaosOp, LogicalOp, PhysicalOp, same_op, same_ops, spec_chaos_ops};
use crate::rpc::{
    DisableMsgDelayRequest, MsgDelayRequest, MsgDuplicationRequest, MsgLossRequest,
    RemoteActorInfo, SpawnArgs,
};
use crate::text::{decimal_string, spec_decimal};

verus! {

/// Apply or undo a chaos operation.
#[derive(Debug)]
pub enum ChaosActionKind {
    Apply(ChaosOp),
    Revert(ChaosOp),
}

/// A chaos action for an actor, due `offset_ms` after `placed_at`.
#[derive(Debug)]
pub struct ChaosEvent<I> {
    pub actor_name: String,
    pub placed_at: I,
    pub offset_ms: u64,
    pub action: ChaosActionKind,
}

pub open spec fn spec_start_ms(op: ChaosOp) -> u32 {
    match op {
        ChaosOp::Crash(o) => o.crash_ms.unwrap_or(0),
        ChaosOp::MsgLoss(o) => o.start_ms.unwrap_or(0),
        ChaosOp::MsgDuplication(o) => o.start_ms.unwrap_or(0),
        ChaosOp::MsgDelay(o) => o.start_ms.unwrap_or(0),
    }
}

pub open spec fn spec_stop_ms(op: ChaosOp) -> Option<u32> {
    match op {
        ChaosOp::Crash(o) => o.restart_ms,
        ChaosOp::MsgLoss(o) => o.stop_ms,
        ChaosOp::MsgDuplication(o) => o.stop_ms,
        ChaosOp::MsgDelay(o) => o.stop_ms,
    }
}

/// Number of events one operation schedules: an application, and an undoing
/// when it has a stop time.
pub open spec fn event_count(op: ChaosOp) -> nat {
    if spec_stop_ms(op) is Some {
        2
    } else {
        1
    }
}

/// `ev` are the events of `op` for `actor`, placed at `now`: the application
/// at its start time, then the undoing at its stop time if it has one.
pub open spec fn op_events<I>(actor: Seq<char>, op: ChaosOp, now: I, ev: Seq<ChaosEvent<I>>) -> bool {
    &&& ev.len() == event_count(op)
    &&& ev[0].actor_name@ == actor
    &&& ev[0].placed_at == now
    &&& ev[0].offset_ms == spec_start_ms(op) as u64
    &&& ev[0].action matches ChaosActionKind::Apply(a) && same_op(a, op)
    &&& spec_stop_ms(op) matches Some(stop) ==> {
        &&& ev[1].actor_name@ == actor
        &&& ev[1].placed_at == now
        &&& ev[1].offset_ms == stop as u64
        &&& ev[1].action matches ChaosActionKind::Revert(a) && same_op(a, op)
    }
}

/// `ev` are the events of all operations `ops`, one operation after another.
pub open spec fn all_events<I>(actor: Seq<char>, ops: Seq<ChaosOp>, now: I, ev: Seq<ChaosEvent<I>>) -> bool
    decreases ops.len(),
{
    if ops.len() == 0 {
        ev.len() == 0
    } else {
        let c = event_count(ops.last());
        &&& ev.len() >= c
        &&& op_events(actor, ops.last(), now, ev.skip(ev.len() - c))
        &&& all_events(actor, ops.drop_last(), now, ev.take(ev.len() - c))
    }
}

/// Total number of events that operations schedule.
pub open spec fn total_events(ops: Seq<ChaosOp>) -> nat
    decreases ops.len(),
{
    if ops.len() == 0 {
        0
    } else {
        total_events(ops.drop_last()) + event_count(ops.last())
    }
}

/// Each operation is applied once and undone at most once: the schedule has
/// one event per operation plus one per operation with a stop time, every
/// event is for the actor, and an undoing never comes without its application
/// right before it.
pub proof fn law_events<I>(actor: Seq<char>, ops: Seq<ChaosOp>, now: I, ev: Seq<ChaosEvent<I>>)
    requires
        all_events(actor, ops, now, ev),
    ensures
        ev.len() == total_events(ops),
        forall|i: int| 0 <= i < ev.len() ==> (#[trigger] ev[i]).actor_name@ == actor,
        forall|i: int|
            0 <= i < ev.len() && (#[trigger] ev[i]).action is Revert ==> i > 0 && ev[i
                - 1].action is Apply,
    decreases ops.len(),
{
    lemma_events_actor(actor, ops, now, ev);
    if ops.len() > 0 {
        let c = event_count(ops.last());
        let head = ev.take(ev.len() - c);
        let tail = ev.skip(ev.len() - c);
        law_events(actor, ops.drop_last(), now, head);
        assert forall|i: int|
            0 <= i < ev.len() && (#[trigger] ev[i]).action is Revert implies i > 0 && ev[i
                - 1].action is Apply by {
            if i < ev.len() - c {
                assert(ev[i] == head[i]);
                assert(ev[i - 1] == head[i - 1]);
            } else {
                let k = i - (ev.len() - c);
                assert(ev[i] == tail[k]);
                if k == 1 {
                    assert(ev[i - 1] == tail[0]);
                }
            }
        }
    }
}

/// The events that the chaos operations of an actor schedule.
pub fn chaos_events<I: Copy>(actor_name: &String, ops: &Vec<ChaosOp>, now: I) -> (r: Vec<
    ChaosEvent<I>,
>)
    ensures
        all_events(actor_name@, ops@, now, r@),
{
    let mut out: Vec<ChaosEvent<I>> = Vec::new();
    let mut i: usize = 0;
    while i < ops.len()
        invariant
            i <= ops@.len(),
            all_events(actor_name@, ops@.take(i as int), now, out@),
        decreases ops@.len() - i,
    {
        let op = &ops[i];
        let ghost before = out@;
        out.push(
            ChaosEvent {
                actor_name: actor_name.clone(),
                placed_at: now,
                offset_ms: op.start_ms() as u64,
                action: ChaosActionKind::Apply(op.copy()),
            },
        );
        if let Some(stop) = op.stop_ms() {
            out.push(
                ChaosEvent {
                    actor_name: actor_name.clone(),
                    placed_at: now,
                    offset_ms: stop as u64,
                    action: ChaosActionKind::Revert(op.copy()),
                },
            );
        }
        proof {
            let t = ops@.take(i + 1);
            assert(t.drop_last() =~= ops@.take(i as int));
            assert(t.last() == ops@[i as int]);
            let c = event_count(ops@[i as int]);
            assert(out@.take(out@.len() - c) =~= before);
            let seg = out@.skip(out@.len() - c);
            assert(seg[0] == out@[before.len() as int]);
            if c == 2 {
                assert(seg[1] == out@[before.len() as int + 1]);
            }
        }
        i = i + 1;
    }
    assert(ops@.take(ops@.len() as int) =~= ops@);
    out
}

/// The characters of `http://`.
pub open spec fn http_scheme() -> Seq<char> {
    seq!['h', 't', 't', 'p', ':', '/', '/']
}

/// The address of a node's HTTP interface.
pub open spec fn spec_base_url(hostname: Seq<char>, port: u16) -> Seq<char> {
    http_scheme() + hostname + seq![':'] + spec_decimal(port as nat)
}

/// `http://{hostname}:{port}`.
pub fn base_url(hostname: &str, port: u16) -> (r: String)
    ensures
        r@ == spec_base_url(hostname@, port),
{
    let scheme = "http://";
    let colon = ":";
    proof {
        reveal_strlit("http://");
        reveal_strlit(":");
    }
    let mut s = String::from_str(scheme);
    s.append(hostname);
    s.append(colon);
    let digits = decimal_string(port as u64);
    s.append(digits.as_str());
    assert(s@ =~= spec_base_url(hostname@, port));
    s
}

/// What the job controller knows of one node.
pub struct NodeHandle<I> {
    hostname: String,
    base_url: String,
    actors: Vec<RemoteActorInfo>,
    actor_spawn_args: AddrMap<SpawnArgs>,
    loaded_libs: Vec<String>,
    chaos_schedule: Vec<ChaosEvent<I>>,
}

impl<I: Copy> NodeHandle<I> {
    /// Every scheduled chaos event is for an actor whose start arguments are
    /// kept, so that a crashed actor can be started again.
    pub closed spec fn wf(&self) -> bool {
        &&& self.actor_spawn_args.wf()
        &&& forall|i: int|
            0 <= i < self.chaos_schedule@.len() ==> self.actor_spawn_args@.dom().contains(
                (#[trigger] self.chaos_schedule@[i]).actor_name@,
            )
    }

    pub closed spec fn hostname(&self) -> Seq<char> {
        self.hostname@
    }

    pub closed spec fn url(&self) -> Seq<char> {
        self.base_url@
    }

    /// The actors started on the node, in order.
    pub closed spec fn actors(&self) -> Seq<RemoteActorInfo> {
        self.actors@
    }

    /// Start arguments by actor name.
    pub closed spec fn spawn_args(&self) -> Map<Seq<char>, SpawnArgs> {
        self.actor_spawn_args@
    }

    /// The libraries registered on the node, in order.
    pub closed spec fn libs(&self) -> Seq<String> {
        self.loaded_libs@
    }

    /// The chaos events, in scheduling order.
    pub closed spec fn schedule(&self) -> Seq<ChaosEvent<I>> {
        self.chaos_schedule@
    }

    /// A node reached at `http://{hostname}:{port}`, with nothing on it yet.
    pub fn new(hostname: String, port: u16) -> (r: Self)
        ensures
            r.wf(),
            r.hostname() == hostname@,
            r.url() == spec_base_url(hostname@, port),
            r.actors() == Seq::<RemoteActorInfo>::empty(),
            r.spawn_args() == Map::<Seq<char>, SpawnArgs>::empty(),
            r.libs() == Seq::<String>::empty(),
            r.schedule() == Seq::<ChaosEvent<I>>::empty(),
    {
        let url = base_url(hostname.as_str(), port);
        NodeHandle {
            hostname,
            base_url: url,
            actors: Vec::new(),
            actor_spawn_args: AddrMap::new(),
            loaded_libs: Vec::new(),
            chaos_schedule: Vec::new(),
        }
    }

    /// The node's HTTP address.
    pub fn url_str(&self) -> (r: &str)
        ensures
            r@ == self.url(),
    {
        self.base_url.as_str()
    }

    /// Records a library registered on the node.
    pub fn register_lib(&mut self, name: String)
        requires
            old(self).wf(),
        ensures
            final(self).wf(),
            final(self).libs() == old(self).libs().push(name),
            final(self).schedule() == old(self).schedule(),
            final(self).spawn_args() == old(self).spawn_args(),
            final(self).actors() == old(self).actors(),
            final(self).hostname() == old(self).hostname(),
            final(self).url() == old(self).url(),
    {
        self.loaded_libs.push(name);
    }

    /// The start request for an actor of `logical_op` placed as
    /// `physical_op`; it is kept for restarts after a crash.
    pub fn prepare_spawn(&mut self, logical_op: &LogicalOp, physical_op: &PhysicalOp) -> (r:
        SpawnArgs)
        requires
            old(self).wf(),
        ensures
            final(self).wf(),
            r.actor_name@ == physical_op.actor_name@,
            r.operator_name@ == logical_op.name@,
            r.lib_name@ == logical_op.lib_name@,
            r.payload@ == physical_op.payload@,
            final(self).spawn_args() == old(self).spawn_args().insert(physical_op.actor_name@, r),
            final(self).actors() == old(self).actors(),
            final(self).schedule() == old(self).schedule(),
            final(self).hostname() == old(self).hostname(),
            final(self).url() == old(self).url(),
            final(self).libs() == old(self).libs(),
    {
        let args = SpawnArgs {
            actor_name: physical_op.actor_name.clone(),
            operator_name: logical_op.name.clone(),
            lib_name: logical_op.lib_name.clone(),
            payload: physical_op.payload.clone(),
        };
        let kept = SpawnArgs {
            actor_name: physical_op.actor_name.clone(),
            operator_name: logical_op.name.clone(),
            lib_name: logical_op.lib_name.clone(),
            payload: physical_op.payload.clone(),
        };
        let _ = self.actor_spawn_args.insert(physical_op.actor_name.clone(), kept);
        args
    }

    /// Records an actor that the node reports started: it is reachable on
    /// this node's host, and its chaos operations are scheduled from `now`.
    pub fn started(&mut self, info: RemoteActorInfo, physical_op: &PhysicalOp, now: I) -> (r:
        RemoteActorInfo)
        requires
            old(self).wf(),
            old(self).spawn_args().dom().contains(physical_op.actor_name@),
        ensures
            final(self).wf(),
            r.name == info.name,
            r.port == info.port,
            r.hostname@ == old(self).hostname(),
            final(self).actors() == old(self).actors().push(r),
            final(self).spawn_args() == old(self).spawn_args(),
            final(self).hostname() == old(self).hostname(),
            final(self).url() == old(self).url(),
            final(self).libs() == old(self).libs(),
            ({
                let added = final(self).schedule().skip(old(self).schedule().len() as int);
                &&& final(self).schedule().take(old(self).schedule().len() as int)
                    == old(self).schedule()
                &&& match physical_op.chaos {
                    None => added.len() == 0,
                    Some(m) => exists|ops: Seq<ChaosOp>|
                        same_ops(ops, spec_chaos_ops(m)) && all_events(
                            physical_op.actor_name@,
                            ops,
                            now,
                            added,
                        ),
                }
            }),
    {
        let info = RemoteActorInfo { name: info.name, hostname: self.hostname.clone(), port: info.port };
        let kept = RemoteActorInfo { name: info.name.clone(), hostname: self.hostname.clone(), port: info.port };
        self.actors.push(kept);
        let ghost before = self.chaos_schedule@;
        match &physical_op.chaos {
            Some(m) => {
                let ops = m.iter();
                let events = chaos_events(&physical_op.actor_name, &ops, now);
                let ghost ev = events@;
                proof {
                    lemma_events_actor(physical_op.actor_name@, ops@, now, ev);
                }
                let mut events = events;
                self.chaos_schedule.append(&mut events);
                proof {
                    assert(self.chaos_schedule@ =~= before + ev);
                    assert(self.chaos_schedule@.skip(before.len() as int) =~= ev);
                    assert(self.chaos_schedule@.take(before.len() as int) =~= before);
                    assert forall|i: int| 0 <= i < self.chaos_schedule@.len() implies self.actor_spawn_args@.dom().contains(
                        (#[trigger] self.chaos_schedule@[i]).actor_name@,
                    ) by {
                        if i >= before.len() {
                            assert(self.chaos_schedule@[i] == ev[i - before.len()]);
                        }
                    }
                }
            },
            None => {
                assert(self.chaos_schedule@.skip(before.len() as int) =~= Seq::<ChaosEvent<I>>::empty());
                assert(self.chaos_schedule@.take(before.len() as int) =~= before);
            },
        }
        assert(self.actors@.last() == kept);
        info
    }

    /// Number of scheduled chaos events.
    pub fn num_events(&self) -> (r: usize)
        ensures
            r == self.schedule().len(),
    {
        self.chaos_schedule.len()
    }

    /// Scheduled event `i`, with the start arguments of its actor (to start it
    /// again when the event undoes a crash).
    pub fn event(&self, i: usize) -> (r: (&ChaosEvent<I>, &SpawnArgs))
        requires
            self.wf(),
            i < self.schedule().len(),
        ensures
            *r.0 == self.schedule()[i as int],
            *r.1 == self.spawn_args()[self.schedule()[i as int].actor_name@],
    {
        let e = &self.chaos_schedule[i];
        assert(self.actor_spawn_args@.dom().contains(self.chaos_schedule@[i as int].actor_name@));
        let args = self.actor_spawn_args.get(e.actor_name.as_str()).unwrap();
        (e, args)
    }
}

/// Every event listed for an actor's operations is for that actor.
proof fn lemma_events_actor<I>(actor: Seq<char>, ops: Seq<ChaosOp>, now: I, ev: Seq<ChaosEvent<I>>)
    requires
        all_events(actor, ops, now, ev),
    ensures
        forall|i: int| 0 <= i < ev.len() ==> (#[trigger] ev[i]).actor_name@ == actor,
    decreases ops.len(),
{
    if ops.len() > 0 {
        let c = event_count(ops.last());
        lemma_events_actor(actor, ops.drop_last(), now, ev.take(ev.len() - c));
        assert forall|i: int| 0 <= i < ev.len() implies (#[trigger] ev[i]).actor_name@ == actor by {
            if i < ev.len() - c {
                assert(ev[i] == ev.take(ev.len() - c)[i]);
            } else {
                assert(ev[i] == ev.skip(ev.len() - c)[i - (ev.len() - c)]);
            }
        }
    }
}

/// A request from the job controller to a node.
#[derive(Debug)]
pub enum NodeRequest {
    StopActor(String),
    StartActor(SpawnArgs),
    SetMsgLoss(MsgLossRequest),
    SetDuplication(MsgDuplicationRequest),
    SetMsgDelay(MsgDelayRequest),
    UnsetMsgLoss(String),
    UnsetMsgDuplication(String),
    UnsetMsgDelay(DisableMsgDelayRequest),
}

impl ChaosOp {
    /// The request that applies the operation to `actor_name`: a crash stops
    /// the actor; the others set the matching fault.
    pub fn apply_request(&self, actor_name: String) -> (r: NodeRequest)
        ensures
            match *self {
                ChaosOp::Crash(_) => r == NodeRequest::StopActor(actor_name),
                ChaosOp::MsgLoss(op) => r == NodeRequest::SetMsgLoss(
                    MsgLossRequest { actor_name, probability: op.probability },
                ),
                ChaosOp::MsgDuplication(op) => r == NodeRequest::SetDuplication(
                    MsgDuplicationRequest {
                        actor_name,
                        factor: op.factor.0 as u32,
                        probability: op.probability,
                    },
                ),
                ChaosOp::MsgDelay(op) => r matches NodeRequest::SetMsgDelay(d) && d.actor_name
                    == actor_name && d.delay_range_start == op.delay_range_ms.0 && d.delay_range_end
                    == op.delay_range_ms.1 && d.senders@ == op.senders@,
            },
    {
        match self {
            ChaosOp::Crash(_) => NodeRequest::StopActor(actor_name),
            ChaosOp::MsgLoss(op) => NodeRequest::SetMsgLoss(
                MsgLossRequest { actor_name, probability: op.probability },
            ),
            ChaosOp::MsgDuplication(op) => NodeRequest::SetDuplication(
                MsgDuplicationRequest {
                    actor_name,
                    factor: cast_factor(op.factor.0),
                    probability: op.probability,
                },
            ),
            ChaosOp::MsgDelay(op) => NodeRequest::SetMsgDelay(
                MsgDelayRequest {
                    actor_name,
                    delay_range_start: op.delay_range_ms.0,
                    delay_range_end: op.delay_range_ms.1,
                    senders: crate::placement::copy_strings(&op.senders),
                },
            ),
        }
    }

    /// The request that undoes the operation on `actor_name`: a crash is
    /// undone by starting the actor again with `spawn_args`; the others unset
    /// the matching fault.
    pub fn revert_request(&self, actor_name: String, spawn_args: SpawnArgs) -> (r: NodeRequest)
        ensures
            match *self {
                ChaosOp::Crash(_) => r == NodeRequest::StartActor(spawn_args),
                ChaosOp::MsgLoss(_) => r == NodeRequest::UnsetMsgLoss(actor_name),
                ChaosOp::MsgDuplication(_) => r == NodeRequest::UnsetMsgDuplication(actor_name),
                ChaosOp::MsgDelay(op) => r matches NodeRequest::UnsetMsgDelay(d) && d.actor_name
                    == actor_name && d.senders@ == op.senders@,
            },
    {
        match self {
            ChaosOp::Crash(_) => NodeRequest::StartActor(spawn_args),
            ChaosOp::MsgLoss(_) => NodeRequest::UnsetMsgLoss(actor_name),
            ChaosOp::MsgDuplication(_) => NodeRequest::UnsetMsgDuplication(actor_name),
            ChaosOp::MsgDelay(op) => NodeRequest::UnsetMsgDelay(
                DisableMsgDelayRequest {
                    actor_name,
                    senders: crate::placement::copy_strings(&op.senders),
                },
            ),
        }
    }
}

/// The factor as sent to a node.
fn cast_factor(f: i32) -> (r: u32)
    ensures
        r == f as u32,
{
    #[verifier::truncate]
    (f as u32)
}

/// The job controller: the nodes of the cluster, by name, and the placement
/// of operators onto them.
pub struct JobController<PM, I> {
    pm: PM,
    nodes: SortedMap<NodeHandle<I>>,
}

impl<PM, I: Copy> JobController<PM, I> {
    pub closed spec fn wf(&self) -> bool {
        &&& self.nodes.wf()
        &&& forall|k: Seq<char>| #[trigger] self.nodes@.dom().contains(k) ==> self.nodes@[k].wf()
    }

    /// The nodes, by name.
    pub closed spec fn nodes(&self) -> Map<Seq<char>, NodeHandle<I>> {
        self.nodes@
    }

    /// The placement manager.
    pub closed spec fn placement(&self) -> PM {
        self.pm
    }

    pub fn new(pm: PM) -> (r: Self)
        ensures
            r.wf(),
            r.nodes() == Map::<Seq<char>, NodeHandle<I>>::empty(),
            r.placement() == pm,
    {
        JobController { pm, nodes: SortedMap::new() }
    }

    /// The placement manager, to ask where an operator goes.
    pub fn placement_manager(&self) -> (r: &PM)
        ensures
            *r == self.placement(),
    {
        &self.pm
    }

    /// Adds (or replaces) the node `name`, reached at `hostname:port`.
    pub fn register_node(&mut self, name: &str, hostname: String, port: u16)
        requires
            old(self).wf(),
        ensures
            final(self).wf(),
            final(self).placement() == old(self).placement(),
            final(self).nodes().dom() == old(self).nodes().dom().insert(name@),
            forall|k: Seq<char>| k != name@ && #[trigger] old(self).nodes().dom().contains(k)
                ==> final(self).nodes()[k] == old(self).nodes()[k],
            ({
                let h = final(self).nodes()[name@];
                &&& h.hostname() == hostname@
                &&& h.url() == spec_base_url(hostname@, port)
                &&& h.actors().len() == 0
                &&& h.schedule().len() == 0
                &&& h.spawn_args() == Map::<Seq<char>, SpawnArgs>::empty()
            }),
    {
        let h = NodeHandle::new(hostname, port);
        let _ = self.nodes.insert(String::from_str(name), h);
    }

    /// The names of all nodes but `node`: those told about an actor started on
    /// `node`.
    pub fn other_nodes(&self, node: &str) -> (r: Vec<String>)
        requires
            self.wf(),
        ensures
            forall|k: Seq<char>|
                #![trigger listed(r@, k)]
                (self.nodes().dom().contains(k) && k != node@) == listed(r@, k),
            forall|i: int, j: int|
                0 <= i < r@.len() && 0 <= j < r@.len() && i != j ==> (#[trigger] r@[i])@ != (
                #[trigger] r@[j])@,
    {
        let entries = self.nodes.entries();
        let target = String::from_str(node);
        let mut out: Vec<String> = Vec::new();
        let mut i: usize = 0;
        proof {
            self.nodes.lemma_wf();
        }
        while i < entries.len()
            invariant
                i <= entries@.len(),
                entries@ == self.nodes.entry_seq(),
                target@ == node@,
                crate::addr_map::keys_distinct(entries@),
                forall|k: Seq<char>|
                    #![trigger seen_other(entries@, i as int, k, node@)]
                    #![trigger listed(out@, k)]
                    seen_other(entries@, i as int, k, node@) == listed(out@, k),
                forall|b: int|
                    0 <= b < out@.len() ==> seen_other(entries@, i as int, (#[trigger] out@[b])@, node@),
                forall|a: int, b: int|
                    0 <= a < out@.len() && 0 <= b < out@.len() && a != b ==> (#[trigger] out@[a])@
                        != (#[trigger] out@[b])@,
            decreases entries@.len() - i,
        {
            let ghost before = out@;
            let ghost ii = i as int;
            if entries[i].0 != target {
                out.push(entries[i].0.clone());
                proof {
                    let key = entries@[ii].0@;
                    assert(out@[before.len() as int]@ == key);
                    assert forall|b: int| 0 <= b < before.len() implies (#[trigger] before[b])@ != key by {
                        assert(seen_other(entries@, ii, before[b]@, node@));
                        let a = choose|a: int| 0 <= a < ii && (#[trigger] entries@[a]).0@ == before[b]@ && before[b]@ != node@;
                        assert(a != ii);
                    }
                    assert forall|k: Seq<char>|
                        #![trigger seen_other(entries@, ii + 1, k, node@)]
                        #![trigger listed(out@, k)]
                        seen_other(entries@, ii + 1, k, node@) == listed(out@, k) by {
                        if seen_other(entries@, ii + 1, k, node@) {
                            let a = choose|a: int| 0 <= a < ii + 1 && (#[trigger] entries@[a]).0@ == k && k != node@;
                            if a < ii {
                                assert(seen_other(entries@, ii, k, node@));
                                assert(listed(before, k));
                                let b = choose|b: int| 0 <= b < before.len() && (#[trigger] before[b])@ == k;
                                assert(out@[b] == before[b]);
                            } else {
                                assert(out@[before.len() as int]@ == k);
                            }
                        }
                        if listed(out@, k) {
                            let b = choose|b: int| 0 <= b < out@.len() && (#[trigger] out@[b])@ == k;
                            if b < before.len() {
                                assert(before[b] == out@[b]);
                                assert(listed(before, k));
                                assert(seen_other(entries@, ii, k, node@));
                                let a = choose|a: int| 0 <= a < ii && (#[trigger] entries@[a]).0@ == k && k != node@;
                                assert(0 <= a < ii + 1);
                            } else {
                                assert(entries@[ii].0@ == k);
                            }
                        }
                    }
                    assert forall|b: int| 0 <= b < out@.len() implies seen_other(entries@, ii + 1, (#[trigger] out@[b])@, node@) by {
                        if b < before.len() {
                            assert(before[b] == out@[b]);
                            assert(seen_other(entries@, ii, before[b]@, node@));
                            let a = choose|a: int| 0 <= a < ii && (#[trigger] entries@[a]).0@ == before[b]@ && before[b]@ != node@;
                            assert(0 <= a < ii + 1);
                        } else {
                            assert(entries@[ii].0@ == out@[b]@);
                        }
                    }
                }
            } else {
                proof {
                    assert forall|k: Seq<char>|
                        #![trigger seen_other(entries@, ii + 1, k, node@)]
                        #![trigger listed(out@, k)]
                        seen_other(entries@, ii + 1, k, node@) == listed(out@, k) by {
                        if seen_other(entries@, ii + 1, k, node@) {
                            let a = choose|a: int| 0 <= a < ii + 1 && (#[trigger] entries@[a]).0@ == k && k != node@;
                            assert(a != ii);
                            assert(seen_other(entries@, ii, k, node@));
                        }
                        if listed(out@, k) {
                            assert(seen_other(entries@, ii, k, node@));
                            let a = choose|a: int| 0 <= a < ii && (#[trigger] entries@[a]).0@ == k && k != node@;
                            assert(0 <= a < ii + 1);
                        }
                    }
                    assert forall|b: int| 0 <= b < out@.len() implies seen_other(entries@, ii + 1, (#[trigger] out@[b])@, node@) by {
                        assert(seen_other(entries@, ii, out@[b]@, node@));
                        let a = choose|a: int| 0 <= a < ii && (#[trigger] entries@[a]).0@ == out@[b]@ && out@[b]@ != node@;
                        assert(0 <= a < ii + 1);
                    }
                }
            }
            i = i + 1;
        }
        proof {
            assert forall|k: Seq<char>|
                #![trigger listed(out@, k)]
                (self.nodes().dom().contains(k) && k != node@) == listed(out@, k) by {
                assert(seen_other(entries@, i as int, k, node@) == listed(out@, k));
                if self.nodes().dom().contains(k) && k != node@ {
                    let a = choose|a: int| 0 <= a < entries@.len() && (#[trigger] entries@[a]).0@ == k;
                    assert(seen_other(entries@, i as int, k, node@));
                }
                if listed(out@, k) {
                    let a = choose|a: int| 0 <= a < i && (#[trigger] entries@[a]).0@ == k && k != node@;
                    assert(crate::addr_map::has_key(entries@, k));
                }
            }
        }
        out
    }

    /// Whether the node `name` is registered.
    pub fn has_node(&self, name: &str) -> (r: bool)
        requires
            self.wf(),
        ensures
            r == self.nodes().dom().contains(name@),
    {
        self.nodes.contains_key(name)
    }

    /// Prepares the start of an actor of `logical_op` on the node that
    /// `physical_op` names, which must be registered.
    pub fn prepare_spawn(&mut self, logical_op: &LogicalOp, physical_op: &PhysicalOp) -> (r:
        SpawnArgs)
        requires
            old(self).wf(),
            old(self).nodes().dom().contains(physical_op.nodename@),
        ensures
            final(self).wf(),
            final(self).placement() == old(self).placement(),
            final(self).nodes().dom() == old(self).nodes().dom(),
            r.actor_name@ == physical_op.actor_name@,
            r.operator_name@ == logical_op.name@,
            r.lib_name@ == logical_op.lib_name@,
            r.payload@ == physical_op.payload@,
            final(self).nodes()[physical_op.nodename@].spawn_args() == old(self).nodes()[physical_op.nodename@].spawn_args().insert(
                physical_op.actor_name@,
                r,
            ),
            final(self).nodes()[physical_op.nodename@].actors() == old(self).nodes()[physical_op.nodename@].actors(),
            final(self).nodes()[physical_op.nodename@].schedule() == old(self).nodes()[physical_op.nodename@].schedule(),
            final(self).nodes()[physical_op.nodename@].hostname() == old(self).nodes()[physical_op.nodename@].hostname(),
            forall|k: Seq<char>| k != physical_op.nodename@ && #[trigger] old(self).nodes().dom().contains(k)
                ==> final(self).nodes()[k] == old(self).nodes()[k],
    {
        let i = self.nodes.position(physical_op.nodename.as_str()).unwrap();
        proof {
            self.nodes.lemma_wf();
            crate::addr_map::lemma_entry_value(self.nodes.entry_seq(), i as int);
        }
        let ghost old_entries = self.nodes.entry_seq();
        let h = self.nodes.value_mut(i);
        let r = h.prepare_spawn(logical_op, physical_op);
        proof {
            lemma_update_value(old_entries, i as int, self.nodes.entry_seq());
        }
        r
    }
}

impl<PM, I: Copy> JobController<PM, I> {
    /// Records an actor that its node reports started (see
    /// [`NodeHandle::started`]).
    pub fn started(&mut self, info: RemoteActorInfo, physical_op: &PhysicalOp, now: I) -> (r:
        RemoteActorInfo)
        requires
            old(self).wf(),
            old(self).nodes().dom().contains(physical_op.nodename@),
            old(self).nodes()[physical_op.nodename@].spawn_args().dom().contains(
                physical_op.actor_name@,
            ),
        ensures
            final(self).wf(),
            final(self).placement() == old(self).placement(),
            final(self).nodes().dom() == old(self).nodes().dom(),
            r.name == info.name,
            r.port == info.port,
            r.hostname@ == old(self).nodes()[physical_op.nodename@].hostname(),
            final(self).nodes()[physical_op.nodename@].actors() == old(self).nodes()[physical_op.nodename@].actors().push(r),
            final(self).nodes()[physical_op.nodename@].spawn_args() == old(self).nodes()[physical_op.nodename@].spawn_args(),
            final(self).nodes()[physical_op.nodename@].hostname() == old(self).nodes()[physical_op.nodename@].hostname(),
            ({
                let before = old(self).nodes()[physical_op.nodename@].schedule();
                let after = final(self).nodes()[physical_op.nodename@].schedule();
                let added = after.skip(before.len() as int);
                &&& after.take(before.len() as int) == before
                &&& match physical_op.chaos {
                    None => added.len() == 0,
                    Some(m) => exists|ops: Seq<ChaosOp>|
                        same_ops(ops, spec_chaos_ops(m)) && all_events(
                            physical_op.actor_name@,
                            ops,
                            now,
                            added,
                        ),
                }
            }),
            forall|k: Seq<char>| k != physical_op.nodename@ && #[trigger] old(self).nodes().dom().contains(k)
                ==> final(self).nodes()[k] == old(self).nodes()[k],
    {
        proof {
            self.nodes.lemma_wf();
        }
        let i = self.nodes.position(physical_op.nodename.as_str()).unwrap();
        proof {
            crate::addr_map::lemma_entry_value(self.nodes.entry_seq(), i as int);
        }
        let ghost old_entries = self.nodes.entry_seq();
        let h = self.nodes.value_mut(i);
        let r = h.started(info, physical_op, now);
        proof {
            lemma_update_value(old_entries, i as int, self.nodes.entry_seq());
        }
        r
    }

    /// Records a library registered on the node `node`, which must be known.
    pub fn register_lib(&mut self, node: &str, lib_name: String)
        requires
            old(self).wf(),
            old(self).nodes().dom().contains(node@),
        ensures
            final(self).wf(),
            final(self).placement() == old(self).placement(),
            final(self).nodes().dom() == old(self).nodes().dom(),
            final(self).nodes()[node@].libs() == old(self).nodes()[node@].libs().push(lib_name),
            final(self).nodes()[node@].schedule() == old(self).nodes()[node@].schedule(),
            final(self).nodes()[node@].spawn_args() == old(self).nodes()[node@].spawn_args(),
            forall|k: Seq<char>| k != node@ && #[trigger] old(self).nodes().dom().contains(k)
                ==> final(self).nodes()[k] == old(self).nodes()[k],
    {
        proof {
            self.nodes.lemma_wf();
        }
        let i = self.nodes.position(node).unwrap();
        proof {
            crate::addr_map::lemma_entry_value(self.nodes.entry_seq(), i as int);
        }
        let ghost old_entries = self.nodes.entry_seq();
        let h = self.nodes.value_mut(i);
        h.register_lib(lib_name);
        proof {
            lemma_update_value(old_entries, i as int, self.nodes.entry_seq());
        }
    }

    /// The node called `name`.
    pub fn node(&self, name: &str) -> (r: Option<&NodeHandle<I>>)
        requires
            self.wf(),
        ensures
            r is Some == self.nodes().dom().contains(name@),
            r matches Some(h) ==> *h == self.nodes()[name@] && h.wf(),
    {
        self.nodes.get(name)
    }

    /// The names of the nodes, in increasing order.
    pub fn node_names(&self) -> (r: Vec<String>)
        requires
            self.wf(),
        ensures
            forall|k: Seq<char>| #![trigger listed(r@, k)] self.nodes().dom().contains(k) == listed(r@, k),
            forall|a: int, b: int|
                0 <= a < b < r@.len() ==> text_lt((#[trigger] r@[a])@, (#[trigger] r@[b])@),
    {
        proof {
            self.nodes.lemma_wf();
        }
        let entries = self.nodes.entries();
        let mut out: Vec<String> = Vec::new();
        let mut i: usize = 0;
        while i < entries.len()
            invariant
                i <= entries@.len(),
                entries@ == self.nodes.entry_seq(),
                sorted(entries@),
                out@.len() == i,
                forall|b: int| 0 <= b < i ==> (#[trigger] out@[b])@ == entries@[b].0@,
            decreases entries@.len() - i,
        {
            out.push(entries[i].0.clone());
            i = i + 1;
        }
        proof {
            assert forall|a: int, b: int| 0 <= a < b < out@.len() implies text_lt(
                (#[trigger] out@[a])@,
                (#[trigger] out@[b])@,
            ) by {
                assert(text_lt(entries@[a].0@, entries@[b].0@));
            }
            assert forall|k: Seq<char>| #![trigger listed(out@, k)] self.nodes().dom().contains(k) == listed(out@, k) by {
                if self.nodes().dom().contains(k) {
                    let a = choose|a: int| 0 <= a < entries@.len() && (#[trigger] entries@[a]).0@ == k;
                    assert(out@[a]@ == k);
                }
                if listed(out@, k) {
                    let b = choose|b: int| 0 <= b < out@.len() && (#[trigger] out@[b])@ == k;
                    assert(entries@[b].0@ == k);
                }
            }
        }
        out
    }

    /// Ends the job: hands back every node, by increasing name, for its
    /// actors to be stopped.
    pub fn stop_job(self) -> (r: Vec<(String, NodeHandle<I>)>)
        requires
            self.wf(),
        ensures
            sorted(r@),
            crate::addr_map::keys_distinct(r@),
            crate::addr_map::entries_map(r@) == self.nodes(),
    {
        let mut nodes = self.nodes;
        nodes.drain()
    }
}

/// Some string in `out` reads `k`.
pub open spec fn listed(out: Seq<String>, k: Seq<char>) -> bool {
    exists|b: int| 0 <= b < out.len() && (#[trigger] out[b])@ == k
}

/// Among the first `i` entries, one has key `k`, and `k` is not `node`.
pub open spec fn seen_other<V>(entries: Seq<(String, V)>, i: int, k: Seq<char>, node: Seq<char>) -> bool {
    exists|a: int| 0 <= a < i && (#[trigger] entries[a]).0@ == k && k != node
}

/// Changing the value of entry `i` changes only that key's value.
proof fn lemma_update_value<V>(s: Seq<(String, V)>, i: int, t: Seq<(String, V)>)
    requires
        crate::addr_map::keys_distinct(s),
        0 <= i < s.len(),
        t.len() == s.len(),
        t[i].0 == s[i].0,
        forall|j: int| 0 <= j < s.len() && j != i ==> t[j] == s[j],
    ensures
        crate::addr_map::keys_distinct(t),
        crate::addr_map::entries_map(t) == crate::addr_map::entries_map(s).insert(s[i].0@, t[i].1),
{
    assert(t =~= s.update(i, t[i]));
    crate::addr_map::lemma_remove(s, i);
    assert(s.remove(i) =~= t.remove(i));
    crate::addr_map::lemma_remove(t, i);
    assert(crate::addr_map::keys_distinct(t)) by {
        assert forall|a: int, b: int|
            0 <= a < t.len() && 0 <= b < t.len() && a != b implies (#[trigger] t[a]).0@ != (
            #[trigger] t[b]).0@ by {
            if a != i {
                assert(t[a] == s[a]);
            }
            if b != i {
                assert(t[b] == s[b]);
            }
        }
    }
    crate::addr_map::lemma_entry_value(t, i);
    let m = crate::addr_map::entries_map(t);
    let n = crate::addr_map::entries_map(s).insert(s[i].0@, t[i].1);
    assert(m.remove(s[i].0@) =~= n.remove(s[i].0@));
    assert(m =~= n) by {
        assert forall|k: Seq<char>| m.dom().contains(k) == n.dom().contains(k) by {
            if k != s[i].0@ {
                assert(m.remove(s[i].0@).dom().contains(k) == m.dom().contains(k));
                assert(n.remove(s[i].0@).dom().contains(k) == n.dom().contains(k));
            }
        }
        assert forall|k: Seq<char>| #[trigger] m.dom().contains(k) implies m[k] == n[k] by {
            if k != s[i].0@ {
                assert(m.remove(s[i].0@)[k] == m[k]);
                assert(n.remove(s[i].0@)[k] == n[k]);
            }
        }
    }
}

} // verus!

verus! {

/// An operation is applied at its start time (a crash at its crash time), 0
/// when it has none, and undone at its stop time (a crash at its restart
/// time), and only when it has one.
pub proof fn law_event_times<I>(actor: Seq<char>, op: ChaosOp, now: I, ev: Seq<ChaosEvent<I>>)
    requires
        op_events(actor, op, now, ev),
    ensures
        op matches ChaosOp::Crash(o) ==> ev[0].offset_ms == o.crash_ms.unwrap_or(0) as u64 && (ev.len()
            == 2 <==> o.restart_ms is Some) && (o.restart_ms matches Some(t) ==> ev[1].offset_ms
            == t as u64),
        op matches ChaosOp::MsgLoss(o) ==> ev[0].offset_ms == o.start_ms.unwrap_or(0) as u64 && (ev.len()
            == 2 <==> o.stop_ms is Some) && (o.stop_ms matches Some(t) ==> ev[1].offset_ms == t as u64),
        op matches ChaosOp::MsgDuplication(o) ==> ev[0].offset_ms == o.start_ms.unwrap_or(0) as u64 && (
        ev.len() == 2 <==> o.stop_ms is Some) && (o.stop_ms matches Some(t) ==> ev[1].offset_ms == t as u64),
        op matches ChaosOp::MsgDelay(o) ==> ev[0].offset_ms == o.start_ms.unwrap_or(0) as u64 && (ev.len()
            == 2 <==> o.stop_ms is Some) && (o.stop_ms matches Some(t) ==> ev[1].offset_ms == t as u64),
        ev[0].action is Apply,
        ev.len() == 2 ==> ev[1].action is Revert,
{
}

} // verus!
