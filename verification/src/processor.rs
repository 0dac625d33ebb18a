//! The processing stage of an actor. It takes messages from the priority
//! channel one at a time; each step below decides what one message does.
use vstd::prelude::*;
use crate::chaos::ChaosManager;
use crate::message::{Msg, R2PMsg};

verus! {

/// The processing logic of an actor: each input message becomes zero or more
/// output messages.
pub trait ActorProcess: Send + 'static {
    type IMsg: Msg;

    type OMsg: Msg;

    /// The processing logic, in state `self`, may answer `input` with
    /// `output` and move to state `next`. An implementation says what this
    /// is; one that does not leaves every answer possible.
    open spec fn answers(&self, input: Self::IMsg, next: Self, output: Seq<Self::OMsg>) -> bool where
        Self: Sized,
    {
        true
    }

    fn process(&mut self, input: Self::IMsg) -> (r: Vec<Self::OMsg>)
        where Self: Sized
        ensures
            old(self).answers(input, *final(self), r@),
    ;
}

/// Each output of a batch, tagged with `origin`.
pub open spec fn tagged<O>(batch: Seq<O>, origin: &'static str) -> Seq<(O, &'static str)> {
    batch.map_values(|o: O| (o, origin))
}

/// The batches, one after another, each output tagged with `origin`.
pub open spec fn tagged_all<O>(batches: Seq<Seq<O>>, origin: &'static str) -> Seq<(O, &'static str)>
    decreases batches.len(),
{
    if batches.len() == 0 {
        Seq::empty()
    } else {
        tagged_all(batches.drop_last(), origin) + tagged(batches.last(), origin)
    }
}

/// `states` runs the processing logic through `msgs`: from state `k` it
/// answers message `k` with batch `k` and moves to state `k + 1`.
pub open spec fn runs_through<P: ActorProcess>(
    states: Seq<P>,
    msgs: Seq<P::IMsg>,
    batches: Seq<Seq<P::OMsg>>,
) -> bool {
    &&& states.len() == msgs.len() + 1
    &&& batches.len() == msgs.len()
    &&& forall|k: int|
        0 <= k < msgs.len() ==> (#[trigger] states[k]).answers(msgs[k], states[k + 1], batches[k])
}

/// What the processing loop does after taking one message.
pub enum ProcessorStep<T, R> {
    /// Hand these messages, in order, to the processing logic; the outputs are
    /// sent on with `origin` as the address to reply to.
    Process { msgs: Vec<T>, origin: &'static str },
    /// Start draining this new least urgent lane.
    AddPrio(R),
    /// Stop draining the least urgent lane.
    RemoveLowPrio,
    /// The chaos settings changed; nothing else to do.
    Reconfigured,
    /// Leave the loop.
    Exit,
}

/// The chaos settings after a control message.
pub open spec fn spec_next_chaos<T, R>(cm: ChaosManager, msg: R2PMsg<T, R>) -> ChaosManager {
    match msg {
        R2PMsg::SetMsgDuplication { factor, probability } => ChaosManager {
            msg_duplication_factor: Some(factor),
            msg_duplication_probability: Some(probability),
            ..cm
        },
        R2PMsg::SetMsgLoss { probability } => ChaosManager {
            msg_loss_probability: Some(probability),
            ..cm
        },
        R2PMsg::UnsetMsgLoss => ChaosManager { msg_loss_probability: None, ..cm },
        R2PMsg::UnsetMsgDuplication => ChaosManager {
            msg_duplication_factor: None,
            msg_duplication_probability: None,
            ..cm
        },
        _ => cm,
    }
}

/// Turning message loss off after turning it on leaves no loss and keeps the
/// duplication settings as they were.
pub proof fn law_unset_loss_after_set<T, R>(cm: ChaosManager, probability: crate::chaos::Probability)
    ensures
        ({
            let after = spec_next_chaos::<T, R>(
                spec_next_chaos::<T, R>(cm, R2PMsg::SetMsgLoss { probability }),
                R2PMsg::UnsetMsgLoss,
            );
            &&& after.msg_loss_probability is None
            &&& after.msg_duplication_factor == cm.msg_duplication_factor
            &&& after.msg_duplication_probability == cm.msg_duplication_probability
        }),
{
}

/// Turning duplication off after turning it on leaves no duplication and keeps
/// the loss setting as it was.
pub proof fn law_unset_duplication_after_set<T, R>(
    cm: ChaosManager,
    factor: u32,
    probability: crate::chaos::Probability,
)
    ensures
        ({
            let after = spec_next_chaos::<T, R>(
                spec_next_chaos::<T, R>(cm, R2PMsg::SetMsgDuplication { factor, probability }),
                R2PMsg::UnsetMsgDuplication,
            );
            &&& after.msg_duplication_factor is None
            &&& after.msg_duplication_probability is None
            &&& after.msg_loss_probability == cm.msg_loss_probability
        }),
{
}

/// Each chaos control message sets exactly the settings it names, to the
/// values it carries, and leaves the other settings alone; every other message
/// leaves the settings as they were. So after loss is set, a message from
/// another actor whose loss draw hits is dropped; after duplication is set
/// (and while no loss is set) one whose duplication draw hits arrives
/// `factor` times; after loss is unset no message is dropped, and after
/// duplication is unset none is duplicated.
pub proof fn law_control_messages_set_what_they_name<T, R>(cm: ChaosManager, msg: R2PMsg<T, R>)
    ensures
        ({
            let n = spec_next_chaos(cm, msg);
            match msg {
                R2PMsg::SetMsgLoss { probability } => {
                    &&& n.msg_loss_probability == Some(probability)
                    &&& n.msg_duplication_factor == cm.msg_duplication_factor
                    &&& n.msg_duplication_probability == cm.msg_duplication_probability
                    &&& forall|d: bool| crate::chaos::spec_chaos_copies(n, true, d) == 0
                },
                R2PMsg::SetMsgDuplication { factor, probability } => {
                    &&& n.msg_duplication_factor == Some(factor)
                    &&& n.msg_duplication_probability == Some(probability)
                    &&& n.msg_loss_probability == cm.msg_loss_probability
                    &&& forall|l: bool|
                        crate::chaos::spec_chaos_copies(n, l, true) == if cm.msg_loss_probability
                            is Some && l {
                            0
                        } else {
                            factor as nat
                        }
                },
                R2PMsg::UnsetMsgLoss => {
                    &&& n.msg_loss_probability is None
                    &&& n.msg_duplication_factor == cm.msg_duplication_factor
                    &&& n.msg_duplication_probability == cm.msg_duplication_probability
                    &&& forall|l: bool, d: bool| crate::chaos::spec_chaos_copies(n, l, d) > 0 || (
                        n.msg_duplication_factor == Some(0u32) && d)
                },
                R2PMsg::UnsetMsgDuplication => {
                    &&& n.msg_duplication_factor is None
                    &&& n.msg_duplication_probability is None
                    &&& n.msg_loss_probability == cm.msg_loss_probability
                    &&& forall|l: bool, d: bool| crate::chaos::spec_chaos_copies(n, l, d) <= 1
                },
                _ => n == cm,
            }
        }),
{
}

/// One step of the processing loop on the message `next` (`None` once every
/// sender is gone). `loss_hit` and `dup_hit` are the outcomes of the random
/// draws against the loss and duplication probabilities. Chaos only touches
/// messages that came from another actor: a message from the actor's own
/// generators (empty origin) is processed exactly once.
pub fn processor_step<T: Clone, R>(
    chaos: &mut ChaosManager,
    next: Option<R2PMsg<T, R>>,
    loss_hit: bool,
    dup_hit: bool,
) -> (r: ProcessorStep<T, R>)
    ensures
        match next {
            None => r is Exit && *final(chaos) == *old(chaos),
            Some(msg) => {
                &&& *final(chaos) == spec_next_chaos(*old(chaos), msg)
                &&& match msg {
                    R2PMsg::Msg(m, origin) => r matches ProcessorStep::Process { msgs, origin: o } && o
                        == origin && (if origin@.len() == 0 {
                        msgs@ == seq![m]
                    } else {
                        msgs@.len() == crate::chaos::spec_chaos_copies(*old(chaos), loss_hit, dup_hit)
                            && forall|i: int| 0 <= i < msgs@.len() ==> cloned(m, #[trigger] msgs@[i])
                    }),
                    R2PMsg::Exit => r is Exit,
                    R2PMsg::AddPrio(rx) => r == ProcessorStep::<T, R>::AddPrio(rx),
                    R2PMsg::RemoveLowPrio => r is RemoveLowPrio,
                    _ => r is Reconfigured,
                }
            },
        },
{
    match next {
        None => ProcessorStep::Exit,
        Some(R2PMsg::Msg(m, origin)) => {
            if origin.is_empty() {
                let mut msgs: Vec<T> = Vec::new();
                msgs.push(m);
                ProcessorStep::Process { msgs, origin }
            } else {
                let msgs = chaos.apply_chaos(m, loss_hit, dup_hit);
                ProcessorStep::Process { msgs, origin }
            }
        },
        Some(R2PMsg::Exit) => ProcessorStep::Exit,
        Some(R2PMsg::AddPrio(rx)) => ProcessorStep::AddPrio(rx),
        Some(R2PMsg::RemoveLowPrio) => ProcessorStep::RemoveLowPrio,
        Some(R2PMsg::SetMsgDuplication { factor, probability }) => {
            chaos.set_msg_duplication(factor, probability);
            ProcessorStep::Reconfigured
        },
        Some(R2PMsg::SetMsgLoss { probability }) => {
            chaos.set_msg_loss(probability);
            ProcessorStep::Reconfigured
        },
        Some(R2PMsg::UnsetMsgLoss) => {
            chaos.unset_msg_loss();
            ProcessorStep::Reconfigured
        },
        Some(R2PMsg::UnsetMsgDuplication) => {
            chaos.unset_msg_duplication();
            ProcessorStep::Reconfigured
        },
    }
}

/// Appends the outputs of one batch, each tagged with `origin`.
fn push_tagged<O>(out: &mut Vec<(O, &'static str)>, batch: Vec<O>, origin: &'static str)
    ensures
        final(out)@ == old(out)@ + tagged(batch@, origin),
{
    let ghost o0 = out@;
    let ghost orig = batch@;
    let n = batch.len();
    let mut rest = batch;
    let mut j: usize = 0;
    while rest.len() > 0
        invariant
            orig.len() == n,
            j <= orig.len(),
            rest@ == orig.skip(j as int),
            out@ == o0 + tagged(orig.take(j as int), origin),
        decreases rest@.len(),
    {
        let o = rest.remove(0);
        assert(orig[j as int] == o);
        out.push((o, origin));
        assert(orig.take(j + 1) =~= orig.take(j as int).push(o));
        assert(tagged(orig.take(j + 1), origin) =~= tagged(orig.take(j as int), origin).push((o, origin)));
        assert(out@ =~= o0 + tagged(orig.take(j + 1), origin));
        j = j + 1;
        assert(rest@ =~= orig.skip(j as int));
    }
    assert(orig.take(j as int) =~= orig);
}

/// Runs the processing logic on each message in turn and tags every output
/// with the origin of the input it answers: the result is the answers to the
/// messages, one batch after another, as the logic moves from state to state.
pub fn process_all<P: ActorProcess>(
    processor: &mut P,
    msgs: Vec<P::IMsg>,
    origin: &'static str,
) -> (r: Vec<(P::OMsg, &'static str)>)
    ensures
        exists|states: Seq<P>, batches: Seq<Seq<P::OMsg>>|
            {
                &&& runs_through(states, msgs@, batches)
                &&& states[0] == *old(processor)
                &&& states.last() == *final(processor)
                &&& r@ == tagged_all(batches, origin)
            },
        forall|i: int| 0 <= i < r@.len() ==> (#[trigger] r@[i]).1 == origin,
{
    let ghost orig = msgs@;
    let n = msgs.len();
    let ghost mut states: Seq<P> = seq![*processor];
    let ghost mut batches: Seq<Seq<P::OMsg>> = Seq::empty();
    let mut out: Vec<(P::OMsg, &'static str)> = Vec::new();
    let mut rest = msgs;
    let mut k: usize = 0;
    while rest.len() > 0
        invariant
            orig.len() == n,
            k <= orig.len(),
            rest@ == orig.skip(k as int),
            runs_through(states, orig.take(k as int), batches),
            states[0] == *old(processor),
            states.last() == *processor,
            out@ == tagged_all(batches, origin),
        decreases rest@.len(),
    {
        let m = rest.remove(0);
        assert(orig[k as int] == m);
        let ghost before = *processor;
        let produced = processor.process(m);
        let ghost batch = produced@;
        let ghost old_states = states;
        let ghost old_batches = batches;
        proof {
            states = states.push(*processor);
            batches = batches.push(batch);
        }
        push_tagged(&mut out, produced, origin);
        proof {
            assert(batches.drop_last() =~= old_batches);
            let t = orig.take(k + 1);
            assert(t =~= orig.take(k as int).push(m));
            assert forall|i: int| 0 <= i < t.len() implies (#[trigger] states[i]).answers(
                t[i],
                states[i + 1],
                batches[i],
            ) by {
                if i < k {
                    assert(states[i] == old_states[i]);
                    assert(states[i + 1] == old_states[i + 1]);
                    assert(batches[i] == old_batches[i]);
                    assert(t[i] == orig.take(k as int)[i]);
                } else {
                    assert(states[i] == old_states.last());
                }
            }
        }
        k = k + 1;
        assert(rest@ =~= orig.skip(k as int));
    }
    assert(orig.take(k as int) =~= orig);
    proof {
        assert forall|i: int| 0 <= i < out@.len() implies (#[trigger] out@[i]).1 == origin by {
            lemma_tagged_all_origin(batches, origin, i);
        }
    }
    out
}

/// Every output of tagged batches carries the origin.
proof fn lemma_tagged_all_origin<O>(batches: Seq<Seq<O>>, origin: &'static str, i: int)
    requires
        0 <= i < tagged_all(batches, origin).len(),
    ensures
        tagged_all(batches, origin)[i].1 == origin,
    decreases batches.len(),
{
    if batches.len() > 0 {
        let front = tagged_all(batches.drop_last(), origin);
        if i < front.len() {
            lemma_tagged_all_origin(batches.drop_last(), origin, i);
        }
    }
}

} // verus!
