//! Decisions of the receiving stage of an actor: what a controller
//! instruction starts or forwards, which decoder reads a connection, and what
//! happens to a message once the actor's receive hook has looked at it.
use vstd::prelude::*;
use crate::chaos::Probability;
use crate::message::{ChannelAction, R2PMsg};
use crate::addr_map::AddrMap;

verus! {

/// Instructions that the node controller sends to one of its actors. `L` is
/// the receiving end of a local channel from another actor.
pub enum ControlInst<L> {
    StartLocalRecv(L),
    StartTcpRecv(u16),
    Stop,
    SetMsgLoss { probability: Probability },
    SetMsgDuplication { factor: u32, probability: Probability },
    SetMsgDelay { delay_range_ms: (u64, u64), senders: Vec<String> },
    UnsetMsgLoss,
    UnsetMsgDuplication,
    UnsetMsgDelay { senders: Vec<String> },
}

/// What the receiving stage does with one controller instruction.
pub enum RxAction<L, T, R> {
    /// Listen for remote actors on this port.
    StartTcpRecv(u16),
    /// Read messages from a local actor on this channel.
    StartLocalRecv(L),
    /// Pass this message on to the processing stage.
    Forward(R2PMsg<T, R>),
    /// Close every receiver, tell the processing stage to exit, and stop.
    Stop,
    /// Delay the messages from these senders by a time in the range.
    SetDelay { delay_range_ms: (u64, u64), senders: Vec<String> },
    /// Stop delaying the messages from these senders.
    UnsetDelay { senders: Vec<String> },
}

/// The receiving stage's answer to each instruction. Loss and duplication
/// settings are passed on to the processing stage, which applies them;
/// message delays are applied by the receiving stage itself.
pub open spec fn spec_rx_action<L, T, R>(inst: ControlInst<L>) -> RxAction<L, T, R> {
    match inst {
        ControlInst::StartLocalRecv(l) => RxAction::StartLocalRecv(l),
        ControlInst::StartTcpRecv(p) => RxAction::StartTcpRecv(p),
        ControlInst::Stop => RxAction::Stop,
        ControlInst::SetMsgLoss { probability } => RxAction::Forward(
            R2PMsg::SetMsgLoss { probability },
        ),
        ControlInst::SetMsgDuplication { factor, probability } => RxAction::Forward(
            R2PMsg::SetMsgDuplication { factor, probability },
        ),
        ControlInst::UnsetMsgLoss => RxAction::Forward(R2PMsg::UnsetMsgLoss),
        ControlInst::UnsetMsgDuplication => RxAction::Forward(R2PMsg::UnsetMsgDuplication),
        ControlInst::SetMsgDelay { delay_range_ms, senders } => RxAction::SetDelay {
            delay_range_ms,
            senders,
        },
        ControlInst::UnsetMsgDelay { senders } => RxAction::UnsetDelay { senders },
    }
}

/// The instruction that an action of the receiving stage carries out: each
/// action names its instruction, and a forwarded chaos setting is the
/// instruction of the same kind with the same values.
pub open spec fn spec_instruction_of<L, T, R>(a: RxAction<L, T, R>) -> Option<ControlInst<L>> {
    match a {
        RxAction::StartTcpRecv(p) => Some(ControlInst::StartTcpRecv(p)),
        RxAction::StartLocalRecv(l) => Some(ControlInst::StartLocalRecv(l)),
        RxAction::Stop => Some(ControlInst::Stop),
        RxAction::SetDelay { delay_range_ms, senders } => Some(
            ControlInst::SetMsgDelay { delay_range_ms, senders },
        ),
        RxAction::UnsetDelay { senders } => Some(ControlInst::UnsetMsgDelay { senders }),
        RxAction::Forward(m) => match m {
            R2PMsg::SetMsgLoss { probability } => Some(ControlInst::SetMsgLoss { probability }),
            R2PMsg::SetMsgDuplication { factor, probability } => Some(
                ControlInst::SetMsgDuplication { factor, probability },
            ),
            R2PMsg::UnsetMsgLoss => Some(ControlInst::UnsetMsgLoss),
            R2PMsg::UnsetMsgDuplication => Some(ControlInst::UnsetMsgDuplication),
            _ => None,
        },
    }
}

/// The receiving stage carries out exactly the instruction it was given: its
/// action, read back, is that instruction, so every loss or duplication
/// setting reaches the processing stage as the control message of the same
/// kind with the same values, and every other instruction keeps its kind and
/// values too.
pub proof fn law_rx_action_keeps_the_instruction<L, T, R>(inst: ControlInst<L>)
    ensures
        spec_instruction_of(spec_rx_action::<L, T, R>(inst)) == Some(inst),
        spec_rx_action::<L, T, R>(inst) is Forward <==> (inst is SetMsgLoss || inst is SetMsgDuplication
            || inst is UnsetMsgLoss || inst is UnsetMsgDuplication),
{
}

pub fn rx_action<L, T, R>(inst: ControlInst<L>) -> (r: RxAction<L, T, R>)
    ensures
        r == spec_rx_action::<L, T, R>(inst),
{
    match inst {
        ControlInst::StartLocalRecv(l) => RxAction::StartLocalRecv(l),
        ControlInst::StartTcpRecv(p) => RxAction::StartTcpRecv(p),
        ControlInst::Stop => RxAction::Stop,
        ControlInst::SetMsgLoss { probability } => RxAction::Forward(
            R2PMsg::SetMsgLoss { probability },
        ),
        ControlInst::SetMsgDuplication { factor, probability } => RxAction::Forward(
            R2PMsg::SetMsgDuplication { factor, probability },
        ),
        ControlInst::UnsetMsgLoss => RxAction::Forward(R2PMsg::UnsetMsgLoss),
        ControlInst::UnsetMsgDuplication => RxAction::Forward(R2PMsg::UnsetMsgDuplication),
        ControlInst::SetMsgDelay { delay_range_ms, senders } => RxAction::SetDelay {
            delay_range_ms,
            senders,
        },
        ControlInst::UnsetMsgDelay { senders } => RxAction::UnsetDelay { senders },
    }
}

/// The senders' addresses, as character sequences.
pub open spec fn sender_set(senders: Seq<String>) -> Set<Seq<char>> {
    Set::new(|a: Seq<char>| exists|i: int| 0 <= i < senders.len() && (#[trigger] senders[i])@ == a)
}

/// The delays after setting `range` for each of `senders`.
pub open spec fn spec_set_delays(
    m: Map<Seq<char>, (u64, u64)>,
    senders: Seq<String>,
    range: (u64, u64),
) -> Map<Seq<char>, (u64, u64)> {
    Map::new(
        |a: Seq<char>| m.dom().contains(a) || sender_set(senders).contains(a),
        |a: Seq<char>| if sender_set(senders).contains(a) {
            range
        } else {
            m[a]
        },
    )
}

/// Delaying some senders and then no longer delaying them leaves every other
/// sender's delay as it was, and those senders undelayed.
pub proof fn law_unset_delay_after_set(
    m: Map<Seq<char>, (u64, u64)>,
    senders: Seq<String>,
    range: (u64, u64),
)
    ensures
        spec_set_delays(m, senders, range).remove_keys(sender_set(senders)) == m.remove_keys(
            sender_set(senders),
        ),
{
    assert(spec_set_delays(m, senders, range).remove_keys(sender_set(senders)) =~= m.remove_keys(
        sender_set(senders),
    ));
}

/// The delay ranges, in milliseconds, of the senders whose messages are
/// delayed.
pub struct DelayTable {
    delays: AddrMap<(u64, u64)>,
}

impl DelayTable {
    pub closed spec fn wf(&self) -> bool {
        self.delays.wf()
    }

    /// The delay range of each delayed sender.
    pub closed spec fn view(&self) -> Map<Seq<char>, (u64, u64)> {
        self.delays@
    }

    /// No sender is delayed.
    pub fn new() -> (r: Self)
        ensures
            r.wf(),
            r.view() == Map::<Seq<char>, (u64, u64)>::empty(),
    {
        DelayTable { delays: AddrMap::new() }
    }

    /// Delays the messages of each of `senders` by a time in `range`; the
    /// other senders keep their delays.
    pub fn set(&mut self, senders: &Vec<String>, range: (u64, u64))
        requires
            old(self).wf(),
        ensures
            final(self).wf(),
            final(self).view() == spec_set_delays(old(self).view(), senders@, range),
    {
        let mut i: usize = 0;
        while i < senders.len()
            invariant
                i <= senders@.len(),
                self.wf(),
                self.view() == spec_set_delays(old(self).view(), senders@.take(i as int), range),
            decreases senders@.len() - i,
        {
            let ghost before = self.view();
            let _ = self.delays.insert(senders[i].clone(), range);
            proof {
                let t = senders@.take(i + 1);
                assert(t[i as int] == senders@[i as int]);
                assert forall|j: int| 0 <= j < i implies senders@.take(i as int)[j] == #[trigger] t[j] by {}
                assert(sender_set(t) =~= sender_set(senders@.take(i as int)).insert(senders@[i as int]@)) by {
                    assert forall|a: Seq<char>| #[trigger] sender_set(t).contains(a) implies sender_set(
                        senders@.take(i as int),
                    ).insert(senders@[i as int]@).contains(a) by {
                        let j = choose|j: int| 0 <= j < t.len() && (#[trigger] t[j])@ == a;
                        if j < i {
                            assert(senders@.take(i as int)[j]@ == a);
                        }
                    }
                    assert forall|a: Seq<char>| #[trigger] sender_set(senders@.take(i as int)).insert(
                        senders@[i as int]@,
                    ).contains(a) implies sender_set(t).contains(a) by {
                        if a == senders@[i as int]@ {
                            assert(t[i as int]@ == a);
                        } else {
                            let j = choose|j: int|
                                0 <= j < i && (#[trigger] senders@.take(i as int)[j])@ == a;
                            assert(t[j]@ == a);
                        }
                    }
                }
                assert(self.view() =~= spec_set_delays(old(self).view(), t, range));
            }
            i = i + 1;
        }
        assert(senders@.take(senders@.len() as int) =~= senders@);
    }

    /// Stops delaying the messages of each of `senders`.
    pub fn unset(&mut self, senders: &Vec<String>)
        requires
            old(self).wf(),
        ensures
            final(self).wf(),
            final(self).view() == old(self).view().remove_keys(sender_set(senders@)),
    {
        let mut i: usize = 0;
        while i < senders.len()
            invariant
                i <= senders@.len(),
                self.wf(),
                self.view() == old(self).view().remove_keys(sender_set(senders@.take(i as int))),
            decreases senders@.len() - i,
        {
            let _ = self.delays.remove(senders[i].as_str());
            proof {
                let t = senders@.take(i + 1);
                assert(t[i as int] == senders@[i as int]);
                assert(sender_set(t) =~= sender_set(senders@.take(i as int)).insert(senders@[i as int]@)) by {
                    assert forall|a: Seq<char>| #[trigger] sender_set(t).contains(a) implies sender_set(
                        senders@.take(i as int),
                    ).insert(senders@[i as int]@).contains(a) by {
                        let j = choose|j: int| 0 <= j < t.len() && (#[trigger] t[j])@ == a;
                        if j < i {
                            assert(senders@.take(i as int)[j]@ == a);
                        }
                    }
                    assert forall|a: Seq<char>| #[trigger] sender_set(senders@.take(i as int)).insert(
                        senders@[i as int]@,
                    ).contains(a) implies sender_set(t).contains(a) by {
                        if a == senders@[i as int]@ {
                            assert(t[i as int]@ == a);
                        } else {
                            let j = choose|j: int|
                                0 <= j < i && (#[trigger] senders@.take(i as int)[j])@ == a;
                            assert(t[j]@ == a);
                        }
                    }
                }
                assert(self.view() =~= old(self).view().remove_keys(sender_set(t)));
            }
            i = i + 1;
        }
        assert(senders@.take(senders@.len() as int) =~= senders@);
    }

    /// The delay range of the messages from `sender`, if they are delayed.
    pub fn delay_for(&self, sender: &str) -> (r: Option<(u64, u64)>)
        requires
            self.wf(),
        ensures
            r == (if self.view().dom().contains(sender@) {
                Some(self.view()[sender@])
            } else {
                None
            }),
    {
        match self.delays.get(sender) {
            Some(d) => Some(*d),
            None => None,
        }
    }
}

/// The bounds of a delay range, the smaller first.
pub fn delay_window(range: (u64, u64)) -> (r: (u64, u64))
    ensures
        r.0 <= r.1,
        r == (if range.0 <= range.1 {
            range
        } else {
            (range.1, range.0)
        }),
{
    if range.0 <= range.1 {
        range
    } else {
        (range.1, range.0)
    }
}

/// Which decoder turns incoming bytes or values into the actor's messages.
#[derive(Debug, Clone, PartialEq, Eq)]
pub enum DecoderChoice {
    /// The actor's own codec.
    Master,
    /// The sub-decoder registered for the named sender message type.
    Sub(String),
}

/// The decoder for a remote connection whose handshake named `msg_type`.
/// A sender that asks to be adapted to, at an actor without sub-decoders,
/// cannot be served (`None`).
pub fn remote_decoder(has_sub_decoders: bool, msg_type: Option<String>) -> (r: Option<
    DecoderChoice,
>)
    ensures
        match msg_type {
            None => r == Some(DecoderChoice::Master),
            Some(t) => if has_sub_decoders {
                r == Some(DecoderChoice::Sub(t))
            } else {
                r is None
            },
        },
{
    match msg_type {
        None => Some(DecoderChoice::Master),
        Some(t) => if has_sub_decoders {
            Some(DecoderChoice::Sub(t))
        } else {
            None
        },
    }
}

/// The conversion for messages from a local actor whose handshake named
/// `msg_type`: the sub-decoder's when there is one to ask, otherwise a plain
/// downcast to the actor's message type.
pub fn local_decoder(has_sub_decoders: bool, msg_type: Option<String>) -> (r: DecoderChoice)
    ensures
        match msg_type {
            Some(t) if has_sub_decoders => r == DecoderChoice::Sub(t),
            _ => r == DecoderChoice::Master,
        },
{
    match msg_type {
        Some(t) => if has_sub_decoders {
            DecoderChoice::Sub(t)
        } else {
            DecoderChoice::Master
        },
        None => DecoderChoice::Master,
    }
}

/// What the receiving stage does with a decoded message.
#[derive(Debug, Clone, Copy, PartialEq, Eq, Structural)]
pub enum RecvDecision {
    /// Send it to the processing stage.
    Forward,
    /// Drop it and read the next one.
    Skip,
    /// Stop reading from this connection.
    Close,
    /// Fail: the receive hook asked to panic.
    Fail,
    /// Perform the synchronisation with the given identifier (a round or an
    /// epoch number) before going on.
    Sync(u16),
}

/// The decision for a message, given the receive hook's answer (`None` when
/// the actor has no receive hook, in which case every message goes on).
pub fn after_recv_decision(action: Option<ChannelAction>) -> (r: RecvDecision)
    ensures
        r == match action {
            None => RecvDecision::Forward,
            Some(ChannelAction::PASS) => RecvDecision::Forward,
            Some(ChannelAction::DROP) => RecvDecision::Skip,
            Some(ChannelAction::CLOSE) => RecvDecision::Close,
            Some(ChannelAction::PANIC) => RecvDecision::Fail,
            Some(ChannelAction::SYNC(id)) => RecvDecision::Sync(id),
        },
{
    match action {
        None => RecvDecision::Forward,
        Some(ChannelAction::PASS) => RecvDecision::Forward,
        Some(ChannelAction::DROP) => RecvDecision::Skip,
        Some(ChannelAction::CLOSE) => RecvDecision::Close,
        Some(ChannelAction::PANIC) => RecvDecision::Fail,
        Some(ChannelAction::SYNC(id)) => RecvDecision::Sync(id),
    }
}

} // verus!

verus! {

/// After delays are set for some senders, each of them is delayed by exactly
/// the new range, and every other sender keeps the delay it had, or stays
/// undelayed.
pub proof fn law_set_delays_per_sender(
    m: Map<Seq<char>, (u64, u64)>,
    senders: Seq<String>,
    range: (u64, u64),
    a: Seq<char>,
)
    ensures
        (exists|i: int| 0 <= i < senders.len() && (#[trigger] senders[i])@ == a) ==> spec_set_delays(
            m,
            senders,
            range,
        ).dom().contains(a) && spec_set_delays(m, senders, range)[a] == range,
        !(exists|i: int| 0 <= i < senders.len() && (#[trigger] senders[i])@ == a) ==> (spec_set_delays(
            m,
            senders,
            range,
        ).dom().contains(a) == m.dom().contains(a) && (m.dom().contains(a) ==> spec_set_delays(
            m,
            senders,
            range,
        )[a] == m[a])),
{
}

} // verus!
