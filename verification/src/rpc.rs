//! The requests and replies of a node controller's HTTP interface, and the
//! controller requests they become.
use vstd::prelude::*;
use crate::chaos::Probability;
use crate::node::ChaosMsg;

verus! {

/// Compile a library on the node; `args` is JSON text.
#[derive(Debug, Clone)]
pub struct CompilationArgs {
    pub lib_name: String,
    pub args: String,
}

/// Start an actor of `operator_name` from `lib_name`; `payload` is JSON text.
#[derive(Debug, Clone)]
pub struct SpawnArgs {
    pub actor_name: String,
    pub operator_name: String,
    pub lib_name: String,
    pub payload: String,
}

/// Where a started actor can be reached.
#[derive(Debug, Clone)]
pub struct RemoteActorInfo {
    pub name: String,
    pub hostname: String,
    pub port: u16,
}

#[derive(Debug)]
pub struct MsgLossRequest {
    pub actor_name: String,
    pub probability: Probability,
}

#[derive(Debug)]
pub struct MsgDuplicationRequest {
    pub actor_name: String,
    pub factor: u32,
    pub probability: Probability,
}

#[derive(Debug)]
pub struct MsgDelayRequest {
    pub actor_name: String,
    pub delay_range_start: u64,
    pub delay_range_end: u64,
    pub senders: Vec<String>,
}

#[derive(Debug)]
pub struct DisableMsgDelayRequest {
    pub actor_name: String,
    pub senders: Vec<String>,
}

/// The reply to a started actor: its name and port; the host is filled in by
/// the job controller, which knows which node it asked.
pub fn spawn_reply(actor_name: String, port: u16) -> (r: RemoteActorInfo)
    ensures
        r.name == actor_name,
        r.hostname@ == Seq::<char>::empty(),
        r.port == port,
{
    RemoteActorInfo { name: actor_name, hostname: String::new(), port }
}

impl MsgLossRequest {
    pub fn into_chaos(self) -> (r: ChaosMsg)
        ensures
            r == (ChaosMsg::MsgLoss { actor_name: self.actor_name, probability: self.probability }),
    {
        ChaosMsg::MsgLoss { actor_name: self.actor_name, probability: self.probability }
    }
}

impl MsgDuplicationRequest {
    pub fn into_chaos(self) -> (r: ChaosMsg)
        ensures
            r == (ChaosMsg::MsgDuplication {
                actor_name: self.actor_name,
                factor: self.factor,
                probability: self.probability,
            }),
    {
        ChaosMsg::MsgDuplication {
            actor_name: self.actor_name,
            factor: self.factor,
            probability: self.probability,
        }
    }
}

impl MsgDelayRequest {
    /// The delay range runs from `delay_range_start` to `delay_range_end`.
    pub fn into_chaos(self) -> (r: ChaosMsg)
        ensures
            r == (ChaosMsg::MsgDelay {
                actor_name: self.actor_name,
                delay_range_ms: (self.delay_range_start, self.delay_range_end),
                senders: self.senders,
            }),
    {
        ChaosMsg::MsgDelay {
            actor_name: self.actor_name,
            delay_range_ms: (self.delay_range_start, self.delay_range_end),
            senders: self.senders,
        }
    }
}

impl DisableMsgDelayRequest {
    pub fn into_chaos(self) -> (r: ChaosMsg)
        ensures
            r == (ChaosMsg::DisableMsgDelay { actor_name: self.actor_name, senders: self.senders }),
    {
        ChaosMsg::DisableMsgDelay { actor_name: self.actor_name, senders: self.senders }
    }
}

/// Turning off message loss for an actor.
pub fn unset_msg_loss(actor_name: String) -> (r: ChaosMsg)
    ensures
        r == (ChaosMsg::DisableMsgLoss { actor_name }),
{
    ChaosMsg::DisableMsgLoss { actor_name }
}

/// Turning off message duplication for an actor.
pub fn unset_msg_duplication(actor_name: String) -> (r: ChaosMsg)
    ensures
        r == (ChaosMsg::DisableMsgDuplication { actor_name }),
{
    ChaosMsg::DisableMsgDuplication { actor_name }
}

} // verus!
