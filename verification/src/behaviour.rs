//! The settings of an actor's behaviour, chosen through its builder.
use vstd::prelude::*;
use crate::message::SendErrAction;

verus! {

/// How an actor is run: the number of priority lanes of its input channel,
/// whether senders ask receivers to adapt to their message type, and what to
/// do when a send fails.
#[derive(Debug, Clone, Copy, PartialEq, Eq, Structural)]
pub struct BehaviourConfig {
    pub num_prios: u8,
    pub ask_receiver_to_adapt: bool,
    pub on_send_failure: SendErrAction,
}

impl BehaviourConfig {
    /// One lane, no adaptation, and failed sends retried 5 times, 100 ms apart.
    pub fn new() -> (r: Self)
        ensures
            r == (BehaviourConfig {
                num_prios: 1,
                ask_receiver_to_adapt: false,
                on_send_failure: SendErrAction::Retry { attempts: Some(5), delay_ms: 100 },
            }),
    {
        BehaviourConfig {
            num_prios: 1,
            ask_receiver_to_adapt: false,
            on_send_failure: SendErrAction::Retry { attempts: Some(5), delay_ms: 100 },
        }
    }

    pub fn num_prios(self, num: u8) -> (r: Self)
        ensures
            r == (BehaviourConfig { num_prios: num, ..self }),
    {
        BehaviourConfig { num_prios: num, ..self }
    }

    pub fn ask_receiver_to_adapt(self) -> (r: Self)
        ensures
            r == (BehaviourConfig { ask_receiver_to_adapt: true, ..self }),
    {
        BehaviourConfig { ask_receiver_to_adapt: true, ..self }
    }

    pub fn on_send_failure(self, action: SendErrAction) -> (r: Self)
        ensures
            r == (BehaviourConfig { on_send_failure: action, ..self }),
    {
        BehaviourConfig { on_send_failure: action, ..self }
    }
}

/// Command line of the generic node controller.
#[derive(Debug, Clone)]
pub struct Cli {
    /// Port to run the reactor node on.
    pub port: u16,
    /// Directory of the operator libraries.
    pub dir: String,
}

} // verus!
