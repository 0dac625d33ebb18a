//! Messages exchanged between actors and between the stages of one actor, and
//! the routing decision taken before an output message is sent.
use vstd::prelude::*;
use crate::priority::{HasPriority, MAX_PRIO};

verus! {

/// Messages that can flow between the actors.
pub trait Msg: HasPriority + Clone + core::fmt::Debug + Send + Sync + 'static {}

/// A message without content.
#[derive(Debug, Clone, Copy)]
pub struct EmptyMsg;

impl HasPriority for EmptyMsg {}

impl Msg for EmptyMsg {}

/// Where an output message goes.
///
/// - `Blackhole`: nowhere; the message is dropped.
/// - `Reply`: back to the actor the input came from.
/// - `Single`: to one actor, by address.
/// - `Multiple`: to each of several actors, in the given order.
#[derive(Debug, Clone)]
pub enum RouteTo {
    Blackhole,
    Reply,
    Single(String),
    Multiple(Vec<String>),
}

impl From<String> for RouteTo {
    fn from(value: String) -> (r: Self)
        ensures
            r == RouteTo::Single(value),
    {
        RouteTo::Single(value)
    }
}

impl vstd::std_specs::convert::FromSpecImpl<String> for RouteTo {
    open spec fn obeys_from_spec() -> bool {
        true
    }

    open spec fn from_spec(v: String) -> Self {
        RouteTo::Single(v)
    }
}

impl From<Vec<String>> for RouteTo {
    fn from(value: Vec<String>) -> (r: Self)
        ensures
            r == RouteTo::Multiple(value),
    {
        RouteTo::Multiple(value)
    }
}

impl vstd::std_specs::convert::FromSpecImpl<Vec<String>> for RouteTo {
    open spec fn obeys_from_spec() -> bool {
        true
    }

    open spec fn from_spec(v: Vec<String>) -> Self {
        RouteTo::Multiple(v)
    }
}

/// The addresses of a list of owned strings.
pub open spec fn addr_seq(v: Seq<String>) -> Seq<Seq<char>> {
    v.map_values(|s: String| s@)
}

impl RouteTo {
    /// A route to the single actor at `addr`.
    pub fn single(addr: &str) -> (r: Self)
        ensures
            r matches RouteTo::Single(s) && s@ == addr@,
    {
        RouteTo::Single(String::from_str(addr))
    }

    /// A route to each actor of `addrs`, in that order (the addresses are
    /// copied).
    pub fn multiple(addrs: &[String]) -> (r: Self)
        ensures
            r matches RouteTo::Multiple(v) && addr_seq(v@) == addr_seq(addrs@),
    {
        let mut v: Vec<String> = Vec::new();
        let mut i: usize = 0;
        while i < addrs.len()
            invariant
                i <= addrs@.len(),
                addr_seq(v@) =~= addr_seq(addrs@.take(i as int)),
            decreases addrs@.len() - i,
        {
            let ghost before = v@;
            v.push(addrs[i].clone());
            assert(addrs@.take(i + 1) =~= addrs@.take(i as int).push(addrs@[i as int]));
            assert(addr_seq(v@) =~= addr_seq(before).push(addrs@[i as int]@));
            assert(addr_seq(addrs@.take(i + 1)) =~= addr_seq(addrs@.take(i as int)).push(
                addrs@[i as int]@,
            ));
            i = i + 1;
        }
        assert(addrs@.take(addrs@.len() as int) =~= addrs@);
        RouteTo::Multiple(v)
    }

    /// The addresses, in sending order, that a message answering an input
    /// from `origin` is delivered to.
    pub open spec fn spec_targets(&self, origin: Seq<char>) -> Seq<Seq<char>> {
        match self {
            RouteTo::Blackhole => Seq::empty(),
            RouteTo::Reply => seq![origin],
            RouteTo::Single(a) => seq![a@],
            RouteTo::Multiple(v) => addr_seq(v@),
        }
    }

    /// Resolves the route into the list of receiving addresses.
    pub fn targets(&self, origin: &str) -> (r: Vec<String>)
        ensures
            addr_seq(r@) == self.spec_targets(origin@),
    {
        match self {
            RouteTo::Blackhole => Vec::new(),
            RouteTo::Reply => {
                let mut v: Vec<String> = Vec::new();
                v.push(String::from_str(origin));
                assert(addr_seq(v@) =~= seq![origin@]);
                v
            },
            RouteTo::Single(a) => {
                let mut v: Vec<String> = Vec::new();
                v.push(a.clone());
                assert(addr_seq(v@) =~= seq![a@]);
                v
            },
            RouteTo::Multiple(addrs) => {
                let mut v: Vec<String> = Vec::new();
                let mut i: usize = 0;
                while i < addrs.len()
                    invariant
                        i <= addrs.len(),
                        addr_seq(v@) =~= addr_seq(addrs@.take(i as int)),
                    decreases addrs.len() - i,
                {
                    let ghost before = v@;
                    v.push(addrs[i].clone());
                    assert(addrs@.take(i + 1) =~= addrs@.take(i as int).push(addrs@[i as int]));
                    assert(addr_seq(v@) =~= addr_seq(before).push(addrs@[i as int]@));
                    assert(addr_seq(addrs@.take(i + 1)) =~= addr_seq(addrs@.take(i as int)).push(
                        addrs@[i as int]@,
                    ));
                    i = i + 1;
                }
                assert(addrs@.take(addrs.len() as int) =~= addrs@);
                v
            },
        }
    }
}

/// What to do with a message just received and decoded from a channel.
///
/// - `PASS`: hand it on to the processor.
/// - `PANIC`: fail fast on unexpected input.
/// - `DROP`: discard it.
/// - `SYNC(n)`: synchronise on round `n`.
/// - `CLOSE`: close the channel; nothing more is read from it.
#[derive(Debug, Clone, Copy, PartialEq, Eq, Structural)]
pub enum ChannelAction {
    PASS,
    PANIC,
    DROP,
    SYNC(u16),
    CLOSE,
}

/// What to do when a message cannot be sent: drop it, or retry up to
/// `attempts` times (forever with `None`) waiting `delay_ms` in between.
#[derive(Debug, Clone, Copy, PartialEq, Eq, Structural)]
pub enum SendErrAction {
    Drop,
    Retry { attempts: Option<u16>, delay_ms: u64 },
}

/// What a sender does after an attempt to send a message failed.
#[derive(Debug, Clone, Copy, PartialEq, Eq, Structural)]
pub enum SendFailureStep {
    /// Wait `delay_ms` milliseconds, then send the message again.
    Retry { delay_ms: u64 },
    /// Give the message up.
    GiveUp,
}

/// The step after a failed send, `retries_done` retries of the message having
/// been made already.
pub open spec fn spec_after_send_failure(action: SendErrAction, retries_done: u16) -> SendFailureStep {
    match action {
        SendErrAction::Drop => SendFailureStep::GiveUp,
        SendErrAction::Retry { attempts: None, delay_ms } => SendFailureStep::Retry { delay_ms },
        SendErrAction::Retry { attempts: Some(a), delay_ms } => if retries_done < a {
            SendFailureStep::Retry { delay_ms }
        } else {
            SendFailureStep::GiveUp
        },
    }
}

/// Decides what to do after a failed send: `Drop` gives the message up at
/// once; `Retry` sends it again after its delay, forever with no limit, else
/// until `attempts` retries were made.
pub fn after_send_failure(action: SendErrAction, retries_done: u16) -> (r: SendFailureStep)
    ensures
        r == spec_after_send_failure(action, retries_done),
{
    match action {
        SendErrAction::Drop => SendFailureStep::GiveUp,
        SendErrAction::Retry { attempts: None, delay_ms } => SendFailureStep::Retry { delay_ms },
        SendErrAction::Retry { attempts: Some(a), delay_ms } => if retries_done < a {
            SendFailureStep::Retry { delay_ms }
        } else {
            SendFailureStep::GiveUp
        },
    }
}


/// Messages from the receiving stage of an actor to its processing stage.
/// `R` is the receiving end of a new priority lane.
pub enum R2PMsg<T, R> {
    /// A message, with the address of the actor it came from (empty for
    /// messages made by the actor's own generators).
    Msg(T, &'static str),
    Exit,
    AddPrio(R),
    RemoveLowPrio,
    SetMsgDuplication { factor: u32, probability: crate::chaos::Probability },
    SetMsgLoss { probability: crate::chaos::Probability },
    UnsetMsgLoss,
    UnsetMsgDuplication,
}

impl<T: HasPriority, R> HasPriority for R2PMsg<T, R> {
    /// Control messages are always the most urgent.
    fn priority(&self) -> (p: usize)
        ensures
            !(self is Msg) ==> p == MAX_PRIO,
            *self matches R2PMsg::Msg(t, _) ==> crate::priority::has_priority(t, p),
    {
        match self {
            R2PMsg::Msg(t, _) => t.priority(),
            _ => MAX_PRIO,
        }
    }
}

/// Every control message (anything but `Msg`) reports the most urgent
/// priority, so it travels on lane 0.
pub proof fn law_control_most_urgent<U: HasPriority, R>(m: R2PMsg<U, R>, p: usize)
    requires
        !(m is Msg),
        crate::priority::has_priority(m, p),
    ensures
        p == MAX_PRIO,
{
}

} // verus!

verus! {

/// A failed send is given up at once under `Drop`, retried after the
/// configured delay every time under an unlimited `Retry`, and under a
/// `Retry` limited to `a` attempts retried exactly while fewer than `a`
/// retries were made: a message that keeps failing is sent `a + 1` times.
pub proof fn law_send_failure_retries(action: SendErrAction, retries_done: u16)
    ensures
        action is Drop ==> spec_after_send_failure(action, retries_done) == SendFailureStep::GiveUp,
        action matches SendErrAction::Retry { attempts: None, delay_ms } ==> spec_after_send_failure(
            action,
            retries_done,
        ) == (SendFailureStep::Retry { delay_ms }),
        action matches SendErrAction::Retry { attempts: Some(a), delay_ms } ==> {
            &&& retries_done < a ==> spec_after_send_failure(action, retries_done) == (
            SendFailureStep::Retry { delay_ms })
            &&& retries_done >= a ==> spec_after_send_failure(action, retries_done)
                == SendFailureStep::GiveUp
        },
{
}

} // verus!
