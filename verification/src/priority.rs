//! Priority lanes between the receiving side of an actor and its processor.
//!
//! A priority channel is a list of bounded tokio channels, one per priority
//! lane. Lane 0 is the most urgent one: a message of priority `p` travels on
//! lane `p`, and the receiver always drains the lowest-numbered lane that has a
//! message first.
use vstd::prelude::*;
use tokio::sync::mpsc::{Receiver, Sender};

verus! {

/// The most urgent priority; control messages always travel with it.
pub const MAX_PRIO: usize = 0;

/// Anything that can be put on a priority channel reports its priority lane.
pub trait HasPriority {
    /// The lane a message travels on; by default the most urgent one.
    fn priority(&self) -> (p: usize)
        default_ensures
            p == MAX_PRIO,
    {
        MAX_PRIO
    }
}

/// `p` is a priority that `msg` may report.
pub open spec fn has_priority<T: HasPriority>(msg: T, p: usize) -> bool {
    call_ensures(T::priority, (&msg,), p)
}

#[verifier::external_type_specification]
#[verifier::external_body]
#[verifier::reject_recursive_types(T)]
pub struct ExSender<T>(Sender<T>);

#[verifier::external_type_specification]
#[verifier::external_body]
#[verifier::reject_recursive_types(T)]
pub struct ExReceiver<T>(Receiver<T>);

/// `Clone for tokio::sync::mpsc::Sender`: another handle on the same channel.
/// A sender is one shared pointer to its channel, and the clone holds the same
/// pointer (only the count of senders inside the channel goes up), so the
/// clone equals the original.
pub assume_specification<T>[ <Sender<T> as Clone>::clone ](s: &Sender<T>) -> (r: Sender<T>)
    ensures
        r == *s,
;

/// The message could not be delivered; it is handed back.
pub struct SendError<T>(pub T);

/// Why a non-blocking receive found nothing.
#[derive(Debug, PartialEq, Eq, Structural, Clone, Copy)]
pub enum RecvError {
    /// Some lane may still deliver a message later.
    Empty,
    /// Every lane has lost all of its senders.
    Disconnected,
}

/// What one lane answered to a non-blocking receive.
pub enum LaneRecv<T> {
    Msg(T),
    Empty,
    Disconnected,
}

/// One step of polling the lanes: go on with lane `lane`, having counted
/// `disconnected` lanes without senders so far, or stop with the result.
pub enum PollStep<T> {
    Next { lane: usize, disconnected: usize },
    Done(Result<T, RecvError>),
}

/// The step after lane `i` of `n` answered, `disconnected` lanes before it
/// having lost their senders.
pub open spec fn spec_poll_step<T>(disconnected: usize, i: usize, n: usize, answer: LaneRecv<T>) -> PollStep<T> {
    match answer {
        LaneRecv::Msg(m) => PollStep::Done(Ok(m)),
        LaneRecv::Empty => if i + 1 == n {
            PollStep::Done(Err(RecvError::Empty))
        } else {
            PollStep::Next { lane: (i + 1) as usize, disconnected }
        },
        LaneRecv::Disconnected => if i + 1 == n {
            PollStep::Done(
                Err(
                    if disconnected + 1 == n {
                        RecvError::Disconnected
                    } else {
                        RecvError::Empty
                    },
                ),
            )
        } else {
            PollStep::Next { lane: (i + 1) as usize, disconnected: (disconnected + 1) as usize }
        },
    }
}

/// Decides on the answer of lane `i` of `n`: a message is the result; after
/// the last lane, no message gives `Disconnected` when every lane lost its
/// senders and `Empty` otherwise; else the poll goes on with lane `i + 1`.
pub fn poll_step<T>(disconnected: usize, i: usize, n: usize, answer: LaneRecv<T>) -> (r: PollStep<T>)
    requires
        disconnected <= i < n,
    ensures
        r == spec_poll_step(disconnected, i, n, answer),
{
    match answer {
        LaneRecv::Msg(m) => PollStep::Done(Ok(m)),
        LaneRecv::Empty => if i + 1 == n {
            PollStep::Done(Err(RecvError::Empty))
        } else {
            PollStep::Next { lane: i + 1, disconnected }
        },
        LaneRecv::Disconnected => if i + 1 == n {
            PollStep::Done(
                Err(
                    if disconnected + 1 == n {
                        RecvError::Disconnected
                    } else {
                        RecvError::Empty
                    },
                ),
            )
        } else {
            PollStep::Next { lane: i + 1, disconnected: disconnected + 1 }
        },
    }
}

/// A non-blocking receive over the lanes `before`, whose polls are `polls`
/// (each the lane polled and its answer), left the lanes as `after` with
/// result `r`: the lanes were polled in order, most urgent first, each once;
/// a message is the one of the first lane that had one; with no message every
/// lane was polled, and the result is `Disconnected` exactly when every lane
/// lost its senders. The lanes after the last one polled are untouched.
pub open spec fn polled_lanes<X, T>(
    before: Seq<X>,
    after: Seq<X>,
    polls: Seq<(int, LaneRecv<T>)>,
    r: Result<T, RecvError>,
) -> bool {
    &&& after.len() == before.len()
    &&& polls.len() <= before.len()
    &&& forall|j: int| 0 <= j < polls.len() ==> (#[trigger] polls[j]).0 == j
    &&& forall|j: int| polls.len() <= j < before.len() ==> after[j] == before[j]
    &&& match r {
        Ok(m) => {
            &&& polls.len() >= 1
            &&& polls.last().1 == LaneRecv::Msg(m)
            &&& forall|j: int| 0 <= j < polls.len() - 1 ==> !((#[trigger] polls[j]).1 is Msg)
        },
        Err(e) => {
            &&& polls.len() == before.len()
            &&& forall|j: int| 0 <= j < polls.len() ==> !((#[trigger] polls[j]).1 is Msg)
            &&& (e == RecvError::Disconnected) == (forall|j: int|
                0 <= j < polls.len() ==> (#[trigger] polls[j]).1 is Disconnected)
        },
    }
}

/// The largest buffer that a tokio bounded channel accepts.
pub open spec fn max_channel_buffer() -> nat {
    (usize::MAX as nat) / 8
}

/// `tokio::sync::mpsc::channel`: creates a bounded channel holding at most
/// `buffer` messages. The call panics on a buffer of 0 or one above
/// `Semaphore::MAX_PERMITS` (`usize::MAX >> 3`), which `requires` leaves out.
/// Nothing is claimed of the fresh pair beyond its existence.
#[verifier::external_body]
fn new_lane<T>(buffer: usize) -> (Sender<T>, Receiver<T>)
    requires
        0 < buffer <= max_channel_buffer(),
{
    tokio::sync::mpsc::channel(buffer)
}

/// `tokio::sync::mpsc::Receiver::try_recv` on lane `i` of `rx`. What the lane
/// answers depends on what other tasks sent, so the answer is not stated. The
/// poll is recorded in the receiver's poll log, a ghost record, with the lane
/// and the answer; the lane count is kept and every other lane is untouched.
#[verifier::external_body]
fn lane_try_recv<T>(rx: &mut PriorityChannelRx<T>, i: usize) -> (r: LaneRecv<T>)
    requires
        i < old(rx).lanes(),
    ensures
        final(rx).lanes() == old(rx).lanes(),
        forall|j: int|
            0 <= j < old(rx).lanes() && j != i ==> final(rx).lane_seq()[j] == old(rx).lane_seq()[j],
        final(rx).poll_log() == old(rx).poll_log().push((i as int, r)),
{
    match rx.receivers[i].try_recv() {
        Ok(m) => LaneRecv::Msg(m),
        Err(tokio::sync::mpsc::error::TryRecvError::Empty) => LaneRecv::Empty,
        Err(tokio::sync::mpsc::error::TryRecvError::Disconnected) => LaneRecv::Disconnected,
    }
}

/// The lane that a message of priority `prio` travels on, among `lanes` lanes.
pub open spec fn spec_lane_for(prio: usize, lanes: nat) -> Option<usize> {
    if (prio as nat) < lanes {
        Some(prio)
    } else {
        None
    }
}

/// The lane count as a priority channel reports it: truncated to a byte.
pub open spec fn spec_prio_count(lanes: nat) -> u8 {
    (lanes % 256) as u8
}

/// The lanes left when the least urgent one is dropped.
pub open spec fn spec_drop_lane<X>(s: Seq<X>) -> Seq<X> {
    if s.len() == 0 {
        s
    } else {
        s.drop_last()
    }
}

/// Dropping the least urgent lane leaves a lane count that reads 1.
pub open spec fn spec_collapses<X>(s: Seq<X>) -> bool {
    spec_prio_count(spec_drop_lane(s).len()) == 1
}

/// The lanes a reactor channel keeps of `s`: when the lane count reads 1
/// (it is kept in a byte), only the last lane.
pub open spec fn spec_settled<X>(s: Seq<X>) -> Seq<X> {
    if spec_prio_count(s.len()) == 1 {
        seq![s.last()]
    } else {
        s
    }
}

/// The lanes of a reactor channel after it drops its least urgent lane: when
/// the count then reads 1, only the last remaining lane is kept.
pub open spec fn spec_lanes_after_remove<X>(s: Seq<X>) -> Seq<X> {
    spec_settled(spec_drop_lane(s))
}

/// Adding a lane and then removing one gives back the lanes one started with,
/// on either side of a reactor channel, unless the count of lanes one started
/// with reads 1 in a byte without being 1 (257, 513, ...): the count is kept
/// in a byte, and there the channel collapses to its last lane.
pub proof fn law_add_then_remove_prio<X>(s: Seq<X>, new_lane: X)
    requires
        s.len() == 1 || s.len() % 256 != 1,
    ensures
        spec_lanes_after_remove(s.push(new_lane)) == s,
{
    assert(s.push(new_lane).drop_last() =~= s);
    if s.len() == 1 {
        assert(seq![s.last()] =~= s);
    }
}

/// A message of priority `p` travels on lane `p` of a priority channel that
/// has that lane and on no lane of one that does not; on a single channel it
/// travels on the only lane, whatever its priority.
pub proof fn law_lane_is_priority<T>(tx: &ReactorChannelTx<T>, p: usize)
    ensures
        tx is SingleChannel ==> spec_reactor_lane(tx, p) == Some(0usize),
        tx is MultiChannel ==> (spec_reactor_lane(tx, p) == Some(p) <==> (p as nat) < tx.lanes()),
        tx is MultiChannel ==> (spec_reactor_lane(tx, p) is None <==> (p as nat) >= tx.lanes()),
{
}

/// Sending half of a priority channel.
#[verifier::reject_recursive_types(T)]
pub struct PriorityChannelTx<T> {
    senders: Vec<Sender<T>>,
}

/// Receiving half of a priority channel.
#[verifier::reject_recursive_types(T)]
pub struct PriorityChannelRx<T> {
    receivers: Vec<Receiver<T>>,
    /// Every poll of a lane so far: the lane and what it answered.
    polls: Ghost<Seq<(int, LaneRecv<T>)>>,
}

/// Another sender on the same lanes; the messages need not be `Clone`.
impl<T> Clone for PriorityChannelTx<T> {
    fn clone(&self) -> (r: Self)
        ensures
            r.sender_seq() == self.sender_seq(),
    {
        let mut senders: Vec<Sender<T>> = Vec::new();
        let mut i: usize = 0;
        while i < self.senders.len()
            invariant
                i <= self.senders@.len(),
                senders@ == self.senders@.take(i as int),
            decreases self.senders@.len() - i,
        {
            senders.push(self.senders[i].clone());
            i = i + 1;
            assert(senders@ =~= self.senders@.take(i as int));
        }
        assert(self.senders@.take(self.senders@.len() as int) =~= self.senders@);
        PriorityChannelTx { senders }
    }
}

impl<T> PriorityChannelTx<T> {
    /// The senders, most urgent lane first.
    pub closed spec fn sender_seq(&self) -> Seq<Sender<T>> {
        self.senders@
    }

    /// Number of lanes this sender feeds.
    pub open spec fn lanes(&self) -> nat {
        self.sender_seq().len()
    }

    /// The lane on which a message of priority `prio` must be sent, if any.
    pub fn lane_for(&self, prio: usize) -> (r: Option<usize>)
        ensures
            r == spec_lane_for(prio, self.lanes()),
    {
        if prio < self.senders.len() {
            Some(prio)
        } else {
            None
        }
    }

    /// Drops the least urgent lane.
    pub fn remove_prio(&mut self)
        ensures
            final(self).sender_seq() == spec_drop_lane(old(self).sender_seq()),
    {
        let _ = self.senders.pop();
    }

    /// Number of lanes, truncated to a byte.
    pub fn curr_prios(&self) -> (r: u8)
        ensures
            r == spec_prio_count(self.lanes()),
    {
        let n = self.senders.len();
        proof {
            assert((n as u8) == ((n as nat) % 256) as u8) by (bit_vector);
        }
        #[verifier::truncate]
        (n as u8)
    }

    /// The sender of lane `i`.
    pub fn lane_sender(&self, i: usize) -> (r: &Sender<T>)
        requires
            i < self.lanes(),
        ensures
            *r == self.sender_seq()[i as int],
    {
        &self.senders[i]
    }

    /// The reactor sender over these lanes: a single channel over the last
    /// lane when the lane count reads 1 (it is kept in a byte), a priority
    /// channel otherwise.
    pub fn into_reactor(self) -> (r: ReactorChannelTx<T>)
        ensures
            (r is SingleChannel) == (spec_prio_count(self.lanes()) == 1),
            r.sender_seq() == spec_settled(self.sender_seq()),
    {
        let mut p = self;
        if p.curr_prios() == 1 {
            let last = p.senders.pop().unwrap();
            ReactorChannelTx::SingleChannel(last)
        } else {
            ReactorChannelTx::MultiChannel(p)
        }
    }
}

impl<T: HasPriority> PriorityChannelTx<T> {
    /// The lane that `msg` is sent on: the one named by its priority, if this
    /// sender has it. The caller sends on [`PriorityChannelTx::lane_sender`]
    /// of that lane; without a lane the message is handed back.
    pub fn lane_of(&self, msg: &T) -> (r: Option<usize>)
        ensures
            exists|p: usize| has_priority(*msg, p) && r == spec_lane_for(p, self.lanes()),
            r matches Some(i) ==> i < self.lanes(),
    {
        let idx = msg.priority();
        assert(has_priority(*msg, idx));
        self.lane_for(idx)
    }
}

impl<T> PriorityChannelRx<T> {
    /// Number of lanes this receiver drains.
    pub open spec fn lanes(&self) -> nat {
        self.lane_seq().len()
    }

    /// The receivers, most urgent first.
    pub closed spec fn lane_seq(&self) -> Seq<Receiver<T>> {
        self.receivers@
    }

    /// Every poll of a lane so far, oldest first: the lane and its answer.
    pub closed spec fn poll_log(&self) -> Seq<(int, LaneRecv<T>)> {
        self.polls@
    }

    /// Takes a message from the most urgent lane that has one, without waiting.
    /// The lanes are polled in order, most urgent first, each once, and
    /// [`poll_step`] decides after each answer: the first message ends the
    /// poll; with no message the answer is `Disconnected` when every lane
    /// reported a lost sender (so always with no lane at all) and `Empty`
    /// otherwise. The polls made are appended to the poll log; what each lane
    /// answers depends on the other tasks.
    pub fn try_recv(&mut self) -> (r: Result<T, RecvError>)
        ensures
            final(self).lanes() == old(self).lanes(),
            old(self).lanes() == 0 ==> r == Err::<T, RecvError>(RecvError::Disconnected),
            final(self).poll_log().len() >= old(self).poll_log().len(),
            final(self).poll_log().take(old(self).poll_log().len() as int) == old(self).poll_log(),
            polled_lanes(
                old(self).lane_seq(),
                final(self).lane_seq(),
                final(self).poll_log().skip(old(self).poll_log().len() as int),
                r,
            ),
    {
        let n = self.receivers.len();
        let ghost start = self.receivers@;
        let ghost log0 = self.polls@;
        if n == 0 {
            let r = Err(RecvError::Disconnected);
            assert(self.polls@.skip(log0.len() as int) =~= Seq::<(int, LaneRecv<T>)>::empty());
            assert(self.polls@.take(log0.len() as int) =~= log0);
            return r;
        }
        let mut disconnected: usize = 0;
        let mut i: usize = 0;
        let ghost mut polls: Seq<(int, LaneRecv<T>)> = Seq::empty();
        loop
            invariant
                0 < n,
                i < n,
                n == self.receivers@.len(),
                start == old(self).receivers@,
                log0 == old(self).polls@,
                start.len() == n,
                self.polls@ == log0 + polls,
                polls.len() == i,
                disconnected <= i,
                forall|j: int| 0 <= j < i ==> (#[trigger] polls[j]).0 == j,
                (disconnected == i) == (forall|j: int|
                    0 <= j < i ==> (#[trigger] polls[j]).1 is Disconnected),
                forall|j: int| 0 <= j < i ==> !((#[trigger] polls[j]).1 is Msg),
                forall|j: int| i <= j < n ==> self.receivers@[j] == start[j],
            decreases n - i,
        {
            let ghost before = polls;
            let answer = lane_try_recv(self, i);
            proof {
                polls = polls.push((i as int, answer));
                assert(self.polls@ =~= log0 + polls);
                assert(polls[i as int] == (i as int, answer));
                assert(forall|j: int| 0 <= j < i ==> polls[j] == before[j]);
            }
            match poll_step(disconnected, i, n, answer) {
                PollStep::Done(r) => {
                    proof {
                        assert(self.polls@.skip(log0.len() as int) =~= polls);
                        assert(self.polls@.take(log0.len() as int) =~= log0);
                        if r is Err && !(r == Err::<T, RecvError>(RecvError::Disconnected)) {
                            if answer is Disconnected {
                                let j = choose|j: int| 0 <= j < i && !(before[j].1 is Disconnected);
                                assert(!(polls[j].1 is Disconnected));
                            }
                        }
                        assert(polled_lanes(old(self).lane_seq(), self.lane_seq(), polls, r));
                    }
                    return r;
                },
                PollStep::Next { lane, disconnected: d } => {
                    disconnected = d;
                    i = lane;
                },
            }
        }
    }

    /// Appends a new least urgent lane.
    pub fn add_prio(&mut self, new_rx: Receiver<T>)
        ensures
            final(self).lane_seq() == old(self).lane_seq().push(new_rx),
    {
        self.receivers.push(new_rx);
    }

    /// Drops the least urgent lane.
    pub fn remove_prio(&mut self)
        ensures
            final(self).lane_seq() == if old(self).lanes() == 0 {
                old(self).lane_seq()
            } else {
                old(self).lane_seq().drop_last()
            },
    {
        let _ = self.receivers.pop();
    }

    /// Number of lanes, truncated to a byte.
    pub fn curr_prios(&self) -> (r: u8)
        ensures
            r == spec_prio_count(self.lanes()),
    {
        let n = self.receivers.len();
        proof {
            assert((n as u8) == ((n as nat) % 256) as u8) by (bit_vector);
        }
        #[verifier::truncate]
        (n as u8)
    }
}

/// A priority channel with `num_prios` lanes, each holding up to
/// `channel_size` messages.
pub fn priority_channel<T>(num_prios: u8, channel_size: usize) -> (r: (
    PriorityChannelTx<T>,
    PriorityChannelRx<T>,
))
    requires
        0 < channel_size <= max_channel_buffer(),
    ensures
        r.0.lanes() == num_prios,
        r.1.lanes() == num_prios,
{
    let mut senders: Vec<Sender<T>> = Vec::new();
    let mut receivers: Vec<Receiver<T>> = Vec::new();
    let mut k: u8 = 0;
    while k < num_prios
        invariant
            k <= num_prios,
            senders.len() == k,
            receivers.len() == k,
            0 < channel_size <= max_channel_buffer(),
        decreases num_prios - k,
    {
        let (tx, rx) = new_lane::<T>(channel_size);
        senders.push(tx);
        receivers.push(rx);
        k = k + 1;
    }
    (PriorityChannelTx { senders }, PriorityChannelRx { receivers, polls: Ghost(Seq::empty()) })
}

/// The lane that a message of priority `prio` is sent on: the only one of a
/// single channel, whatever the priority, and lane `prio` of a priority
/// channel when it exists.
pub open spec fn spec_reactor_lane<T>(tx: &ReactorChannelTx<T>, prio: usize) -> Option<usize> {
    match tx {
        ReactorChannelTx::SingleChannel(_) => Some(0usize),
        ReactorChannelTx::MultiChannel(p) => spec_lane_for(prio, p.lanes()),
    }
}

/// The sending side of the channel between the receiving and the processing
/// stage of an actor: one plain channel, or one lane per priority.
#[verifier::reject_recursive_types(T)]
pub enum ReactorChannelTx<T> {
    SingleChannel(Sender<T>),
    MultiChannel(PriorityChannelTx<T>),
}

/// The receiving side matching [`ReactorChannelTx`].
#[verifier::reject_recursive_types(T)]
pub enum ReactorChannelRx<T> {
    SingleChannel(Receiver<T>),
    MultiChannel(PriorityChannelRx<T>),
}

/// Another sender of the same kind on the same channel.
impl<T> Clone for ReactorChannelTx<T> {
    fn clone(&self) -> (r: Self)
        ensures
            r.sender_seq() == self.sender_seq(),
            (r is SingleChannel) == (self is SingleChannel),
    {
        match self {
            ReactorChannelTx::SingleChannel(s) => ReactorChannelTx::SingleChannel(s.clone()),
            ReactorChannelTx::MultiChannel(p) => ReactorChannelTx::MultiChannel(p.clone()),
        }
    }
}

impl<T> ReactorChannelTx<T> {
    /// The senders, most urgent lane first.
    pub open spec fn sender_seq(&self) -> Seq<Sender<T>> {
        match self {
            ReactorChannelTx::SingleChannel(s) => seq![*s],
            ReactorChannelTx::MultiChannel(p) => p.sender_seq(),
        }
    }

    /// Number of lanes.
    pub open spec fn lanes(&self) -> nat {
        self.sender_seq().len()
    }

    /// Adds `new_tx` as the least urgent lane: a single channel becomes a
    /// priority channel with its old lane first. (The receiving side learns
    /// of the lane from a message that the caller sends on it.)
    pub fn add_prio(self, new_tx: Sender<T>) -> (r: Self)
        ensures
            r is MultiChannel,
            r.sender_seq() == self.sender_seq().push(new_tx),
    {
        match self {
            ReactorChannelTx::SingleChannel(tx) => {
                let mut senders: Vec<Sender<T>> = Vec::new();
                senders.push(tx);
                senders.push(new_tx);
                let p = PriorityChannelTx { senders };
                assert(p.sender_seq() =~= seq![tx].push(new_tx));
                ReactorChannelTx::MultiChannel(p)
            },
            ReactorChannelTx::MultiChannel(mut p) => {
                p.senders.push(new_tx);
                ReactorChannelTx::MultiChannel(p)
            },
        }
    }

    /// The lane that a message of priority `prio` is sent on: the only one of
    /// a single channel, whatever the priority, and lane `prio` of a priority
    /// channel when it exists.
    pub fn lane_for(&self, prio: usize) -> (r: Option<usize>)
        ensures
            r == spec_reactor_lane(self, prio),
            r matches Some(i) ==> i < self.lanes(),
    {
        match self {
            ReactorChannelTx::SingleChannel(_) => Some(0),
            ReactorChannelTx::MultiChannel(p) => p.lane_for(prio),
        }
    }

    /// The sender of lane `i`.
    pub fn lane_sender(&self, i: usize) -> (r: &Sender<T>)
        requires
            i < self.lanes(),
        ensures
            *r == self.sender_seq()[i as int],
    {
        match self {
            ReactorChannelTx::SingleChannel(tx) => tx,
            ReactorChannelTx::MultiChannel(p) => &p.senders[i],
        }
    }
}

impl<T: HasPriority> ReactorChannelTx<T> {
    /// The lane that `msg` is sent on, as [`ReactorChannelTx::lane_for`] picks
    /// it for the message's priority. The caller sends on
    /// [`ReactorChannelTx::lane_sender`] of that lane; without a lane the
    /// message is handed back.
    pub fn lane_of(&self, msg: &T) -> (r: Option<usize>)
        ensures
            exists|p: usize| has_priority(*msg, p) && r == spec_reactor_lane(self, p),
            r matches Some(i) ==> i < self.lanes(),
    {
        let idx = msg.priority();
        assert(has_priority(*msg, idx));
        self.lane_for(idx)
    }
}

impl<T> ReactorChannelTx<T> {
    /// Drops the least urgent lane of a priority channel, as the first step of
    /// taking a lane away. The caller then sends the `RemoveLowPrio` notice on
    /// the most urgent lane of the result, and turns it back into a reactor
    /// sender with [`PriorityChannelTx::into_reactor`]. A single channel, or a
    /// priority channel with fewer than two lanes, leaves no lane for the
    /// notice.
    pub fn remove_prio(self) -> (r: PriorityChannelTx<T>)
        requires
            self is MultiChannel,
            self.lanes() >= 2,
        ensures
            r.sender_seq() == spec_drop_lane(self.sender_seq()),
            r.lanes() >= 1,
    {
        match self {
            ReactorChannelTx::SingleChannel(_) => {
                proof {
                    assert(false);
                }
                PriorityChannelTx { senders: Vec::new() }
            },
            ReactorChannelTx::MultiChannel(mut p) => {
                p.remove_prio();
                p
            },
        }
    }
}

impl<T> ReactorChannelRx<T> {
    /// The receivers, most urgent first.
    pub open spec fn lane_seq(&self) -> Seq<Receiver<T>> {
        match self {
            ReactorChannelRx::SingleChannel(r) => seq![*r],
            ReactorChannelRx::MultiChannel(p) => p.lane_seq(),
        }
    }

    /// Adds a least urgent lane: a single channel becomes a priority channel
    /// with its old lane first.
    pub fn add_prio(self, new_rx: Receiver<T>) -> (r: Self)
        ensures
            r is MultiChannel,
            r.lane_seq() == self.lane_seq().push(new_rx),
    {
        match self {
            ReactorChannelRx::SingleChannel(receiver) => {
                let mut receivers: Vec<Receiver<T>> = Vec::new();
                receivers.push(receiver);
                receivers.push(new_rx);
                let p = PriorityChannelRx { receivers, polls: Ghost(Seq::empty()) };
                assert(p.lane_seq() =~= seq![receiver].push(new_rx));
                ReactorChannelRx::MultiChannel(p)
            },
            ReactorChannelRx::MultiChannel(mut p) => {
                p.add_prio(new_rx);
                ReactorChannelRx::MultiChannel(p)
            },
        }
    }

    /// Drops the least urgent lane of a priority channel. When the lane count
    /// then reads 1 (the count is kept in a byte), the channel becomes a single
    /// channel over the remaining last lane.
    pub fn remove_prio(self) -> (r: Self)
        requires
            self is MultiChannel,
        ensures
            r.lane_seq() == spec_lanes_after_remove(self.lane_seq()),
            (r is SingleChannel) == spec_collapses(self.lane_seq()),
    {
        match self {
            ReactorChannelRx::SingleChannel(_) => {
                proof {
                    assert(false);
                }
                self
            },
            ReactorChannelRx::MultiChannel(mut p) => {
                p.remove_prio();
                if p.curr_prios() == 1 {
                    let last = p.receivers.pop().unwrap();
                    ReactorChannelRx::SingleChannel(last)
                } else {
                    ReactorChannelRx::MultiChannel(p)
                }
            },
        }
    }
}

/// The channel between the receiving and processing stages of an actor:
/// a plain channel when there is one priority, otherwise one lane per
/// priority.
pub fn reactor_channel<T>(num_prios: u8, channel_size: usize) -> (r: (
    ReactorChannelTx<T>,
    ReactorChannelRx<T>,
))
    requires
        0 < channel_size <= max_channel_buffer(),
    ensures
        r.0.lanes() == num_prios,
        r.1.lane_seq().len() == num_prios,
        (r.0 is SingleChannel) == (num_prios == 1),
        (r.1 is SingleChannel) == (num_prios == 1),
{
    if num_prios == 1 {
        let (tx, rx) = new_lane::<T>(channel_size);
        (ReactorChannelTx::SingleChannel(tx), ReactorChannelRx::SingleChannel(rx))
    } else {
        let (tx, rx) = priority_channel::<T>(num_prios, channel_size);
        (ReactorChannelTx::MultiChannel(tx), ReactorChannelRx::MultiChannel(rx))
    }
}

} // verus!
