use reactor::message::R2PMsg;
use reactor::priority::{
    poll_step, priority_channel, reactor_channel, HasPriority, LaneRecv, PollStep, PriorityChannelTx,
    ReactorChannelRx, ReactorChannelTx, RecvError, SendError, MAX_PRIO,
};

#[derive(Debug, Clone, PartialEq)]
enum TestMsg {
    Low,
    Medium,
    High,
}

impl HasPriority for TestMsg {
    fn priority(&self) -> usize {
        match self {
            TestMsg::Low => 2,
            TestMsg::Medium => 1,
            TestMsg::High => MAX_PRIO,
        }
    }
}

type Msg = R2PMsg<TestMsg, ()>;

fn payload(r: Result<Msg, RecvError>) -> Result<Option<TestMsg>, RecvError> {
    match r {
        Ok(R2PMsg::Msg(m, _)) => Ok(Some(m)),
        Ok(_) => Ok(None),
        Err(e) => Err(e),
    }
}

/// Blocking send on the lane the library picks for the message.
fn send(tx: &PriorityChannelTx<Msg>, msg: Msg) -> Result<(), SendError<Msg>> {
    match tx.lane_of(&msg) {
        Some(i) => tx.lane_sender(i).blocking_send(msg).map_err(|e| SendError(e.0)),
        None => Err(SendError(msg)),
    }
}

/// Blocking send on a reactor sender, on the lane the library picks.
fn send_reactor(tx: &ReactorChannelTx<Msg>, msg: Msg) -> Result<(), SendError<Msg>> {
    match tx.lane_of(&msg) {
        Some(i) => tx.lane_sender(i).blocking_send(msg).map_err(|e| SendError(e.0)),
        None => Err(SendError(msg)),
    }
}

#[test]
fn test_priority_order_stress() {
    let (tx, mut rx) = priority_channel::<Msg>(3, 10000);
    for _ in 0..10000 {
        assert!(send(&tx, R2PMsg::Msg(TestMsg::Low, "a")).is_ok());
    }
    assert!(send(&tx, R2PMsg::Msg(TestMsg::Medium, "a")).is_ok());
    assert!(send(&tx, R2PMsg::Msg(TestMsg::High, "a")).is_ok());

    assert_eq!(payload(rx.try_recv()), Ok(Some(TestMsg::High)));
    assert_eq!(payload(rx.try_recv()), Ok(Some(TestMsg::Medium)));
    for _ in 0..10000 {
        assert_eq!(payload(rx.try_recv()), Ok(Some(TestMsg::Low)));
    }
    assert_eq!(payload(rx.try_recv()), Err(RecvError::Empty));
}

#[test]
fn test_priority_order() {
    let (tx, mut rx) = priority_channel::<Msg>(3, 100);
    assert!(send(&tx, R2PMsg::Msg(TestMsg::Low, "a")).is_ok());
    assert!(send(&tx, R2PMsg::Msg(TestMsg::Medium, "a")).is_ok());
    assert!(send(&tx, R2PMsg::Msg(TestMsg::High, "a")).is_ok());

    assert_eq!(payload(rx.try_recv()), Ok(Some(TestMsg::High)));
    assert_eq!(payload(rx.try_recv()), Ok(Some(TestMsg::Medium)));
    assert_eq!(payload(rx.try_recv()), Ok(Some(TestMsg::Low)));
    assert_eq!(payload(rx.try_recv()), Err(RecvError::Empty));
}

#[test]
fn test_disconnected_behavior() {
    let (tx, mut rx) = priority_channel::<Msg>(2, 100);
    drop(tx);
    assert_eq!(payload(rx.try_recv()), Err(RecvError::Disconnected));
}

#[test]
fn test_exit_message() {
    let (tx, mut rx) = priority_channel::<Msg>(3, 100);
    assert!(send(&tx, R2PMsg::Exit).is_ok());
    assert!(send(&tx, R2PMsg::Msg(TestMsg::Medium, "a")).is_ok());

    assert!(matches!(rx.try_recv(), Ok(R2PMsg::Exit)));
    assert_eq!(payload(rx.try_recv()), Ok(Some(TestMsg::Medium)));
}

#[test]
fn test_empty_channel() {
    let (_tx, mut rx) = priority_channel::<Msg>(1, 100);
    assert_eq!(payload(rx.try_recv()), Err(RecvError::Empty));
}

#[test]
fn test_partial_disconnect_behavior() {
    let (mut tx, mut rx) = priority_channel::<Msg>(3, 100);
    tx.remove_prio();

    assert!(send(&tx, R2PMsg::Msg(TestMsg::High, "a")).is_ok());
    assert_eq!(payload(rx.try_recv()), Ok(Some(TestMsg::High)));
    assert!(send(&tx, R2PMsg::Msg(TestMsg::Medium, "a")).is_ok());
    assert_eq!(payload(rx.try_recv()), Ok(Some(TestMsg::Medium)));
    assert_eq!(tx.lane_of(&R2PMsg::Msg(TestMsg::Low, "a")), None);
    match send(&tx, R2PMsg::Msg(TestMsg::Low, "a")) {
        Ok(_) => panic!(),
        Err(send_err) => match send_err.0 {
            R2PMsg::Msg(m, _) => assert_eq!(m, TestMsg::Low),
            _ => panic!(),
        },
    }
}

#[test]
fn no_lane_at_all_reads_disconnected() {
    let (_tx, mut rx) = priority_channel::<Msg>(0, 100);
    assert_eq!(payload(rx.try_recv()), Err(RecvError::Disconnected));
}

#[test]
fn lanes_follow_priorities() {
    let (tx, _rx) = priority_channel::<Msg>(3, 10);
    assert_eq!(tx.lane_for(0), Some(0));
    assert_eq!(tx.lane_for(2), Some(2));
    assert_eq!(tx.lane_for(3), None);
    assert_eq!(tx.curr_prios(), 3);
}

#[test]
fn control_messages_are_most_urgent() {
    let exit: Msg = R2PMsg::Exit;
    assert_eq!(exit.priority(), MAX_PRIO);
    let low: Msg = R2PMsg::Msg(TestMsg::Low, "x");
    assert_eq!(low.priority(), 2);
}

#[test]
fn one_priority_makes_a_single_channel() {
    let (tx, mut rx) = reactor_channel::<Msg>(1, 10);
    assert!(matches!(tx, ReactorChannelTx::SingleChannel(_)));
    assert_eq!(tx.lane_for(7), Some(0));
    assert_eq!(tx.lane_of(&R2PMsg::Msg(TestMsg::Low, "a")), Some(0));
    assert!(send_reactor(&tx, R2PMsg::Msg(TestMsg::Low, "a")).is_ok());
    match &mut rx {
        ReactorChannelRx::SingleChannel(r) => assert!(r.try_recv().is_ok()),
        ReactorChannelRx::MultiChannel(_) => panic!(),
    }
}

#[test]
fn adding_and_removing_lanes() {
    let (_tx, rx) = reactor_channel::<Msg>(1, 10);
    let (extra_tx, extra_rx) = tokio::sync::mpsc::channel::<Msg>(10);
    let rx = rx.add_prio(extra_rx);
    match &rx {
        ReactorChannelRx::MultiChannel(p) => assert_eq!(p.curr_prios(), 2),
        _ => panic!(),
    }
    let rx = rx.remove_prio();
    assert!(matches!(rx, ReactorChannelRx::SingleChannel(_)));
    drop(extra_tx);

    let (tx, rx) = reactor_channel::<Msg>(3, 10);
    assert!(matches!(tx, ReactorChannelTx::MultiChannel(_)));
    let rx = rx.remove_prio();
    match &rx {
        ReactorChannelRx::MultiChannel(p) => assert_eq!(p.curr_prios(), 2),
        _ => panic!(),
    }
    let rx = rx.remove_prio();
    assert!(matches!(rx, ReactorChannelRx::SingleChannel(_)));
}

#[test]
fn cloned_senders_feed_the_same_lanes() {
    let (tx, mut rx) = priority_channel::<Msg>(3, 8);
    let tx2 = tx.clone();
    assert_eq!(tx2.lane_for(2), tx.lane_for(2));
    assert_eq!(tx2.lane_for(3), None);
    assert!(send(&tx2, R2PMsg::Msg(TestMsg::Low, "b")).is_ok());
    assert!(send(&tx, R2PMsg::Msg(TestMsg::High, "a")).is_ok());
    assert_eq!(payload(rx.try_recv()), Ok(Some(TestMsg::High)));
    assert_eq!(payload(rx.try_recv()), Ok(Some(TestMsg::Low)));
    assert_eq!(payload(rx.try_recv()), Err(RecvError::Empty));

    let (rtx, _rrx) = reactor_channel::<Msg>(1, 8);
    assert!(matches!(rtx.clone(), ReactorChannelTx::SingleChannel(_)));
}

#[test]
fn sending_side_adds_and_removes_lanes() {
    let (tx, _rx) = reactor_channel::<Msg>(1, 8);
    let (extra_tx, _extra_rx) = tokio::sync::mpsc::channel::<Msg>(8);
    let tx = tx.add_prio(extra_tx);
    assert!(matches!(tx, ReactorChannelTx::MultiChannel(_)));
    assert_eq!(tx.lane_for(1), Some(1));

    let (tx, mut rx) = reactor_channel::<Msg>(3, 8);
    let p = tx.remove_prio();
    assert_eq!(p.curr_prios(), 2);
    assert_eq!(p.lane_of(&R2PMsg::RemoveLowPrio), Some(0));
    assert!(send(&p, R2PMsg::RemoveLowPrio).is_ok());
    let tx = p.into_reactor();
    assert_eq!(tx.lane_for(2), None);
    assert_eq!(tx.lane_for(1), Some(1));
    match &mut rx {
        ReactorChannelRx::MultiChannel(p) => {
            assert!(matches!(p.try_recv(), Ok(R2PMsg::RemoveLowPrio)));
        }
        _ => panic!(),
    }
    let p = tx.remove_prio();
    assert_eq!(p.lane_of(&R2PMsg::RemoveLowPrio), Some(0));
    assert!(send(&p, R2PMsg::RemoveLowPrio).is_ok());
    let tx = p.into_reactor();
    assert!(matches!(tx, ReactorChannelTx::SingleChannel(_)));
}

#[test]
fn a_message_ends_the_poll() {
    let r: PollStep<u8> = poll_step(0, 1, 3, LaneRecv::Msg(7));
    assert!(matches!(r, PollStep::Done(Ok(7))));
}

#[test]
fn an_empty_lane_goes_on_to_the_next() {
    let r: PollStep<u8> = poll_step(1, 1, 3, LaneRecv::Empty);
    assert!(matches!(r, PollStep::Next { lane: 2, disconnected: 1 }));
    let r: PollStep<u8> = poll_step(1, 2, 3, LaneRecv::Empty);
    assert!(matches!(r, PollStep::Done(Err(RecvError::Empty))));
}

#[test]
fn a_lost_lane_is_counted() {
    let r: PollStep<u8> = poll_step(0, 0, 2, LaneRecv::Disconnected);
    assert!(matches!(r, PollStep::Next { lane: 1, disconnected: 1 }));
    let r: PollStep<u8> = poll_step(1, 1, 2, LaneRecv::Disconnected);
    assert!(matches!(r, PollStep::Done(Err(RecvError::Disconnected))));
    let r: PollStep<u8> = poll_step(0, 1, 2, LaneRecv::Disconnected);
    assert!(matches!(r, PollStep::Done(Err(RecvError::Empty))));
}

#[test]
fn an_open_lane_after_lost_ones_reads_empty() {
    let (mut tx, mut rx) = priority_channel::<Msg>(2, 4);
    tx.remove_prio();
    // Lane 1 has lost its sender, lane 0 is still open.
    assert_eq!(payload(rx.try_recv()), Err(RecvError::Empty));
    drop(tx);
    assert_eq!(payload(rx.try_recv()), Err(RecvError::Disconnected));
}
