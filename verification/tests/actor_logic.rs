use reactor::behaviour::BehaviourConfig;
use reactor::chaos::{ChaosManager, Probability};
use reactor::codec::{EncodeError, ErrWithMsg};
use reactor::handshake::{read_be32, Handshake};
use reactor::message::{after_send_failure, ChannelAction, R2PMsg, RouteTo, SendErrAction, SendFailureStep};
use reactor::processor::{process_all, processor_step, ActorProcess, ProcessorStep};
use reactor::receive::{
    after_recv_decision, delay_window, local_decoder, DelayTable, remote_decoder, rx_action, ControlInst, DecoderChoice,
    RecvDecision, RxAction,
};
use reactor::send::SenderTable;
use reactor::message::{EmptyMsg, Msg};
use reactor::priority::HasPriority;

fn half() -> Probability {
    Probability(0.5f32.to_bits())
}

#[test]
fn chaos_free_manager_passes_messages_once() {
    let cm = ChaosManager::new();
    assert_eq!(cm.apply_chaos(7u32, true, true), vec![7]);
    assert_eq!(cm.loss_roll(), None);
    assert_eq!(cm.duplication_roll(), None);
}

#[test]
fn loss_drops_and_duplication_copies() {
    let mut cm = ChaosManager::new();
    cm.set_msg_loss(half());
    assert_eq!(cm.loss_roll(), Some(half()));
    assert_eq!(cm.apply_chaos(1u8, true, false), Vec::<u8>::new());
    assert_eq!(cm.apply_chaos(1u8, false, false), vec![1]);
    cm.unset_msg_loss();
    assert_eq!(cm.apply_chaos(1u8, true, false), vec![1]);

    cm.set_msg_duplication(3, half());
    assert_eq!(cm.duplication_roll(), Some(half()));
    assert_eq!(cm.apply_chaos(5u8, false, true), vec![5, 5, 5]);
    assert_eq!(cm.apply_chaos(5u8, false, false), vec![5]);
    cm.set_msg_loss(half());
    assert_eq!(cm.apply_chaos(5u8, true, true), Vec::<u8>::new());
    cm.unset_msg_duplication();
    assert_eq!(cm, ChaosManager { msg_loss_probability: Some(half()), ..ChaosManager::new() });
}

#[test]
fn generator_messages_skip_chaos() {
    let mut cm = ChaosManager::new();
    cm.set_msg_loss(half());
    match processor_step::<u8, ()>(&mut cm, Some(R2PMsg::Msg(9, "")), true, true) {
        ProcessorStep::Process { msgs, origin } => {
            assert_eq!(msgs, vec![9]);
            assert_eq!(origin, "");
        }
        _ => panic!(),
    }
    match processor_step::<u8, ()>(&mut cm, Some(R2PMsg::Msg(9, "peer")), true, true) {
        ProcessorStep::Process { msgs, origin } => {
            assert!(msgs.is_empty());
            assert_eq!(origin, "peer");
        }
        _ => panic!(),
    }
}

#[test]
fn control_messages_drive_the_processor() {
    let mut cm = ChaosManager::new();
    assert!(matches!(processor_step::<u8, ()>(&mut cm, None, false, false), ProcessorStep::Exit));
    assert!(matches!(
        processor_step::<u8, ()>(&mut cm, Some(R2PMsg::Exit), false, false),
        ProcessorStep::Exit
    ));
    assert!(matches!(
        processor_step::<u8, u16>(&mut cm, Some(R2PMsg::AddPrio(4)), false, false),
        ProcessorStep::AddPrio(4)
    ));
    assert!(matches!(
        processor_step::<u8, ()>(&mut cm, Some(R2PMsg::RemoveLowPrio), false, false),
        ProcessorStep::RemoveLowPrio
    ));
    assert!(matches!(
        processor_step::<u8, ()>(
            &mut cm,
            Some(R2PMsg::SetMsgDuplication { factor: 2, probability: half() }),
            false,
            false
        ),
        ProcessorStep::Reconfigured
    ));
    assert_eq!(cm.msg_duplication_factor, Some(2));
    processor_step::<u8, ()>(&mut cm, Some(R2PMsg::UnsetMsgDuplication), false, false);
    assert_eq!(cm, ChaosManager::new());
}

#[derive(Debug, Clone)]
struct Num(u32);
impl HasPriority for Num {}
impl Msg for Num {}

struct Doubler;
impl ActorProcess for Doubler {
    type IMsg = Num;
    type OMsg = Num;
    fn process(&mut self, input: Num) -> Vec<Num> {
        vec![Num(input.0), Num(input.0 * 2)]
    }
}

#[test]
fn outputs_carry_the_origin() {
    let mut p = Doubler;
    let out = process_all(&mut p, vec![Num(1), Num(5)], "src");
    let nums: Vec<u32> = out.iter().map(|(n, _)| n.0).collect();
    assert_eq!(nums, vec![1, 2, 5, 10]);
    assert!(out.iter().all(|(_, o)| *o == "src"));
}

#[test]
fn routes_resolve_to_addresses() {
    assert!(RouteTo::Blackhole.targets("me").is_empty());
    assert_eq!(RouteTo::Reply.targets("origin"), vec!["origin".to_string()]);
    assert_eq!(RouteTo::single("a").targets("o"), vec!["a".to_string()]);
    let multi = RouteTo::from(vec!["x".to_string(), "y".to_string()]);
    assert_eq!(multi.targets("o"), vec!["x".to_string(), "y".to_string()]);
    assert!(matches!(RouteTo::from("z".to_string()), RouteTo::Single(s) if s == "z"));
    let addrs = vec!["p".to_string(), "q".to_string()];
    let borrowed = RouteTo::multiple(&addrs[..]);
    assert!(matches!(&borrowed, RouteTo::Multiple(v) if *v == addrs));
    assert_eq!(borrowed.targets("o"), addrs);
}

#[test]
fn controller_instructions() {
    assert!(matches!(rx_action::<(), u8, ()>(ControlInst::StartTcpRecv(7000)), RxAction::StartTcpRecv(7000)));
    assert!(matches!(rx_action::<u8, u8, ()>(ControlInst::StartLocalRecv(3)), RxAction::StartLocalRecv(3)));
    assert!(matches!(rx_action::<(), u8, ()>(ControlInst::Stop), RxAction::Stop));
    assert!(matches!(
        rx_action::<(), u8, ()>(ControlInst::SetMsgLoss { probability: half() }),
        RxAction::Forward(R2PMsg::SetMsgLoss { .. })
    ));
    assert!(matches!(
        rx_action::<(), u8, ()>(ControlInst::UnsetMsgDuplication),
        RxAction::Forward(R2PMsg::UnsetMsgDuplication)
    ));
    assert!(matches!(
        rx_action::<(), u8, ()>(ControlInst::UnsetMsgDelay { senders: vec![] }),
        RxAction::UnsetDelay { senders } if senders.is_empty()
    ));
    assert!(matches!(
        rx_action::<(), u8, ()>(ControlInst::SetMsgDelay { delay_range_ms: (5, 10), senders: vec!["a".to_string()] }),
        RxAction::SetDelay { delay_range_ms: (5, 10), senders } if senders == vec!["a".to_string()]
    ));
}

#[test]
fn message_delays_by_sender() {
    let mut t = DelayTable::new();
    assert_eq!(t.delay_for("a"), None);
    t.set(&vec!["a".to_string(), "b".to_string()], (5, 10));
    assert_eq!(t.delay_for("a"), Some((5, 10)));
    assert_eq!(t.delay_for("b"), Some((5, 10)));
    assert_eq!(t.delay_for("c"), None);
    t.set(&vec!["b".to_string()], (1, 2));
    assert_eq!(t.delay_for("b"), Some((1, 2)));
    t.unset(&vec!["a".to_string(), "c".to_string()]);
    assert_eq!(t.delay_for("a"), None);
    assert_eq!(t.delay_for("b"), Some((1, 2)));
    assert_eq!(delay_window((10, 5)), (5, 10));
    assert_eq!(delay_window((3, 3)), (3, 3));
}

#[test]
fn decoder_choices() {
    assert_eq!(remote_decoder(false, None), Some(DecoderChoice::Master));
    assert_eq!(remote_decoder(true, Some("T".to_string())), Some(DecoderChoice::Sub("T".to_string())));
    assert_eq!(remote_decoder(false, Some("T".to_string())), None);
    assert_eq!(local_decoder(false, Some("T".to_string())), DecoderChoice::Master);
    assert_eq!(local_decoder(true, Some("T".to_string())), DecoderChoice::Sub("T".to_string()));
    assert_eq!(local_decoder(true, None), DecoderChoice::Master);
}

#[test]
fn receive_hook_answers() {
    assert_eq!(after_recv_decision(None), RecvDecision::Forward);
    assert_eq!(after_recv_decision(Some(ChannelAction::PASS)), RecvDecision::Forward);
    assert_eq!(after_recv_decision(Some(ChannelAction::DROP)), RecvDecision::Skip);
    assert_eq!(after_recv_decision(Some(ChannelAction::CLOSE)), RecvDecision::Close);
    assert_eq!(after_recv_decision(Some(ChannelAction::PANIC)), RecvDecision::Fail);
    assert_eq!(after_recv_decision(Some(ChannelAction::SYNC(3))), RecvDecision::Sync(3));
}

#[test]
fn one_slot_per_destination() {
    let mut t = SenderTable::new();
    assert_eq!(t.slot_for("a"), (0, true));
    assert_eq!(t.slot_for("b"), (1, true));
    assert_eq!(t.slot_for("a"), (0, false));
    assert_eq!(t.slot_for("c"), (2, true));
    assert_eq!(t.slot_for("b"), (1, false));
}

#[test]
fn handshake_bytes() {
    let bytes = Handshake::encode("ab", "T", true);
    assert_eq!(bytes, vec![0, 0, 0, 2, b'a', b'b', 0, 0, 0, 1, b'T']);
    let plain = Handshake::encode("ab", "T", false);
    assert_eq!(plain, vec![0, 0, 0, 2, b'a', b'b', 0, 0, 0, 0]);
    assert_eq!(read_be32(&[1, 2, 3, 4], 0), 0x01020304);
}

#[test]
fn handshake_roundtrip() {
    let mut bytes = Handshake::encode("pinger", "ping::Msg", true);
    let used = bytes.len();
    bytes.extend_from_slice(&[9, 9]);
    let (h, n) = Handshake::decode(&bytes).unwrap();
    assert_eq!(n, used);
    assert_eq!(h.actor_addr, "pinger");
    assert_eq!(h.msg_type, Some("ping::Msg".to_string()));

    let bytes = Handshake::encode("é", "", false);
    let (h, n) = Handshake::decode(&bytes).unwrap();
    assert_eq!(n, bytes.len());
    assert_eq!(h.actor_addr, "é");
    assert_eq!(h.msg_type, None);
}

#[test]
fn empty_type_name_reads_as_none() {
    let bytes = Handshake::encode("a", "", true);
    let (h, _) = Handshake::decode(&bytes).unwrap();
    assert_eq!(h.msg_type, None);
}

#[test]
fn malformed_handshakes() {
    assert!(Handshake::decode(&[0, 0]).is_none());
    assert!(Handshake::decode(&[0, 0, 0, 5, b'a']).is_none());
    assert!(Handshake::decode(&[0, 0, 0, 1, 0xff, 0, 0, 0, 0]).is_none());
    assert!(Handshake::decode(&[0, 0, 0, 1, b'a', 0, 0, 0, 3, b'x']).is_none());
    let h = Handshake::new("me", "T", false);
    assert_eq!(h.actor_addr, "me");
    assert_eq!(h.msg_type, None);
}

#[test]
fn encode_error_hands_back_the_message() {
    let e = EncodeError { io_error: std::io::Error::other("x"), msg: Some(3u8) };
    assert_eq!(e.into_inner(), Some(3));
    let e: EncodeError<u8> = EncodeError::from(std::io::Error::other("y"));
    assert_eq!(e.into_inner(), None);
}

#[test]
fn behaviour_defaults() {
    let c = BehaviourConfig::new();
    assert_eq!(c.num_prios, 1);
    assert!(!c.ask_receiver_to_adapt);
    assert_eq!(c.on_send_failure, SendErrAction::Retry { attempts: Some(5), delay_ms: 100 });
    let c = c.num_prios(3).ask_receiver_to_adapt().on_send_failure(SendErrAction::Drop);
    assert_eq!(c.num_prios, 3);
    assert!(c.ask_receiver_to_adapt);
    assert_eq!(c.on_send_failure, SendErrAction::Drop);
    let _ = EmptyMsg.priority();
}

#[test]
fn sending_plan_opens_each_destination_once() {
    let mut table = SenderTable::new();
    let targets: Vec<String> = ["b", "a", "b", "c", "a"].iter().map(|s| s.to_string()).collect();
    let plan = table.slots_for(&targets);
    assert_eq!(plan, vec![(0, true), (1, true), (0, false), (2, true), (1, false)]);
    let again = table.slots_for(&vec!["c".to_string(), "d".to_string()]);
    assert_eq!(again, vec![(2, false), (3, true)]);
}

#[test]
fn failed_sends_follow_the_configured_action() {
    assert_eq!(after_send_failure(SendErrAction::Drop, 0), SendFailureStep::GiveUp);
    let default_retry = SendErrAction::Retry { attempts: Some(5), delay_ms: 100 };
    for done in 0..5 {
        assert_eq!(after_send_failure(default_retry, done), SendFailureStep::Retry { delay_ms: 100 });
    }
    assert_eq!(after_send_failure(default_retry, 5), SendFailureStep::GiveUp);
    let forever = SendErrAction::Retry { attempts: None, delay_ms: 7 };
    assert_eq!(after_send_failure(forever, u16::MAX), SendFailureStep::Retry { delay_ms: 7 });
    let never = SendErrAction::Retry { attempts: Some(0), delay_ms: 7 };
    assert_eq!(after_send_failure(never, 0), SendFailureStep::GiveUp);
}
