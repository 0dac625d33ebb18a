use reactor::chaos::Probability;
use reactor::job::{base_url, chaos_events, ChaosActionKind, JobController, NodeHandle, NodeRequest};
use reactor::lib_builder::{library_name, BuildError, LibBuilder, LibSection};
use reactor::node::{
    chaos_instruction, is_library_extension, lib_name_of_stem, ChaosMsg, NodeActors, OpLibrary,
    PortCounter, Resolution,
};
use reactor::placement::{
    merge_chaos, ChaosMap, ChaosOp, CrashOp, Factor, InvalidFactor, LogicalOp, ManualPlacementManager,
    MsgDelayOp, MsgDuplicationOp, MsgLossOp, PhysicalOp, Placement, PlacementManager,
};
use reactor::receive::ControlInst;
use reactor::rpc::{spawn_reply, unset_msg_loss, MsgDelayRequest, RemoteActorInfo, SpawnArgs};
use reactor::sorted_map::{text_less, SortedMap};

fn p(x: f32) -> Probability {
    Probability(x.to_bits())
}

#[test]
fn factors_must_be_positive() {
    assert_eq!(Factor::new(3), Ok(Factor(3)));
    assert_eq!(Factor::new(1), Ok(Factor(1)));
    assert_eq!(Factor::new(0), Err(InvalidFactor(0)));
    assert_eq!(Factor::new(-2), Err(InvalidFactor(-2)));
}

#[test]
fn placement_counts_and_slots() {
    let mut pl = Placement::new();
    pl.set("h1".to_string(), 2);
    pl.set("h2".to_string(), 1);
    pl.set("h3".to_string(), 0);
    assert_eq!(pl.num(), 3);
    assert_eq!(pl.iter(), vec!["h1".to_string(), "h1".to_string(), "h2".to_string()]);
    pl.set("h1".to_string(), 1);
    assert_eq!(pl.num(), 2);
    assert_eq!(pl.iter().len() as u32, pl.num());
}

fn delay(start: Option<u32>, stop: Option<u32>) -> MsgDelayOp {
    MsgDelayOp { start_ms: start, stop_ms: stop, delay_range_ms: (5, 10), senders: vec!["s".to_string()] }
}

fn full_map() -> ChaosMap {
    ChaosMap {
        crash: Some(CrashOp { crash_ms: Some(10), restart_ms: Some(20) }),
        msg_loss: Some(MsgLossOp { start_ms: None, stop_ms: Some(5), probability: p(0.5) }),
        msg_duplication: Some(MsgDuplicationOp {
            start_ms: Some(1),
            stop_ms: None,
            factor: Factor(2),
            probability: p(0.25),
        }),
        msg_delay: Some(delay(Some(3), None)),
    }
}

#[test]
fn chaos_ops_in_order() {
    let ops = full_map().iter();
    assert_eq!(ops.len(), 4);
    assert!(matches!(ops[0], ChaosOp::MsgLoss(_)));
    assert!(matches!(ops[1], ChaosOp::MsgDuplication(_)));
    assert!(matches!(ops[2], ChaosOp::Crash(_)));
    assert!(matches!(ops[3], ChaosOp::MsgDelay(_)));
    assert_eq!(ops[0].start_ms(), 0);
    assert_eq!(ops[0].stop_ms(), Some(5));
    assert_eq!(ops[2].start_ms(), 10);
    assert_eq!(ops[2].stop_ms(), Some(20));
    assert_eq!(ChaosMap::empty().iter().len(), 0);
}

#[test]
fn extend_prefers_own_settings() {
    let own = ChaosMap {
        crash: None,
        msg_loss: Some(MsgLossOp { start_ms: Some(1), stop_ms: None, probability: p(0.1) }),
        msg_duplication: None,
        msg_delay: None,
    };
    let merged = own.extend(full_map());
    assert_eq!(merged.msg_loss.unwrap().start_ms, Some(1));
    assert_eq!(merged.crash, full_map().crash);
    assert_eq!(merged.msg_duplication, full_map().msg_duplication);
    assert_eq!(merged.msg_delay.unwrap().start_ms, Some(3));

    assert!(merge_chaos(None, &None).is_none());
    let m = merge_chaos(None, &Some(full_map())).unwrap();
    assert_eq!(m.crash, full_map().crash);
    let m = merge_chaos(Some(ChaosMap::empty()), &None).unwrap();
    assert!(m.crash.is_none());
}

fn phys(node: &str, name: &str, replicas: Option<u32>, chaos: Option<ChaosMap>) -> PhysicalOp {
    PhysicalOp {
        nodename: node.to_string(),
        actor_name: name.to_string(),
        replicas,
        chaos,
        payload: "{\"other\":\"ponger\"}".to_string(),
    }
}

#[test]
fn replicas_become_numbered_actors() {
    let map = vec![
        ("pingpong".to_string(), vec![phys("n1", "pinger", None, None), phys("n2", "worker", Some(3), None)]),
        ("other".to_string(), vec![phys("n1", "solo", Some(0), None)]),
    ];
    let g = Some(ChaosMap {
        crash: Some(CrashOp { crash_ms: Some(1), restart_ms: None }),
        msg_loss: None,
        msg_duplication: None,
        msg_delay: None,
    });
    let pm = ManualPlacementManager::new(map, g);
    let placed = pm.place(&LogicalOp { name: "pingpong".to_string(), lib_name: "lib".to_string() });
    let names: Vec<String> = placed.iter().map(|o| o.actor_name.clone()).collect();
    assert_eq!(names, vec!["pinger", "worker1", "worker2", "worker3"]);
    assert!(placed.iter().all(|o| o.replicas.is_none()));
    assert!(placed.iter().all(|o| o.chaos.as_ref().unwrap().crash.is_some()));
    assert_eq!(placed[2].nodename, "n2");
    assert_eq!(placed[2].payload, "{\"other\":\"ponger\"}");
    let other = pm.place(&LogicalOp { name: "other".to_string(), lib_name: "lib".to_string() });
    assert!(other.is_empty());
}

#[test]
fn own_chaos_completed_by_global() {
    let own = ChaosMap {
        crash: Some(CrashOp { crash_ms: Some(7), restart_ms: None }),
        msg_loss: None,
        msg_duplication: None,
        msg_delay: None,
    };
    let map = vec![("op".to_string(), vec![phys("n", "a", None, Some(own))])];
    let pm = ManualPlacementManager::new(map, Some(full_map()));
    let placed = pm.place(&LogicalOp { name: "op".to_string(), lib_name: "l".to_string() });
    let c = placed[0].chaos.as_ref().unwrap();
    assert_eq!(c.crash.unwrap().crash_ms, Some(7));
    assert_eq!(c.msg_loss, full_map().msg_loss);
}

#[test]
fn node_actor_registry() {
    let mut actors: NodeActors<u32, u64> = NodeActors::new();
    assert!(matches!(actors.resolve("a"), Resolution::Unresolved));
    actors.remote_added("a".to_string(), 99);
    assert!(matches!(actors.resolve("a"), Resolution::Remote(99)));
    assert_eq!(actors.spawned("a".to_string(), 1), None);
    assert!(matches!(actors.resolve("a"), Resolution::Local(&1)));
    assert_eq!(actors.spawned("a".to_string(), 2), Some(1));
    actors.spawned("b".to_string(), 3);
    assert_eq!(actors.num_local(), 2);
    let mut names = actors.local_names();
    names.sort();
    assert_eq!(names, vec!["a".to_string(), "b".to_string()]);
    assert_eq!(actors.stop("a"), Some(2));
    assert_eq!(actors.stop("a"), None);
    assert!(matches!(actors.resolve("a"), Resolution::Remote(99)));
    assert_eq!(actors.local_handle("b"), Some(&3));
    let all = actors.stop_all();
    assert_eq!(all, vec![("b".to_string(), 3)]);
    assert_eq!(actors.num_local(), 0);
}

#[test]
fn chaos_requests_become_instructions() {
    let (name, inst) = chaos_instruction::<()>(ChaosMsg::MsgDuplication {
        actor_name: "x".to_string(),
        factor: 2,
        probability: p(0.5),
    });
    assert_eq!(name, "x");
    assert!(matches!(inst, ControlInst::SetMsgDuplication { factor: 2, .. }));
    let (name, inst) = chaos_instruction::<()>(unset_msg_loss("y".to_string()));
    assert_eq!(name, "y");
    assert!(matches!(inst, ControlInst::UnsetMsgLoss));
    let req = MsgDelayRequest {
        actor_name: "z".to_string(),
        delay_range_start: 1,
        delay_range_end: 4,
        senders: vec!["s".to_string()],
    };
    let (name, inst) = chaos_instruction::<()>(req.into_chaos());
    assert_eq!(name, "z");
    assert!(matches!(inst, ControlInst::SetMsgDelay { delay_range_ms: (1, 4), .. }));
}

#[test]
fn ports_count_up_from_6000() {
    let mut ports = PortCounter::new();
    assert_eq!(ports.take(), Some(6000));
    assert_eq!(ports.take(), Some(6001));
    for _ in 0..(65535 - 6002) {
        ports.take();
    }
    assert_eq!(ports.take(), Some(65535));
    assert_eq!(ports.take(), None);
    assert_eq!(ports.take(), None);
}

#[test]
fn library_file_names() {
    assert_eq!(lib_name_of_stem("libping_pong"), "ping_pong");
    assert_eq!(lib_name_of_stem("paxos"), "paxos");
    assert_eq!(lib_name_of_stem("lib"), "");
    assert_eq!(lib_name_of_stem("li"), "li");
    assert!(is_library_extension("so"));
    assert!(is_library_extension("dylib"));
    assert!(!is_library_extension("rlib"));
    assert!(!is_library_extension("s"));
}

#[test]
fn decimal_rendering() {
    assert_eq!(base_url("0.0.0.0", 3000), "http://0.0.0.0:3000");
    assert_eq!(base_url("h", 0), "http://h:0");
    assert_eq!(base_url("h", 65535), "http://h:65535");
}

#[test]
fn manifest_checks() {
    let good = "[package]\nname = \"op\"\nversion = \"0.1.0\"\n\n[lib]\nname = \"my_op\"\ncrate-type = [\"rlib\", \"cdylib\"]\n";
    assert_eq!(LibBuilder::manifest_library_name(good).unwrap(), "my_op");
    let no_cdylib = "[package]\nname = \"op\"\nversion = \"0.1.0\"\n\n[lib]\nname = \"my_op\"\ncrate-type = [\"rlib\"]\n";
    assert!(matches!(LibBuilder::manifest_library_name(no_cdylib), Err(BuildError::InvalidCargoToml)));
    let no_lib = "[package]\nname = \"op\"\nversion = \"0.1.0\"\n";
    assert!(matches!(LibBuilder::manifest_library_name(no_lib), Err(BuildError::InvalidCargoToml)));
    assert!(matches!(LibBuilder::manifest_library_name("not toml ["), Err(BuildError::InvalidCargoToml)));
    let unnamed = Some(Some(LibSection { crate_type: vec!["cdylib".to_string()], name: None }));
    assert!(matches!(library_name(unnamed), Err(BuildError::InvalidCargoToml)));
}

#[test]
fn chaos_schedule_of_an_actor() {
    let ops = full_map().iter();
    let ev = chaos_events(&"a".to_string(), &ops, 100u64);
    assert_eq!(ev.len(), 6);
    let offsets: Vec<u64> = ev.iter().map(|e| e.offset_ms).collect();
    assert_eq!(offsets, vec![0, 5, 1, 10, 20, 3]);
    assert!(matches!(ev[1].action, ChaosActionKind::Revert(ChaosOp::MsgLoss(_))));
    assert!(ev.iter().all(|e| e.actor_name == "a" && e.placed_at == 100));
}

#[test]
fn job_controller_bookkeeping() {
    let pm = ManualPlacementManager::new(vec![], None);
    let mut jc: JobController<ManualPlacementManager, u64> = JobController::new(pm);
    jc.register_node("node1", "10.0.0.1".to_string(), 3000);
    jc.register_node("node2", "10.0.0.2".to_string(), 3001);
    assert!(jc.has_node("node1"));
    assert!(!jc.has_node("node3"));
    assert_eq!(jc.other_nodes("node1"), vec!["node2".to_string()]);
    let mut names = jc.node_names();
    names.sort();
    assert_eq!(names, vec!["node1".to_string(), "node2".to_string()]);
    assert_eq!(jc.node("node2").unwrap().url_str(), "http://10.0.0.2:3001");

    let lop = LogicalOp { name: "pingpong".to_string(), lib_name: "ping_pong_actor".to_string() };
    let pop = phys("node1", "pinger", None, Some(full_map()));
    let args = jc.prepare_spawn(&lop, &pop);
    assert_eq!(args.actor_name, "pinger");
    assert_eq!(args.operator_name, "pingpong");
    assert_eq!(args.lib_name, "ping_pong_actor");
    let reply = spawn_reply("pinger".to_string(), 6000);
    assert_eq!(reply.hostname, "");
    let info = jc.started(reply, &pop, 5u64);
    assert_eq!(info.hostname, "10.0.0.1");
    assert_eq!(info.port, 6000);
    let h = jc.node("node1").unwrap();
    assert_eq!(h.num_events(), 6);
    let (e, a) = h.event(4);
    assert!(matches!(e.action, ChaosActionKind::Revert(ChaosOp::Crash(_))));
    assert_eq!(a.actor_name, "pinger");
    jc.register_lib("node2", "l".to_string());
    let nodes = jc.stop_job();
    assert_eq!(nodes.len(), 2);
}

#[test]
fn requests_for_chaos_operations() {
    let ops = full_map().iter();
    assert!(matches!(ops[2].apply_request("a".to_string()), NodeRequest::StopActor(n) if n == "a"));
    let args = SpawnArgs {
        actor_name: "a".to_string(),
        operator_name: "o".to_string(),
        lib_name: "l".to_string(),
        payload: "{}".to_string(),
    };
    assert!(matches!(ops[2].revert_request("a".to_string(), args), NodeRequest::StartActor(s) if s.operator_name == "o"));
    match ops[1].apply_request("a".to_string()) {
        NodeRequest::SetDuplication(d) => {
            assert_eq!(d.factor, 2);
            assert_eq!(d.actor_name, "a");
        }
        _ => panic!(),
    }
    match ops[3].apply_request("a".to_string()) {
        NodeRequest::SetMsgDelay(d) => {
            assert_eq!((d.delay_range_start, d.delay_range_end), (5, 10));
            assert_eq!(d.senders, vec!["s".to_string()]);
        }
        _ => panic!(),
    }
    let args2 = SpawnArgs {
        actor_name: "a".to_string(),
        operator_name: "o".to_string(),
        lib_name: "l".to_string(),
        payload: "{}".to_string(),
    };
    assert!(matches!(ops[0].revert_request("a".to_string(), args2), NodeRequest::UnsetMsgLoss(n) if n == "a"));
    let h: NodeHandle<u64> = NodeHandle::new("h".to_string(), 1);
    assert_eq!(h.url_str(), "http://h:1");
    let _ = RemoteActorInfo { name: "n".to_string(), hostname: "h".to_string(), port: 1 };
}

#[test]
fn placement_lists_hosts_by_name() {
    let mut pl = Placement::new();
    pl.set("zeta".to_string(), 1);
    pl.set("alpha".to_string(), 2);
    pl.set("mid".to_string(), 1);
    assert_eq!(
        pl.iter(),
        vec!["alpha".to_string(), "alpha".to_string(), "mid".to_string(), "zeta".to_string()]
    );
    assert_eq!(pl.num(), 4);
}

#[test]
fn job_nodes_are_walked_by_name() {
    let pm = ManualPlacementManager::new(vec![], None);
    let mut jc: JobController<ManualPlacementManager, u64> = JobController::new(pm);
    jc.register_node("node2", "10.0.0.2".to_string(), 3001);
    jc.register_node("node10", "10.0.0.10".to_string(), 3010);
    jc.register_node("node1", "10.0.0.1".to_string(), 3000);
    assert_eq!(
        jc.node_names(),
        vec!["node1".to_string(), "node10".to_string(), "node2".to_string()]
    );
    let stopped: Vec<String> = jc.stop_job().into_iter().map(|(n, _)| n).collect();
    assert_eq!(stopped, vec!["node1".to_string(), "node10".to_string(), "node2".to_string()]);
}

#[test]
fn text_order_is_that_of_str() {
    let words = ["", "a", "ab", "b", "B", "a0", "é", "z", "zz"];
    for x in words {
        for y in words {
            assert_eq!(text_less(x, y), x < y, "{x:?} < {y:?}");
        }
    }
}

#[test]
fn sorted_map_replaces_and_orders() {
    let mut m: SortedMap<u32> = SortedMap::new();
    assert_eq!(m.insert("b".to_string(), 1), None);
    assert_eq!(m.insert("a".to_string(), 2), None);
    assert_eq!(m.insert("b".to_string(), 3), Some(1));
    assert_eq!(m.len(), 2);
    assert_eq!(m.get("b"), Some(&3));
    assert_eq!(m.position("a"), Some(0));
    assert!(!m.contains_key("c"));
    let all = m.drain();
    assert_eq!(all, vec![("a".to_string(), 2), ("b".to_string(), 3)]);
    assert_eq!(m.len(), 0);
}

#[test]
fn operator_libraries_by_name() {
    let mut libs: OpLibrary<u32> = OpLibrary::new();
    assert_eq!(libs.num_libs(), 0);
    libs.add_lib("ping".to_string(), 7, vec!["pinger".to_string(), "ponger".to_string()]);
    libs.add_lib("paxos".to_string(), 8, vec!["leader".to_string()]);
    assert_eq!(libs.num_libs(), 2);
    assert_eq!(libs.get_lib("ping"), Some(&7));
    assert_eq!(libs.get_lib("raft"), None);
    libs.add_lib("ping".to_string(), 9, vec![]);
    assert_eq!(libs.num_libs(), 2);
    assert_eq!(libs.get_lib("ping"), Some(&9));
    let mut names = libs.lib_names();
    names.sort();
    assert_eq!(
        names,
        vec![("paxos".to_string(), vec!["leader".to_string()]), ("ping".to_string(), vec![])]
    );
}

#[test]
fn built_library_file_names() {
    assert_eq!(LibBuilder::library_file("ping_pong_actor", "so"), "libping_pong_actor.so");
    assert_eq!(LibBuilder::library_file("x", "dylib"), "libx.dylib");
}
