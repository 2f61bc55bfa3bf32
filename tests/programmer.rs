use netcontrol::config::{parse_policy, LineEntry};
use netcontrol::controller::{init, run, DataState, Event, EventKind, NfHandle, TimeState};
use netcontrol::model::{Config, Ipv4Cidr};
use netcontrol::netfilter::{
    make_rule, EntryKind, EntryTag, LogKind, LogTag, Msg, MsgType, Object, QuotaObj, Role,
};
use netcontrol::tags::{entry_name, log_prefix};
use netcontrol::timer::ConnTimer;

fn ip(a: u8, b: u8, c: u8, d: u8) -> u32 {
    u32::from_be_bytes([a, b, c, d])
}

fn policy(ls: &[&str], lookups: Vec<Option<Vec<u32>>>) -> Config {
    let text: Vec<String> = ls.iter().map(|s| s.to_string()).collect();
    let entries: Vec<LineEntry> = parse_policy(&text).unwrap();
    Config::new_from_entries(&entries, &lookups).unwrap()
}

fn data_tag(i: usize) -> EntryTag {
    EntryTag { kind: EntryKind::Data, index: i }
}

fn time_tag(i: usize) -> EntryTag {
    EntryTag { kind: EntryKind::Time, index: i }
}

fn add(role: Role, t: EntryTag, net: Ipv4Cidr) -> Msg {
    Msg { kind: MsgType::Add, object: Object::Rule(make_rule(t, role, net)) }
}

fn del(role: Role, t: EntryTag, net: Ipv4Cidr) -> Msg {
    Msg { kind: MsgType::Del, object: Object::Rule(make_rule(t, role, net)) }
}

fn has_block_rules(batch: &[Msg]) -> bool {
    batch.iter().any(|m| match m.object {
        Object::Rule(r) => r.verdict == netcontrol::netfilter::Verdict::Reject,
        _ => false,
    })
}

fn log(h: &mut NfHandle, group: u16, prefix: &str, now: u64) -> Vec<Msg> {
    h.handle_log(group, &prefix.as_bytes().to_vec(), now)
}

#[test]
fn data_entry_install_and_over_limit() {
    let cfg = policy(&["10.0.0.5 1kb"], vec![None]);
    let (mut h, batch) = init(&cfg);
    let net = Ipv4Cidr::host(ip(10, 0, 0, 5));
    assert_eq!(batch[0], Msg { kind: MsgType::Add, object: Object::Table });
    assert_eq!(batch.len(), 5 + 3);
    assert!(batch.contains(&Msg {
        kind: MsgType::Add,
        object: Object::Quota(QuotaObj { owner: data_tag(0), over: true, limit: 1000 }),
    }));
    assert!(batch.contains(&add(Role::DataBlock, data_tag(0), net)));
    assert!(batch.contains(&add(Role::DataLog, data_tag(0), net)));
    let r = make_rule(data_tag(0), Role::DataLog, net);
    assert_eq!(r.chain.name(), "data_qt-in");
    assert_eq!(r.net, net);

    let out = log(&mut h, 0, "dq_0", 3);
    assert_eq!(out, vec![del(Role::DataLog, data_tag(0), net)]);
    assert_eq!(h.data_entries[0].state, DataState::OverLimit);
    assert!(log(&mut h, 0, "dq_0", 4).is_empty());
}

#[test]
fn time_entry_pause_and_expiry() {
    let cfg = policy(&["10.0.0.5 30s"], vec![None]);
    let (mut h, batch) = init(&cfg);
    let net = Ipv4Cidr::host(ip(10, 0, 0, 5));
    assert!(!has_block_rules(&batch));
    assert!(batch.contains(&add(Role::Start, time_tag(0), net)));
    assert!(batch.contains(&add(Role::InFin, time_tag(0), net)));
    assert!(batch.contains(&add(Role::OutFin, time_tag(0), net)));

    assert!(log(&mut h, 1, "start_tq_0", 0).is_empty());
    assert_eq!(h.time_entries[0].state, TimeState::Running);
    assert_eq!(h.time_entries[0].timer.deadline, 30);

    assert!(log(&mut h, 1, "fin_tq_0", 5).is_empty());
    assert_eq!(h.time_entries[0].state, TimeState::Idle);
    assert_eq!(h.time_entries[0].timer.remaining(5), 25);

    assert!(log(&mut h, 1, "start_tq_0", 10).is_empty());
    assert_eq!(h.time_entries[0].timer.deadline, 35);
    assert!(h.tick(34).is_empty());

    let out = h.tick(35);
    assert_eq!(
        out,
        vec![add(Role::BlockIn, time_tag(0), net), add(Role::BlockOut, time_tag(0), net)]
    );
    assert_eq!(h.time_entries[0].state, TimeState::Expired);
    assert!(log(&mut h, 1, "start_tq_0", 40).is_empty());
}

#[test]
fn resolved_domain_gets_one_rule_set_per_address() {
    let a = ip(192, 0, 2, 1);
    let b = ip(192, 0, 2, 2);
    let cfg = policy(&["# note", "", "example.test 5m"], vec![Some(vec![a, b])]);
    let (h, batch) = init(&cfg);
    assert_eq!(h.time_entries.len(), 1);
    for addr in [a, b] {
        let net = Ipv4Cidr::host(addr);
        assert!(batch.contains(&add(Role::Start, time_tag(0), net)));
        assert!(batch.contains(&add(Role::InFin, time_tag(0), net)));
        assert!(batch.contains(&add(Role::OutFin, time_tag(0), net)));
    }
    assert_eq!(batch.len(), 5 + 6);
}

#[test]
fn refused_install_is_torn_down() {
    let cfg = policy(&["10.0.0.5 1kb"], vec![None]);
    let (mut h, _batch) = init(&cfg);
    let teardown = h.deinit();
    assert_eq!(teardown, vec![Msg { kind: MsgType::Del, object: Object::Table }]);
    assert!(!h.installed);
    assert!(h.deinit().is_empty());
}

#[test]
fn shutdown_event_deletes_table() {
    let cfg = policy(&["10.0.0.5 30s"], vec![None]);
    let (mut h, _batch) = init(&cfg);
    let events = vec![
        Event { at: 0, kind: EventKind::Log { group: 1, prefix: b"start_tq_0".to_vec() } },
        Event { at: 1, kind: EventKind::Shutdown },
    ];
    let out = run(&mut h, &events);
    assert_eq!(out, vec![Msg { kind: MsgType::Del, object: Object::Table }]);
    assert!(!h.installed);
}

#[test]
fn zero_time_quota_expires_on_first_start() {
    let cfg = policy(&["10.0.0.5 0s"], vec![None]);
    let (mut h, _batch) = init(&cfg);
    let net = Ipv4Cidr::host(ip(10, 0, 0, 5));
    let out = log(&mut h, 1, "start_tq_0", 100);
    assert_eq!(
        out,
        vec![add(Role::BlockIn, time_tag(0), net), add(Role::BlockOut, time_tag(0), net)]
    );
    assert_eq!(h.time_entries[0].state, TimeState::Expired);
}

#[test]
fn zero_data_quota_goes_over_on_first_notification() {
    let cfg = policy(&["10.0.0.5 0kb"], vec![None]);
    let (mut h, batch) = init(&cfg);
    assert!(batch.contains(&Msg {
        kind: MsgType::Add,
        object: Object::Quota(QuotaObj { owner: data_tag(0), over: true, limit: 0 }),
    }));
    assert_eq!(log(&mut h, 0, "dq_0", 0).len(), 1);
    assert_eq!(h.data_entries[0].state, DataState::OverLimit);
}

#[test]
fn duplicate_destinations_coexist() {
    let cfg = policy(&["10.0.0.5 1kb", "10.0.0.5 2kb"], vec![None, None]);
    let (mut h, batch) = init(&cfg);
    let net = Ipv4Cidr::host(ip(10, 0, 0, 5));
    assert!(batch.contains(&add(Role::DataBlock, data_tag(0), net)));
    assert!(batch.contains(&add(Role::DataBlock, data_tag(1), net)));
    assert_ne!(make_rule(data_tag(0), Role::DataBlock, net), make_rule(data_tag(1), Role::DataBlock, net));
    log(&mut h, 0, "dq_1", 0);
    assert_eq!(h.data_entries[0].state, DataState::Counting);
    assert_eq!(h.data_entries[1].state, DataState::OverLimit);
}

#[test]
fn block_then_unblock_is_symmetric() {
    let cfg = policy(&["10.0.0.5 30s", "10.0.0.6 1kb"], vec![None, None]);
    let (mut h, _batch) = init(&cfg);
    let b = h.block_time(0, 7);
    let u = h.unblock_time(0);
    assert_eq!(b.len(), u.len());
    for (x, y) in b.iter().zip(u.iter()) {
        assert_eq!(x.kind, MsgType::Add);
        assert_eq!(y.kind, MsgType::Del);
        assert_eq!(x.object, y.object);
    }
    assert_eq!(h.time_entries[0].state, TimeState::Idle);
    let b = h.block_data(0);
    let u = h.unblock_data(0);
    assert_eq!(b.len(), 1);
    assert_eq!(b[0].object, u[0].object);
    assert_eq!(h.data_entries[0].state, DataState::Counting);
}

#[test]
fn unknown_prefix_is_discarded() {
    let cfg = policy(&["10.0.0.5 30s"], vec![None]);
    let (mut h, _batch) = init(&cfg);
    assert!(log(&mut h, 1, "start_tq_1", 0).is_empty());
    assert!(log(&mut h, 0, "start_tq_0", 0).is_empty());
    assert!(log(&mut h, 1, "bogus", 0).is_empty());
    assert_eq!(h.time_entries[0].state, TimeState::Idle);
}

#[test]
fn names_and_prefixes() {
    assert_eq!(entry_name(data_tag(0)), b"dq_0".to_vec());
    assert_eq!(entry_name(time_tag(107)), b"tq_107".to_vec());
    assert_eq!(log_prefix(LogTag { kind: LogKind::Start, index: 12 }), b"start_tq_12".to_vec());
    assert_eq!(log_prefix(LogTag { kind: LogKind::Fin, index: 3 }), b"fin_tq_3".to_vec());
    assert_eq!(log_prefix(LogTag { kind: LogKind::Over, index: 40 }), b"dq_40".to_vec());
}

#[test]
fn timer_pause_resume_reset() {
    let mut t = ConnTimer::new(10);
    assert!(!t.fires(100));
    t.start(100);
    assert_eq!(t.deadline, 110);
    t.stop(104);
    assert_eq!(t.remaining_secs, 6);
    t.start(200);
    assert_eq!(t.deadline, 206);
    assert!(!t.fires(205));
    assert!(t.fires(206));
    t.reset(201);
    assert_eq!(t.deadline, 211);
    t.set_callback(3);
    assert_eq!(t.cb, Some(3));
    t.clear_callback();
    assert_eq!(t.cb, None);
}

#[test]
fn entry_constructors_emit_rule_sets() {
    let cfg = policy(&["example.test 5m", "10.0.0.9 2kb"], vec![Some(vec![ip(192, 0, 2, 1), ip(192, 0, 2, 2)]), None]);
    let mut batch: Vec<Msg> = Vec::new();
    let t = netcontrol::controller::NfTimeLimit::new(&cfg.time[0], 0, &mut batch);
    assert_eq!(t.state, TimeState::Idle);
    assert_eq!(t.timer.target_secs, 300);
    assert_eq!(batch.len(), 6);
    assert_eq!(batch[0], add(Role::Start, time_tag(0), Ipv4Cidr::host(ip(192, 0, 2, 1))));
    let mut batch: Vec<Msg> = Vec::new();
    let d = netcontrol::controller::NfDataLimit::new(&cfg.data[0], 0, &mut batch);
    assert_eq!(d.limit, 2000);
    let net = Ipv4Cidr::host(ip(10, 0, 0, 9));
    assert_eq!(
        batch,
        vec![
            Msg {
                kind: MsgType::Add,
                object: Object::Quota(QuotaObj { owner: data_tag(0), over: true, limit: 2000 }),
            },
            add(Role::DataBlock, data_tag(0), net),
            add(Role::DataLog, data_tag(0), net),
        ]
    );
}

#[test]
fn refused_runtime_batch_marks_entry_degraded() {
    let cfg = policy(&["10.0.0.5 30s"], vec![None]);
    let (mut h, _batch) = init(&cfg);
    let b = h.block_time(0, 1);
    h.mark_degraded(&b);
    assert!(!h.degraded.is_empty());
    assert!(h.degraded.iter().all(|t| *t == time_tag(0)));
}

#[test]
fn chain_names() {
    assert_eq!(netcontrol::netfilter::ChainId::DataIn.name(), "data_qt-in");
    assert_eq!(netcontrol::netfilter::ChainId::DataOut.name(), "data_qt-out");
    assert_eq!(netcontrol::netfilter::ChainId::TimeIn.name(), "time_qt-in");
    assert_eq!(netcontrol::netfilter::ChainId::TimeOut.name(), "time_qt-out");
}
