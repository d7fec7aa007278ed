use reactive_txn::defworker::{DefWorker, _PropaChange};
use reactive_txn::message::{Message, PropaChange};
use reactive_txn::name_map::NameMap;
use reactive_txn::srvmanager_proc::{ServiceManager, TxnProgress};
use reactive_txn::transaction::{Txn, TxnId, Val, WriteToName};
use reactive_txn::varworker::VarWorker;
use reactive_txn::worker::{Outgoing, Worker};
use std::collections::HashSet;

fn txn(time: u128, writes: Vec<WriteToName>) -> Txn {
    Txn { id: TxnId { time }, writes }
}

fn write(name: &str, expr: Val) -> WriteToName {
    WriteToName { name: name.to_string(), expr }
}

fn set(keys: &[u128]) -> HashSet<u128> {
    keys.iter().cloned().collect()
}

fn replica(entries: &[(&str, Option<i32>)]) -> NameMap<Option<i32>> {
    let mut m = NameMap::new();
    for (k, v) in entries {
        m.insert(k.to_string(), *v);
    }
    m
}

fn change(id: i32, name: &str, val: i32, provides: &[u128], requires: &[u128]) -> _PropaChange {
    _PropaChange {
        propa_id: id,
        propa_change: PropaChange {
            name: name.to_string(),
            new_val: val,
            provides: set(provides),
            requires: set(requires),
        },
        deps: HashSet::new(),
    }
}

#[test]
fn name_map_replaces_in_place_and_appends() {
    let mut m: NameMap<i32> = NameMap::new();
    m.insert("a".to_string(), 1);
    m.insert("b".to_string(), 2);
    m.insert("a".to_string(), 3);
    assert_eq!(m.len(), 2);
    assert_eq!(m.key_at(0), "a");
    assert_eq!(*m.value_at(0), 3);
    assert_eq!(m.key_at(1), "b");
    assert_eq!(m.get(&"a".to_string()), Some(&3));
    assert_eq!(m.get(&"c".to_string()), None);
    assert_eq!(m.position(&"b".to_string()), Some(1));
    assert!(!m.contains_key(&"c".to_string()));
}

#[test]
fn compute_val_sums_dependencies() {
    let r = replica(&[("a", Some(1)), ("b", Some(2)), ("c", Some(3))]);
    assert_eq!(DefWorker::<(), u32>::compute_val(&r), Some(6));
}

#[test]
fn compute_val_missing_value_gives_none() {
    let r = replica(&[("a", Some(1)), ("b", None), ("c", Some(3))]);
    assert_eq!(DefWorker::<(), u32>::compute_val(&r), None);
}

#[test]
fn compute_val_of_no_dependencies_is_zero() {
    let r = replica(&[]);
    assert_eq!(DefWorker::<(), u32>::compute_val(&r), Some(0));
}

#[test]
fn compute_val_partial_sums_may_leave_i32() {
    let r = replica(&[("a", Some(i32::MAX)), ("b", Some(1)), ("c", Some(-2))]);
    assert_eq!(DefWorker::<(), u32>::compute_val(&r), Some(i32::MAX - 1));
}

#[test]
fn var_worker_write_then_read() {
    let mut w: VarWorker<(), u32> = VarWorker::new("a", (), 7);
    assert_eq!(w.worker.name, "a");
    assert_eq!(w.value, None);
    let t1 = txn(10, vec![write("a", Val::Int(3))]);
    let out = VarWorker::handle_message(
        &mut w.worker,
        &mut w.value,
        &Message::WriteVarRequest { txn: t1.clone(), write_val: 3, requires: set(&[4, 5]) },
        &mut w.applied_txns,
        &mut w.next_requires,
    );
    match out {
        Outgoing::ToSubscribers(Message::PropaMessage { propa_change }) => {
            assert_eq!(propa_change.name, "a");
            assert_eq!(propa_change.new_val, 3);
            assert_eq!(propa_change.provides, set(&[10]));
            assert_eq!(propa_change.requires, set(&[4, 5]));
        }
        _ => panic!("a write propagates to the subscribers"),
    }
    assert_eq!(w.value, Some(3));
    assert_eq!(w.applied_txns.len(), 1);
    assert_eq!(w.applied_txns[0].id.time, 10);
    assert_eq!(w.next_requires, set(&[4, 5, 10]));

    let t2 = txn(20, vec![]);
    let out = VarWorker::handle_message(
        &mut w.worker,
        &mut w.value,
        &Message::ReadVarRequest { txn: t2 },
        &mut w.applied_txns,
        &mut w.next_requires,
    );
    match out {
        Outgoing::ToManager(Message::ReadVarResult { txn, name, result, result_provide }) => {
            assert_eq!(txn.id.time, 20);
            assert_eq!(name, "a");
            assert_eq!(result, Some(3));
            assert_eq!(result_provide, set(&[10]));
        }
        _ => panic!("a read answers the manager"),
    }
    assert_eq!(w.next_requires, set(&[4, 5, 10, 20]));
    assert_eq!(w.applied_txns.len(), 1);
}

#[test]
fn var_worker_retrieve_and_subscribe() {
    let mut w: VarWorker<(), u32> = VarWorker::new("b", (), 7);
    let out = VarWorker::handle_message(
        &mut w.worker,
        &mut w.value,
        &Message::ManagerRetrieve,
        &mut w.applied_txns,
        &mut w.next_requires,
    );
    match out {
        Outgoing::ToManager(Message::ManagerRetrieveResult { name, result }) => {
            assert_eq!(name, "b");
            assert_eq!(result, None);
        }
        _ => panic!("a retrieval answers the manager"),
    }
    let out = VarWorker::handle_message(
        &mut w.worker,
        &mut w.value,
        &Message::SubscribeRequest { subscriber_name: "d".to_string(), sender: 42 },
        &mut w.applied_txns,
        &mut w.next_requires,
    );
    assert!(matches!(out, Outgoing::Nothing));
    assert_eq!(w.worker.senders_to_succs, vec![42]);
    assert_eq!(w.worker.sender_to_manager, 7);
    assert!(w.next_requires.is_empty());
}

#[test]
fn worker_new_has_no_subscribers() {
    let w: Worker<u8, u32> = Worker::new("x", 1, 2);
    assert_eq!(w.name, "x");
    assert_eq!(w.inbox, 1);
    assert_eq!(w.sender_to_manager, 2);
    assert!(w.senders_to_succs.is_empty());
}

#[test]
fn apply_batch_takes_newest_change_per_name() {
    let mut d: DefWorker<(), u32> = DefWorker::new(
        "d",
        (),
        0,
        vec![Val::Var("a".to_string()), Val::Var("b".to_string())],
        replica(&[("a", None), ("b", Some(5))]),
        HashSet::<String>::new(),
    );
    d.prev_batch_provides = set(&[1]);
    d.propa_changes_to_apply.insert(2, change(9, "a", 0, &[2], &[]));
    d.propa_changes_to_apply.insert(8, change(9, "b", 0, &[8], &[]));
    let batch = vec![
        change(3, "a", 30, &[2], &[7]),
        change(1, "a", 10, &[3], &[]),
        change(2, "b", 20, &[4], &[6]),
    ];
    let out = DefWorker::apply_batch(
        batch,
        &d.worker,
        &mut d.value,
        &mut d.applied_txns,
        &mut d.prev_batch_provides,
        &mut d.propa_changes_to_apply,
        &mut d.replica,
    );
    // the older change of `a` (id 1) came after the newer one (id 3) and is skipped
    assert_eq!(d.replica.get(&"a".to_string()), Some(&Some(30)));
    assert_eq!(d.replica.get(&"b".to_string()), Some(&Some(20)));
    assert_eq!(d.value, Some(50));
    assert_eq!(d.prev_batch_provides, set(&[2, 3, 4]));
    let mut applied = d.applied_txns.clone();
    applied.sort();
    assert_eq!(applied, vec![2, 3, 4]);
    assert!(!d.propa_changes_to_apply.contains_key(&2));
    assert!(d.propa_changes_to_apply.contains_key(&8));
    match out {
        Message::PropaMessage { propa_change } => {
            assert_eq!(propa_change.name, "d");
            assert_eq!(propa_change.new_val, 50);
            assert_eq!(propa_change.provides, set(&[2, 3, 4]));
            assert_eq!(propa_change.requires, set(&[1, 6, 7]));
        }
        _ => panic!("a batch yields a propagated change"),
    }
}

#[test]
fn apply_batch_equal_ids_later_wins() {
    let mut d: DefWorker<(), u32> =
        DefWorker::new("d", (), 0, vec![], replica(&[("a", Some(1))]), HashSet::<String>::new());
    let batch = vec![change(4, "a", 40, &[11], &[]), change(4, "a", 41, &[12], &[])];
    let _ = DefWorker::apply_batch(
        batch,
        &d.worker,
        &mut d.value,
        &mut d.applied_txns,
        &mut d.prev_batch_provides,
        &mut d.propa_changes_to_apply,
        &mut d.replica,
    );
    assert_eq!(d.value, Some(41));
    assert_eq!(d.replica.len(), 1);
}

#[test]
fn def_worker_accepts_reads_and_propagations() {
    let m: Message<u32> = Message::ReadDefRequest { txn: txn(1, vec![]), requires: HashSet::new() };
    DefWorker::<(), u32>::handle_message(&m);
}

#[test]
fn transaction_reads_then_writes() {
    // a := 42, b := a
    let mut inboxes: NameMap<u32> = NameMap::new();
    inboxes.insert("a".to_string(), 100);
    inboxes.insert("b".to_string(), 200);
    let t = txn(
        5,
        vec![write("a", Val::Int(42)), write("b", Val::Var("a".to_string()))],
    );
    assert!(ServiceManager::<(), u32>::can_start(&t, &inboxes));
    let (mut progress, reads) = ServiceManager::<(), u32>::handle_transaction(&t, &inboxes);
    assert_eq!(progress.cnt, 1);
    assert_eq!(reads.len(), 1);
    assert_eq!(reads[0].0, 100);
    assert!(matches!(&reads[0].1, Message::ReadVarRequest { txn } if txn.id.time == 5));

    // an answer for another transaction is ignored
    let other: Message<u32> = Message::ReadVarResult {
        txn: txn(6, vec![]),
        name: "a".to_string(),
        result: Some(1),
        result_provide: set(&[77]),
    };
    assert!(!progress.record_result(&t, other));
    assert_eq!(progress.cnt, 1);
    assert!(progress.requires_for_txn.is_empty());

    let answer: Message<u32> = Message::ReadVarResult {
        txn: txn(5, vec![]),
        name: "a".to_string(),
        result: Some(3),
        result_provide: set(&[9]),
    };
    assert!(progress.record_result(&t, answer));
    assert_eq!(progress.cnt, 0);
    assert!(progress.writes_ready(&t, &inboxes));
    let writes = progress.write_requests(&t, &inboxes);
    assert_eq!(writes.len(), 2);
    assert_eq!(writes[0].0, 100);
    assert_eq!(writes[1].0, 200);
    match (&writes[0].1, &writes[1].1) {
        (
            Message::WriteVarRequest { txn: t0, write_val: v0, requires: r0 },
            Message::WriteVarRequest { txn: t1, write_val: v1, requires: r1 },
        ) => {
            assert_eq!(t0.id.time, 5);
            assert_eq!(t1.id.time, 5);
            assert_eq!(*v0, 42);
            assert_eq!(*v1, 3);
            assert_eq!(r0, &set(&[9]));
            assert_eq!(r1, &set(&[9]));
        }
        _ => panic!("writes are write requests"),
    }
}

#[test]
fn transaction_without_reads_writes_at_once() {
    let mut inboxes: NameMap<u32> = NameMap::new();
    inboxes.insert("a".to_string(), 1);
    let t = txn(1, vec![write("a", Val::Int(3))]);
    let (progress, reads) = ServiceManager::<(), u32>::handle_transaction(&t, &inboxes);
    assert!(reads.is_empty());
    assert_eq!(progress.cnt, 0);
    assert!(progress.writes_ready(&t, &inboxes));
    let writes = progress.write_requests(&t, &inboxes);
    assert_eq!(writes.len(), 1);
    assert!(matches!(&writes[0].1, Message::WriteVarRequest { write_val: 3, requires, .. } if requires.is_empty()));
}

#[test]
fn transaction_refused_when_it_assigns_a_definition_or_reads_an_unknown_name() {
    let mut inboxes: NameMap<u32> = NameMap::new();
    inboxes.insert("a".to_string(), 1);
    let def = txn(1, vec![write("a", Val::Def("d".to_string()))]);
    assert!(!ServiceManager::<(), u32>::can_start(&def, &inboxes));
    let unknown = txn(2, vec![write("a", Val::Var("z".to_string()))]);
    assert!(!ServiceManager::<(), u32>::can_start(&unknown, &inboxes));
}

#[test]
fn writes_not_ready_when_a_read_value_is_missing() {
    let mut inboxes: NameMap<u32> = NameMap::new();
    inboxes.insert("a".to_string(), 1);
    inboxes.insert("b".to_string(), 2);
    let t = txn(1, vec![write("b", Val::Var("a".to_string()))]);
    let (mut progress, _) = ServiceManager::<(), u32>::handle_transaction(&t, &inboxes);
    let answer: Message<u32> = Message::ReadVarResult {
        txn: txn(1, vec![]),
        name: "a".to_string(),
        result: None,
        result_provide: set(&[]),
    };
    assert!(progress.record_result(&t, answer));
    assert!(!progress.writes_ready(&t, &inboxes));
    let ghostless = TxnProgress { cnt: 0, names_to_value: NameMap::new(), requires_for_txn: HashSet::new() };
    assert!(!ghostless.writes_ready(&t, &inboxes));
}

#[test]
fn create_workers_register_and_subscribe() {
    let mut inboxes: NameMap<u32> = NameMap::new();
    let a: VarWorker<u8, u32> = ServiceManager::<u8, u32>::create_var_worker("a", 1, 10, 99, &mut inboxes);
    assert_eq!(a.worker.name, "a");
    let _b: VarWorker<u8, u32> = ServiceManager::<u8, u32>::create_var_worker("b", 2, 20, 99, &mut inboxes);
    let mut deps = HashSet::<String>::new();
    deps.insert("a".to_string());
    deps.insert("b".to_string());
    let (d, subs) = ServiceManager::<u8, u32>::create_def_worker(
        "d",
        3,
        30,
        99,
        vec![Val::Var("a".to_string()), Val::Var("b".to_string())],
        replica(&[("a", None), ("b", None)]),
        deps,
        &mut inboxes,
    );
    assert_eq!(d.worker.name, "d");
    assert_eq!(d.worker.inbox, 3);
    assert_eq!(inboxes.len(), 3);
    assert_eq!(inboxes.get(&"d".to_string()), Some(&30));
    assert_eq!(subs.len(), 2);
    assert_eq!(subs[0].0, 10);
    assert_eq!(subs[1].0, 20);
    for (_, m) in &subs {
        match m {
            Message::SubscribeRequest { subscriber_name, sender } => {
                assert_eq!(subscriber_name, "d");
                assert_eq!(*sender, 30);
            }
            _ => panic!("subscriptions are subscribe requests"),
        }
    }
}

#[test]
fn manager_starts_empty_and_stamps_increasing_ids() {
    let m: ServiceManager<u8, u32> = ServiceManager::new(5, 6);
    assert_eq!(m.worker_inboxes.len(), 0);
    assert_eq!(m.locks.len(), 0);
    assert_eq!(m.sender_to_manager, 5);
    let first = TxnId::new(&m.clock_origin);
    let mut later = TxnId::new(&m.clock_origin);
    let mut tries = 0u64;
    while later.time == first.time && tries < 100_000_000 {
        later = TxnId::new(&m.clock_origin);
        tries += 1;
    }
    assert!(later.time > first.time);
    assert!(later > first);
}

#[test]
fn txn_equality_is_by_id() {
    let t1 = txn(3, vec![write("a", Val::Int(1))]);
    let t2 = txn(3, vec![]);
    let t3 = txn(4, vec![write("a", Val::Int(1))]);
    assert!(t1 == t2);
    assert!(t1 != t3);
    let c = t1.clone();
    assert_eq!(c.key(), 3);
    assert_eq!(c.writes.len(), 1);
}

#[test]
fn compute_val_ignores_entry_order() {
    let r1 = replica(&[("a", Some(4)), ("b", Some(-7)), ("c", Some(10))]);
    let r2 = replica(&[("c", Some(10)), ("a", Some(4)), ("b", Some(-7))]);
    assert_eq!(DefWorker::<(), u32>::compute_val(&r1), Some(7));
    assert_eq!(DefWorker::<(), u32>::compute_val(&r2), Some(7));
}

#[test]
fn answers_accumulate_requirements() {
    // c := a, d := b
    let mut inboxes: NameMap<u32> = NameMap::new();
    for (i, n) in ["a", "b", "c", "d"].iter().enumerate() {
        inboxes.insert(n.to_string(), i as u32);
    }
    let t = txn(
        8,
        vec![write("c", Val::Var("a".to_string())), write("d", Val::Var("b".to_string()))],
    );
    let (mut progress, reads) = ServiceManager::<(), u32>::handle_transaction(&t, &inboxes);
    assert_eq!(progress.cnt, 2);
    assert_eq!(reads.iter().map(|r| r.0).collect::<Vec<u32>>(), vec![0, 1]);
    let answer_a: Message<u32> = Message::ReadVarResult {
        txn: txn(8, vec![]),
        name: "a".to_string(),
        result: Some(1),
        result_provide: set(&[2]),
    };
    let answer_b: Message<u32> = Message::ReadVarResult {
        txn: txn(8, vec![]),
        name: "b".to_string(),
        result: Some(5),
        result_provide: set(&[3, 4]),
    };
    assert!(!progress.record_result(&t, answer_b));
    assert_eq!(progress.cnt, 1);
    assert!(progress.record_result(&t, answer_a));
    assert_eq!(progress.requires_for_txn, set(&[2, 3, 4]));
    let writes = progress.write_requests(&t, &inboxes);
    let values: Vec<i32> = writes
        .iter()
        .map(|w| match &w.1 {
            Message::WriteVarRequest { write_val, .. } => *write_val,
            _ => panic!("writes are write requests"),
        })
        .collect();
    assert_eq!(values, vec![1, 5]);
    assert_eq!(writes.iter().map(|w| w.0).collect::<Vec<u32>>(), vec![2, 3]);
}

#[test]
fn subscribers_see_later_writes() {
    let mut w: VarWorker<(), u32> = VarWorker::new("a", (), 7);
    for sender in [42u32, 43, 42] {
        let out = VarWorker::handle_message(
            &mut w.worker,
            &mut w.value,
            &Message::SubscribeRequest { subscriber_name: "d".to_string(), sender },
            &mut w.applied_txns,
            &mut w.next_requires,
        );
        assert!(matches!(out, Outgoing::Nothing));
    }
    assert_eq!(w.worker.senders_to_succs, vec![42, 43, 42]);
    let out = VarWorker::handle_message(
        &mut w.worker,
        &mut w.value,
        &Message::WriteVarRequest { txn: txn(3, vec![]), write_val: 9, requires: set(&[1]) },
        &mut w.applied_txns,
        &mut w.next_requires,
    );
    let expected = PropaChange {
        name: "a".to_string(),
        new_val: 9,
        provides: set(&[3]),
        requires: set(&[1]),
    };
    match out {
        Outgoing::ToSubscribers(Message::PropaMessage { propa_change }) => assert!(propa_change == expected),
        _ => panic!("a write propagates to the subscribers"),
    }
    assert_eq!(w.worker.senders_to_succs, vec![42, 43, 42]);
}
