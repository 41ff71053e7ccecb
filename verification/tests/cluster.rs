use node_rs::cluster::{
    cluster, fork, initialize, is_master, is_worker, setup_master, worker, Cluster,
    ClusterSettingsBuilder, Worker,
};
use node_rs::host::{HostClass, HostRef, HostValue};
use node_rs::{Process, Registry};

fn object(id: i32) -> HostValue {
    HostValue::Reference(HostRef { id, class: HostClass::Object })
}

fn worker_object(id: i32) -> HostValue {
    HostValue::Reference(HostRef { id, class: HostClass::Worker })
}

fn process_of(pid: i64) -> Option<Process> {
    Process::from_value(&object(1000), HostValue::Integer(pid), HostValue::Text("/".to_string()))
}

fn master() -> Cluster<u32> {
    Cluster::new(HostValue::Bool(true), HostValue::Bool(false), &HostValue::Undefined, None)
}

#[test]
fn the_cluster_module_is_loaded_once() {
    let mut registry = Registry::new();
    let module = initialize(&mut registry, &object(1), &object(2));
    assert_eq!(module, Some(HostRef { id: 2, class: HostClass::Object }));
    assert_eq!(initialize(&mut registry, &object(3), &object(4)), module);
    assert_eq!(cluster(&mut registry, &HostValue::Undefined, &HostValue::Undefined), module.unwrap());
    assert_eq!(registry.cluster(), module);
    assert_eq!(registry.child_process(), None);
    assert_eq!(registry.private(), Some(HostRef { id: 1, class: HostClass::Object }));
}

#[test]
fn a_cluster_module_that_is_missing_is_reported() {
    let mut registry = Registry::new();
    assert_eq!(initialize(&mut registry, &object(1), &HostValue::Null), None);
    assert_eq!(registry.cluster(), None);
    let module = cluster(&mut registry, &HostValue::Undefined, &object(2));
    assert_eq!(module, HostRef { id: 2, class: HostClass::Object });
}

#[test]
fn the_master_is_no_worker() {
    let cluster = master();
    assert!(cluster.is_coherent());
    assert!(is_master(&cluster));
    assert!(!is_worker(&cluster));
    assert_eq!(worker(&cluster), None);
}

#[test]
fn a_worker_is_no_master() {
    let cluster: Cluster<u32> = Cluster::new(
        HostValue::Bool(false),
        HostValue::Bool(true),
        &worker_object(7),
        process_of(4711),
    );
    assert!(cluster.is_coherent());
    assert!(!is_master(&cluster));
    assert!(is_worker(&cluster));
    let current = worker(&cluster).expect("a worker has a worker object");
    assert_eq!(current, Worker { slot: 0 });
    assert_eq!(current.process(&cluster).pid(), 4711);
}

#[test]
fn roles_are_complementary_in_every_coherent_cluster() {
    for (is_master_member, is_worker_member, object) in [
        (true, false, HostValue::Undefined),
        (true, false, HostValue::Null),
        (false, true, worker_object(1)),
    ] {
        let cluster: Cluster<u32> = Cluster::new(
            HostValue::Bool(is_master_member),
            HostValue::Bool(is_worker_member),
            &object,
            None,
        );
        assert!(cluster.is_coherent());
        assert_ne!(is_master(&cluster), is_worker(&cluster));
        assert_eq!(worker(&cluster).is_some(), is_worker(&cluster));
    }
}

#[test]
fn a_host_that_contradicts_itself_is_not_coherent() {
    let both: Cluster<u32> =
        Cluster::new(HostValue::Bool(true), HostValue::Bool(true), &HostValue::Undefined, None);
    assert!(!both.is_coherent());
    let neither: Cluster<u32> =
        Cluster::new(HostValue::Bool(false), HostValue::Bool(false), &HostValue::Undefined, None);
    assert!(!neither.is_coherent());
    let worker_without_object: Cluster<u32> =
        Cluster::new(HostValue::Bool(false), HostValue::Bool(true), &HostValue::Undefined, None);
    assert!(!worker_without_object.is_coherent());
    let master_with_object: Cluster<u32> =
        Cluster::new(HostValue::Bool(true), HostValue::Bool(false), &worker_object(1), None);
    assert!(!master_with_object.is_coherent());
    let no_booleans: Cluster<u32> =
        Cluster::new(HostValue::Integer(1), HostValue::Integer(0), &HostValue::Undefined, None);
    assert!(!no_booleans.is_coherent());
    assert_eq!(no_booleans.master_member().as_bool(), None);
    assert_eq!(no_booleans.worker_member().as_bool(), None);
}

#[test]
fn an_object_that_is_no_worker_is_not_the_current_worker() {
    let cluster: Cluster<u32> =
        Cluster::new(HostValue::Bool(false), HostValue::Bool(true), &object(7), None);
    assert_eq!(worker(&cluster), None);
    assert_eq!(cluster.len(), 0);
}

#[test]
fn a_builder_starts_empty() {
    let settings = ClusterSettingsBuilder::new().build();
    assert_eq!(settings.exec(), None);
}

#[test]
fn a_builder_keeps_the_executable() {
    let builder = ClusterSettingsBuilder::new().exec("/srv/app/worker.js".to_string());
    let settings = builder.build();
    assert_eq!(settings.exec(), Some("/srv/app/worker.js"));
    assert_eq!(builder.build(), settings);
    assert_eq!(settings.clone(), settings);
}

#[test]
fn a_later_executable_replaces_an_earlier_one() {
    let settings = ClusterSettingsBuilder::new()
        .exec("first.js".to_string())
        .exec("second.js".to_string())
        .build();
    assert_eq!(settings.exec(), Some("second.js"));
}

#[test]
fn workers_are_forked_with_the_executable_that_is_set() {
    let mut cluster = master();
    setup_master(
        &mut cluster,
        ClusterSettingsBuilder::new().exec("/srv/app/worker.js".to_string()).build(),
    );
    assert_eq!(cluster.exec(), Some("/srv/app/worker.js"));
    let first = fork(&mut cluster, &worker_object(1), process_of(101));
    let second = fork(&mut cluster, &worker_object(2), process_of(102));
    assert_eq!(cluster.launched_with(first), Some("/srv/app/worker.js"));
    assert_eq!(cluster.launched_with(second), Some("/srv/app/worker.js"));
}

#[test]
fn settings_do_not_reach_workers_forked_before() {
    let mut cluster = master();
    let early = fork(&mut cluster, &worker_object(1), None);
    setup_master(&mut cluster, ClusterSettingsBuilder::new().exec("late.js".to_string()).build());
    let late = fork(&mut cluster, &worker_object(2), None);
    assert_eq!(cluster.launched_with(early), None);
    assert_eq!(cluster.launched_with(late), Some("late.js"));
}

#[test]
fn settings_that_set_nothing_change_nothing() {
    let mut cluster = master();
    setup_master(&mut cluster, ClusterSettingsBuilder::new().exec("worker.js".to_string()).build());
    setup_master(&mut cluster, ClusterSettingsBuilder::new().build());
    assert_eq!(cluster.exec(), Some("worker.js"));
    setup_master(&mut cluster, ClusterSettingsBuilder::new().exec("other.js".to_string()).build());
    assert_eq!(cluster.exec(), Some("other.js"));
}

#[test]
fn fork_hands_out_workers_in_order() {
    let mut cluster = master();
    assert_eq!(cluster.len(), 0);
    for n in 0..5 {
        let forked = fork(&mut cluster, &worker_object(n as i32), process_of(100 + n as i64));
        assert_eq!(forked, Worker { slot: n });
        assert!(cluster.contains(forked));
        assert_eq!(cluster.reference(forked), HostRef { id: n as i32, class: HostClass::Worker });
        assert!(!cluster.has_exited(forked));
        assert!(!cluster.is_disconnecting(forked));
        assert_eq!(cluster.subscribers(forked), 0);
        assert_eq!(forked.process(&cluster).pid(), 100 + n as i32);
    }
    assert_eq!(cluster.len(), 5);
    assert!(!cluster.contains(Worker { slot: 5 }));
}

#[test]
fn a_child_process_object_serves_as_the_process_of_a_worker() {
    let mut cluster = master();
    let child = HostValue::Reference(HostRef { id: 30, class: HostClass::ChildProcess });
    let process = Process::from_value(&child, HostValue::Integer(555), HostValue::Undefined);
    let forked = fork(&mut cluster, &worker_object(1), process);
    let seen = forked.process(&cluster);
    assert_eq!(seen.pid(), 555);
    assert_eq!(seen.reference(), HostRef { id: 30, class: HostClass::ChildProcess });
    assert_eq!(seen.try_cwd(), None);
}

#[test]
fn disconnect_is_noted_for_the_one_worker() {
    let mut cluster = master();
    let first = fork(&mut cluster, &worker_object(1), None);
    let second = fork(&mut cluster, &worker_object(2), None);
    second.disconnect(&mut cluster);
    assert!(!cluster.is_disconnecting(first));
    assert!(cluster.is_disconnecting(second));
    assert!(!cluster.has_exited(second));
}

#[test]
fn exit_callbacks_are_handed_out_in_order_of_registration() {
    let mut cluster = master();
    let forked = fork(&mut cluster, &worker_object(1), None);
    forked.on_exit(&mut cluster, 10);
    forked.on_exit(&mut cluster, 20);
    forked.on_exit(&mut cluster, 30);
    assert_eq!(cluster.subscribers(forked), 3);
    let notice = forked.exited(&mut cluster, &HostValue::Integer(0), &HostValue::Null);
    assert_eq!(notice.code, 0);
    assert_eq!(notice.signal, None);
    assert_eq!(notice.callbacks, vec![10, 20, 30]);
    assert!(cluster.has_exited(forked));
    assert_eq!(cluster.subscribers(forked), 0);
}

#[test]
fn an_exit_callback_is_handed_out_once() {
    let mut cluster = master();
    let forked = fork(&mut cluster, &worker_object(1), None);
    forked.on_exit(&mut cluster, 10);
    let first = forked.exited(&mut cluster, &HostValue::Integer(1), &HostValue::Null);
    assert_eq!(first.callbacks, vec![10]);
    let second = forked.exited(&mut cluster, &HostValue::Integer(1), &HostValue::Null);
    assert_eq!(second.callbacks, Vec::<u32>::new());
}

#[test]
fn a_callback_registered_after_the_exit_is_not_kept() {
    let mut cluster = master();
    let forked = fork(&mut cluster, &worker_object(1), None);
    forked.exited(&mut cluster, &HostValue::Integer(0), &HostValue::Null);
    forked.on_exit(&mut cluster, 10);
    assert_eq!(cluster.subscribers(forked), 0);
    let again = forked.exited(&mut cluster, &HostValue::Integer(0), &HostValue::Null);
    assert_eq!(again.callbacks, Vec::<u32>::new());
}

#[test]
fn the_exit_of_one_worker_leaves_the_others_waiting() {
    let mut cluster = master();
    let first = fork(&mut cluster, &worker_object(1), None);
    let second = fork(&mut cluster, &worker_object(2), None);
    first.on_exit(&mut cluster, 1);
    second.on_exit(&mut cluster, 2);
    let notice = second.exited(&mut cluster, &HostValue::Integer(3), &HostValue::Undefined);
    assert_eq!(notice.callbacks, vec![2]);
    assert!(!cluster.has_exited(first));
    assert_eq!(cluster.subscribers(first), 1);
}

#[test]
fn the_signal_is_present_exactly_for_a_string() {
    let signals = vec![
        (HostValue::Text("SIGTERM".to_string()), Some("SIGTERM".to_string())),
        (HostValue::Text(String::new()), Some(String::new())),
        (HostValue::Null, None),
        (HostValue::Undefined, None),
        (HostValue::Integer(15), None),
        (HostValue::Bool(true), None),
    ];
    for (signal, expected) in signals {
        let mut cluster = master();
        let forked = fork(&mut cluster, &worker_object(1), None);
        let notice = forked.exited(&mut cluster, &HostValue::Integer(143), &signal);
        assert_eq!(notice.code, 143);
        assert_eq!(notice.signal, expected);
    }
}

#[test]
fn the_exit_code_is_the_exact_number() {
    for code in [0, 1, 255, -1, i32::MAX] {
        let mut cluster = master();
        let forked = fork(&mut cluster, &worker_object(1), None);
        let notice = forked.exited(&mut cluster, &HostValue::Integer(code as i64), &HostValue::Null);
        assert_eq!(notice.code, code);
    }
}

#[test]
fn a_worker_without_a_process_member_has_no_process() {
    let mut cluster = master();
    let bare = fork(&mut cluster, &worker_object(1), None);
    let full = fork(&mut cluster, &worker_object(2), process_of(77));
    assert_eq!(bare.try_process(&cluster), None);
    assert_eq!(full.try_process(&cluster).map(|process| process.pid()), Some(77));
}
