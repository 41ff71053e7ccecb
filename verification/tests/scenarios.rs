use node_rs::cluster::{fork, is_master, setup_master, worker, Cluster, ClusterSettingsBuilder, Worker};
use node_rs::host::{HostClass, HostRef, HostValue};
use node_rs::promise::{Outcome, Scheduler, Settlement};
use node_rs::timers::OneShotTimeout;
use node_rs::{set_timeout, Process, Promise, PromiseCallback};

fn worker_object(id: i32) -> HostValue {
    HostValue::Reference(HostRef { id, class: HostClass::Worker })
}

fn master() -> Cluster<PromiseCallback> {
    Cluster::new(HostValue::Bool(true), HostValue::Bool(false), &HostValue::Undefined, None)
}

fn fork_and_await(
    cluster: &mut Cluster<PromiseCallback>,
    scheduler: &mut Scheduler<&'static str>,
    count: usize,
) -> (Vec<Worker>, Promise) {
    let workers: Vec<Worker> =
        (0..count).map(|n| fork(cluster, &worker_object(n as i32), None)).collect();
    let promises: Vec<Promise> = workers
        .iter()
        .map(|forked| {
            Promise::new(scheduler, |resolve, _| {
                forked.on_exit(cluster, resolve);
            })
        })
        .collect();
    let all = Promise::all(scheduler, &promises);
    let done = all.then(scheduler, "all workers have exited");
    (workers, done)
}

fn report_exit(
    cluster: &mut Cluster<PromiseCallback>,
    scheduler: &mut Scheduler<&'static str>,
    exiting: Worker,
) {
    let notice = exiting.exited(cluster, &HostValue::Integer(0), &HostValue::Null);
    for resolve in notice.callbacks {
        resolve.complete(scheduler);
    }
}

fn run_jobs(scheduler: &mut Scheduler<&'static str>) -> Vec<&'static str> {
    let mut ran = Vec::new();
    while let Some(job) = scheduler.next_job() {
        ran.push(job.callback);
        scheduler.finish(job.promise, Outcome::Value(HostValue::Undefined));
    }
    ran
}

#[test]
fn four_workers_complete_all_with_the_fourth_exit() {
    let mut cluster = master();
    let mut scheduler = Scheduler::new();
    let (workers, done) = fork_and_await(&mut cluster, &mut scheduler, 4);
    assert_eq!(workers.len(), 4);
    let mut runs = 0;
    for (n, exiting) in workers.iter().enumerate() {
        assert_eq!(runs, 0);
        report_exit(&mut cluster, &mut scheduler, *exiting);
        let ran = run_jobs(&mut scheduler);
        if n < 3 {
            assert_eq!(ran, Vec::<&str>::new());
            assert_eq!(scheduler.state(done), Settlement::Pending);
        } else {
            assert_eq!(ran, vec!["all workers have exited"]);
        }
        runs += ran.len();
    }
    assert_eq!(runs, 1);
    assert_eq!(run_jobs(&mut scheduler), Vec::<&str>::new());
    for exiting in &workers {
        report_exit(&mut cluster, &mut scheduler, *exiting);
    }
    assert_eq!(run_jobs(&mut scheduler), Vec::<&str>::new());
    assert_eq!(scheduler.state(done), Settlement::Fulfilled(HostValue::Undefined));
}

#[test]
fn all_completes_with_the_last_exit_in_any_order() {
    for count in 1..7usize {
        for first in 0..count {
            let mut cluster = master();
            let mut scheduler = Scheduler::new();
            let (workers, done) = fork_and_await(&mut cluster, &mut scheduler, count);
            let order: Vec<usize> = (0..count).map(|n| (first + n * 5) % count).collect();
            let mut distinct = order.clone();
            distinct.sort();
            distinct.dedup();
            if distinct.len() != count {
                continue;
            }
            let mut runs = 0;
            for (step, n) in order.iter().enumerate() {
                report_exit(&mut cluster, &mut scheduler, workers[*n]);
                runs += run_jobs(&mut scheduler).len();
                assert_eq!(runs, if step + 1 == count { 1 } else { 0 });
            }
            assert_eq!(scheduler.state(done), Settlement::Fulfilled(HostValue::Undefined));
        }
    }
}

#[test]
fn all_over_no_workers_completes_at_once() {
    let mut cluster = master();
    let mut scheduler = Scheduler::new();
    let (workers, done) = fork_and_await(&mut cluster, &mut scheduler, 0);
    assert!(workers.is_empty());
    assert_eq!(run_jobs(&mut scheduler), vec!["all workers have exited"]);
    assert_eq!(scheduler.state(done), Settlement::Fulfilled(HostValue::Undefined));
}

#[test]
fn a_timer_cleared_at_once_never_calls_back() {
    let mut calls = 0;
    let mut timer = OneShotTimeout::new(|| calls += 1, 1000);
    timer.clear();
    for _ in 0..3 {
        if let Some(mut callback) = timer.fire() {
            callback();
        }
    }
    drop(timer);
    assert_eq!(calls, 0);
}

#[test]
fn built_settings_decide_what_later_forks_launch() {
    let mut cluster = master();
    let path = "/srv/app/worker.js".to_string();
    let settings = ClusterSettingsBuilder::new().exec(path.clone()).build();
    setup_master(&mut cluster, settings);
    for n in 0..3 {
        let forked = fork(&mut cluster, &worker_object(n), None);
        assert_eq!(cluster.launched_with(forked), Some(path.as_str()));
    }
    assert_eq!(cluster.exec(), Some(path.as_str()));
}

#[test]
fn the_master_exits_a_second_after_its_workers() {
    let mut cluster = master();
    assert!(is_master(&cluster));
    assert_eq!(worker(&cluster), None);
    let mut scheduler: Scheduler<&'static str> = Scheduler::new();
    let (workers, done) = fork_and_await(&mut cluster, &mut scheduler, 2);
    for exiting in &workers {
        report_exit(&mut cluster, &mut scheduler, *exiting);
    }
    let job = scheduler.next_job().expect("every worker has exited");
    assert_eq!(job.callback, "all workers have exited");
    let mut resolve_later = None;
    let later = Promise::new(&mut scheduler, |resolve, _| resolve_later = Some(resolve));
    let mut timer = set_timeout(resolve_later.unwrap(), 1000);
    scheduler.finish(job.promise, Outcome::Chained(later));
    assert_eq!(scheduler.state(done), Settlement::Pending);
    assert!(timer.keeps_alive());
    let due = timer.fire().expect("the timer was pending");
    due.complete(&mut scheduler);
    assert_eq!(scheduler.state(done), Settlement::Fulfilled(HostValue::Undefined));
    assert!(!timer.keeps_alive());
}

#[test]
fn a_worker_disconnects_a_second_after_its_start() {
    let object = HostValue::Reference(HostRef { id: 1, class: HostClass::Object });
    let process = Process::from_value(&object, HostValue::Integer(321), HostValue::Undefined);
    let mut cluster: Cluster<PromiseCallback> =
        Cluster::new(HostValue::Bool(false), HostValue::Bool(true), &worker_object(2), process);
    let current = worker(&cluster).expect("this process is a worker");
    assert_eq!(current.process(&cluster).pid(), 321);
    let mut timer = set_timeout(current, 1000);
    assert!(!cluster.is_disconnecting(current));
    let due = timer.fire().expect("the timer was pending");
    due.disconnect(&mut cluster);
    assert!(cluster.is_disconnecting(current));
}
