use kuboard::watch_events::ResourceKind;
use kuboard::watch_events::{error_channel, event_channel};
use kuboard::watch_lifecycle::Watcher;
use kuboard::watch_lifecycle::WatcherRegistry;

use std::time::Duration;

fn runtime() -> tokio::runtime::Runtime {
    tokio::runtime::Builder::new_multi_thread()
        .worker_threads(1)
        .enable_all()
        .build()
        .unwrap()
}

/// A background task that runs until aborted, plus a witness channel whose
/// sender it owns: when the task dies, the witness closes.
fn spawn_idle_task(
    rt: &tokio::runtime::Runtime,
) -> (
    tokio::task::JoinHandle<()>,
    tokio::sync::mpsc::Sender<()>,
    tokio::sync::mpsc::Receiver<()>,
) {
    let (stop_tx, mut stop_rx) = tokio::sync::mpsc::channel::<()>(1);
    let (witness_tx, witness_rx) = tokio::sync::mpsc::channel::<()>(1);
    let handle = rt.spawn(async move {
        let _witness = witness_tx;
        let _ = stop_rx.recv().await;
    });
    (handle, stop_tx, witness_rx)
}

fn wait_for_close(rt: &tokio::runtime::Runtime, mut rx: tokio::sync::mpsc::Receiver<()>) {
    rt.block_on(async {
        tokio::time::timeout(Duration::from_secs(5), rx.recv())
            .await
            .expect("task did not terminate in time");
    });
}

#[test]
fn stop_on_idle_watcher_is_a_no_op() {
    let mut w = Watcher::new();
    assert!(!w.is_active());
    w.stop();
    assert!(!w.is_active());
    w.stop();
    assert!(!w.is_active());
}

#[test]
fn start_then_stop_terminates_the_task() {
    let rt = runtime();
    let mut w = Watcher::new();
    let (handle, stop_tx, witness) = spawn_idle_task(&rt);
    w.start(handle, stop_tx);
    assert!(w.is_active());
    w.stop();
    assert!(!w.is_active());
    wait_for_close(&rt, witness);
}

#[test]
fn restart_leaves_exactly_one_live_task() {
    let rt = runtime();
    let mut w = Watcher::new();
    let (h1, tx1, witness1) = spawn_idle_task(&rt);
    w.start(h1, tx1);
    assert!(w.is_active());
    let (h2, tx2, mut witness2) = spawn_idle_task(&rt);
    w.start(h2, tx2);
    assert!(w.is_active());
    // The first task is fully terminated, not leaked.
    wait_for_close(&rt, witness1);
    // The second is still alive: its witness must stay open and time out.
    let second_probe = rt.block_on(async {
        tokio::time::timeout(Duration::from_millis(200), witness2.recv()).await
    });
    assert!(second_probe.is_err());
    w.stop();
    wait_for_close(&rt, witness2);
}

#[test]
fn dropping_a_watcher_terminates_its_task() {
    let rt = runtime();
    let witness = {
        let mut w = Watcher::new();
        let (handle, stop_tx, witness) = spawn_idle_task(&rt);
        w.start(handle, stop_tx);
        witness
    };
    wait_for_close(&rt, witness);
}

#[test]
fn start_watch_without_client_errors_and_spawns_nothing() {
    let mut reg = WatcherRegistry::new();
    let spawned = std::cell::Cell::new(false);
    let r = reg.start_watch(ResourceKind::Pod, false, || {
        spawned.set(true);
        panic!("must not spawn without a client");
    });
    assert_eq!(
        r.unwrap_err(),
        "No active context. Please set a context first."
    );
    assert!(!spawned.get());
    assert!(!reg.is_active(ResourceKind::Pod));
}

#[test]
fn start_watch_and_stop_watch_acknowledge_per_kind() {
    let rt = runtime();
    let mut reg = WatcherRegistry::new();
    let r = reg.start_watch(ResourceKind::Deployment, true, || {
        let (handle, stop_tx, _witness) = spawn_idle_task(&rt);
        (handle, stop_tx)
    });
    assert_eq!(r.unwrap(), "Deployment watch started");
    assert!(reg.is_active(ResourceKind::Deployment));
    assert!(!reg.is_active(ResourceKind::Pod));
    let ack = reg.stop_watch(ResourceKind::Deployment);
    assert_eq!(ack, "Deployment watch stopped");
    assert!(!reg.is_active(ResourceKind::Deployment));
    let ack = reg.stop_watch(ResourceKind::CronJob);
    assert_eq!(ack, "CronJob watch stopped");
}

#[test]
fn channel_names_follow_the_wire_contract() {
    assert_eq!(event_channel(ResourceKind::Pod), "pod-watch-event");
    assert_eq!(error_channel(ResourceKind::Pod), "pod-watch-error");
    assert_eq!(
        event_channel(ResourceKind::Deployment),
        "deployment-watch-event"
    );
    assert_eq!(
        event_channel(ResourceKind::StatefulSet),
        "statefulset-watch-event"
    );
    assert_eq!(
        event_channel(ResourceKind::DaemonSet),
        "daemonset-watch-event"
    );
    assert_eq!(
        event_channel(ResourceKind::ReplicaSet),
        "replicaset-watch-event"
    );
    assert_eq!(event_channel(ResourceKind::Service), "service-watch-event");
    assert_eq!(error_channel(ResourceKind::CronJob), "cronjob-watch-error");
}
