//! Lifecycle of the per-kind watchers.
//!
//! A watcher is either idle (no background task, no cancellation sender) or
//! running (exactly one of each, paired). Stopping signals the task and
//! aborts it; starting first stops whatever ran before, so a watcher never
//! owns more than one live task. The registry holds one watcher per
//! resource kind and routes start/stop requests; starting requires an
//! active cluster client and fails with a descriptive error without one.

use vstd::prelude::*;

use crate::watch_events::ResourceKind;

verus! {

#[verifier::external_type_specification]
#[verifier::external_body]
pub struct ExJoinError(tokio::task::JoinError);

#[verifier::external_type_specification]
#[verifier::external_body]
#[verifier::reject_recursive_types(T)]
pub struct ExJoinHandle<T>(tokio::task::JoinHandle<T>);

#[verifier::external_type_specification]
#[verifier::external_body]
#[verifier::reject_recursive_types(T)]
pub struct ExMpscSender<T>(tokio::sync::mpsc::Sender<T>);

/// Relies on Option::take, which moves the content out and leaves `None`,
/// never unwinding — stated here so teardown can run on drop.
#[verifier::external_body]
fn take_slot<T>(slot: &mut Option<T>) -> (r: Option<T>)
    ensures
        r == *old(slot),
        *final(slot) is None,
    opens_invariants none
    no_unwind
{
    slot.take()
}

/// Relies on tokio::sync::mpsc::Sender::try_send: delivers the stop signal
/// if the channel has room and a receiver; a failed send is discarded, as
/// the signal is best-effort and the task is aborted right after.
#[verifier::external_body]
fn send_stop_signal(tx: &tokio::sync::mpsc::Sender<()>)
    opens_invariants none
    no_unwind
{
    let _ = tx.try_send(());
}

/// Relies on tokio::task::JoinHandle::abort: cancels the owned background
/// task at its next suspension point.
#[verifier::external_body]
fn abort_task(handle: &tokio::task::JoinHandle<()>)
    opens_invariants none
    no_unwind
{
    handle.abort();
}

/// Owner of at most one background watch task for one resource kind.
///
/// A task that exits on its own (its stream ended) does not clear its
/// owner's slot: `is_active` keeps answering true until an explicit stop or
/// restart. This keeps the bookkeeping in one place — only start and stop
/// transitions touch it.
pub struct Watcher {
    pub handle: Option<tokio::task::JoinHandle<()>>,
    pub stop_tx: Option<tokio::sync::mpsc::Sender<()>>,
}

impl Watcher {
    /// No task, no cancellation sender.
    pub open spec fn is_idle(self) -> bool {
        self.handle is None && self.stop_tx is None
    }

    /// Exactly one task, with its paired cancellation sender.
    pub open spec fn is_running(self) -> bool {
        self.handle is Some && self.stop_tx is Some
    }

    /// A watcher is always one of the two; there is no other state.
    pub open spec fn wf(self) -> bool {
        self.is_idle() || self.is_running()
    }

    /// A fresh, idle watcher, as created at application start.
    pub fn new() -> (w: Watcher)
        ensures
            w.is_idle(),
            w.wf(),
    {
        Watcher { handle: None, stop_tx: None }
    }

    /// Whether a background task is currently owned.
    pub fn is_active(&self) -> (r: bool)
        ensures
            r == (self.handle is Some),
    {
        self.handle.is_some()
    }

    /// Signals the running task to stop, if any, aborts it, and returns the
    /// watcher to idle. On an idle watcher this is a no-op: it never errors
    /// and changes nothing.
    pub fn stop(&mut self)
        ensures
            final(self).is_idle(),
            final(self).wf(),
            old(self).is_idle() ==> *final(self) == *old(self),
        opens_invariants none
        no_unwind
    {
        if let Some(tx) = take_slot(&mut self.stop_tx) {
            send_stop_signal(&tx);
        }
        if let Some(handle) = take_slot(&mut self.handle) {
            abort_task(&handle);
        }
    }

    /// Installs a freshly spawned task and its cancellation sender. Any
    /// task owned before is first signalled and aborted, so exactly one
    /// live task is owned afterwards.
    pub fn start(
        &mut self,
        handle: tokio::task::JoinHandle<()>,
        stop_tx: tokio::sync::mpsc::Sender<()>,
    )
        ensures
            final(self).handle == Some(handle),
            final(self).stop_tx == Some(stop_tx),
            final(self).is_running(),
            final(self).wf(),
    {
        self.stop();
        self.handle = Some(handle);
        self.stop_tx = Some(stop_tx);
    }
}

impl Drop for Watcher {
    /// A watcher never leaks its task past its own lifetime: dropping it
    /// signals and aborts whatever still runs.
    fn drop(&mut self)
        opens_invariants none
        no_unwind
    {
        self.stop();
    }
}

/// The error reported when a watch is started with no active cluster
/// client.
pub open spec fn spec_no_active_context_text() -> Seq<char> {
    "No active context. Please set a context first."@
}

/// Builds the error reported when no cluster client is active.
pub fn no_active_context_text() -> (r: String)
    ensures
        r@ == spec_no_active_context_text(),
{
    String::from_str("No active context. Please set a context first.")
}

/// The acknowledgment a successful start returns, per kind.
pub open spec fn spec_start_message(kind: ResourceKind) -> Seq<char> {
    match kind {
        ResourceKind::Pod => "Pod watch started"@,
        ResourceKind::Deployment => "Deployment watch started"@,
        ResourceKind::StatefulSet => "StatefulSet watch started"@,
        ResourceKind::DaemonSet => "DaemonSet watch started"@,
        ResourceKind::ReplicaSet => "ReplicaSet watch started"@,
        ResourceKind::Service => "Service watch started"@,
        ResourceKind::CronJob => "CronJob watch started"@,
    }
}

/// The acknowledgment a stop returns, per kind.
pub open spec fn spec_stop_message(kind: ResourceKind) -> Seq<char> {
    match kind {
        ResourceKind::Pod => "Pod watch stopped"@,
        ResourceKind::Deployment => "Deployment watch stopped"@,
        ResourceKind::StatefulSet => "StatefulSet watch stopped"@,
        ResourceKind::DaemonSet => "DaemonSet watch stopped"@,
        ResourceKind::ReplicaSet => "ReplicaSet watch stopped"@,
        ResourceKind::Service => "Service watch stopped"@,
        ResourceKind::CronJob => "CronJob watch stopped"@,
    }
}

fn start_message(kind: ResourceKind) -> (r: String)
    ensures
        r@ == spec_start_message(kind),
{
    match kind {
        ResourceKind::Pod => String::from_str("Pod watch started"),
        ResourceKind::Deployment => String::from_str("Deployment watch started"),
        ResourceKind::StatefulSet => String::from_str("StatefulSet watch started"),
        ResourceKind::DaemonSet => String::from_str("DaemonSet watch started"),
        ResourceKind::ReplicaSet => String::from_str("ReplicaSet watch started"),
        ResourceKind::Service => String::from_str("Service watch started"),
        ResourceKind::CronJob => String::from_str("CronJob watch started"),
    }
}

fn stop_message(kind: ResourceKind) -> (r: String)
    ensures
        r@ == spec_stop_message(kind),
{
    match kind {
        ResourceKind::Pod => String::from_str("Pod watch stopped"),
        ResourceKind::Deployment => String::from_str("Deployment watch stopped"),
        ResourceKind::StatefulSet => String::from_str("StatefulSet watch stopped"),
        ResourceKind::DaemonSet => String::from_str("DaemonSet watch stopped"),
        ResourceKind::ReplicaSet => String::from_str("ReplicaSet watch stopped"),
        ResourceKind::Service => String::from_str("Service watch stopped"),
        ResourceKind::CronJob => String::from_str("CronJob watch stopped"),
    }
}

/// One watcher per supported resource kind; each kind's watcher is fully
/// independent of the others.
pub struct WatcherRegistry {
    pub pod: Watcher,
    pub deployment: Watcher,
    pub statefulset: Watcher,
    pub daemonset: Watcher,
    pub replicaset: Watcher,
    pub service: Watcher,
    pub cronjob: Watcher,
}

impl WatcherRegistry {
    /// The watcher a kind's requests are routed to.
    pub open spec fn spec_watcher(self, kind: ResourceKind) -> Watcher {
        match kind {
            ResourceKind::Pod => self.pod,
            ResourceKind::Deployment => self.deployment,
            ResourceKind::StatefulSet => self.statefulset,
            ResourceKind::DaemonSet => self.daemonset,
            ResourceKind::ReplicaSet => self.replicaset,
            ResourceKind::Service => self.service,
            ResourceKind::CronJob => self.cronjob,
        }
    }

    /// A registry of idle watchers, as created at application start.
    pub fn new() -> (r: WatcherRegistry)
        ensures
            forall|kind: ResourceKind| #[trigger] r.spec_watcher(kind).is_idle(),
    {
        WatcherRegistry {
            pod: Watcher::new(),
            deployment: Watcher::new(),
            statefulset: Watcher::new(),
            daemonset: Watcher::new(),
            replicaset: Watcher::new(),
            service: Watcher::new(),
            cronjob: Watcher::new(),
        }
    }

    /// Whether the kind's watcher currently owns a task.
    pub fn is_active(&self, kind: ResourceKind) -> (r: bool)
        ensures
            r == (self.spec_watcher(kind).handle is Some),
    {
        match kind {
            ResourceKind::Pod => self.pod.is_active(),
            ResourceKind::Deployment => self.deployment.is_active(),
            ResourceKind::StatefulSet => self.statefulset.is_active(),
            ResourceKind::DaemonSet => self.daemonset.is_active(),
            ResourceKind::ReplicaSet => self.replicaset.is_active(),
            ResourceKind::Service => self.service.is_active(),
            ResourceKind::CronJob => self.cronjob.is_active(),
        }
    }

    /// Starts the watch for a kind. Without an active cluster client, no
    /// task is spawned, nothing changes, and the caller gets the
    /// descriptive error. With one, `spawn` provides the freshly spawned
    /// task and its cancellation sender; any task running before is stopped
    /// first, so the kind's watcher owns exactly one live task afterwards.
    /// Watchers of other kinds are untouched.
    pub fn start_watch<F: FnOnce() -> (
        tokio::task::JoinHandle<()>,
        tokio::sync::mpsc::Sender<()>,
    )>(
        &mut self,
        kind: ResourceKind,
        client_present: bool,
        spawn: F,
    ) -> (r: Result<String, String>)
        requires
            call_requires(spawn, ()),
        ensures
            r is Ok <==> client_present,
            !client_present ==> *final(self) == *old(self) && r->Err_0@
                == spec_no_active_context_text(),
            client_present ==> final(self).spec_watcher(kind).is_running() && r->Ok_0@
                == spec_start_message(kind),
            forall|other: ResourceKind|
                other != kind ==> #[trigger] final(self).spec_watcher(other) == old(
                    self,
                ).spec_watcher(other),
    {
        if !client_present {
            return Err(no_active_context_text());
        }
        let (handle, stop_tx) = spawn();
        match kind {
            ResourceKind::Pod => self.pod.start(handle, stop_tx),
            ResourceKind::Deployment => self.deployment.start(handle, stop_tx),
            ResourceKind::StatefulSet => self.statefulset.start(handle, stop_tx),
            ResourceKind::DaemonSet => self.daemonset.start(handle, stop_tx),
            ResourceKind::ReplicaSet => self.replicaset.start(handle, stop_tx),
            ResourceKind::Service => self.service.start(handle, stop_tx),
            ResourceKind::CronJob => self.cronjob.start(handle, stop_tx),
        }
        Ok(start_message(kind))
    }

    /// Stops the watch for a kind and acknowledges; always succeeds. On an
    /// idle watcher this changes nothing. Watchers of other kinds are
    /// untouched.
    pub fn stop_watch(&mut self, kind: ResourceKind) -> (r: String)
        ensures
            final(self).spec_watcher(kind).is_idle(),
            old(self).spec_watcher(kind).is_idle() ==> *final(self) == *old(self),
            r@ == spec_stop_message(kind),
            forall|other: ResourceKind|
                other != kind ==> #[trigger] final(self).spec_watcher(other) == old(
                    self,
                ).spec_watcher(other),
    {
        match kind {
            ResourceKind::Pod => self.pod.stop(),
            ResourceKind::Deployment => self.deployment.stop(),
            ResourceKind::StatefulSet => self.statefulset.stop(),
            ResourceKind::DaemonSet => self.daemonset.stop(),
            ResourceKind::ReplicaSet => self.replicaset.stop(),
            ResourceKind::Service => self.service.stop(),
            ResourceKind::CronJob => self.cronjob.stop(),
        }
        stop_message(kind)
    }
}

} // verus!
