//! Event vocabulary of the resource watch subsystem.
//!
//! A running watch task consumes a stream of items (notifications, transient
//! faults, end of stream) for one resource kind and emits classified watch
//! events to the UI event bus. The types here carry, as plain values, what
//! the classification logic reads of a resource object: its namespace and
//! name. The full object travels alongside in the unverified shell.

use vstd::prelude::*;

verus! {

/// The three classifications a watch notification can receive.
#[derive(Debug, Clone, Copy, PartialEq, Eq, Structural)]
pub enum WatchEventType {
    Added,
    Modified,
    Deleted,
}

/// The resource kinds that have a watcher of their own.
#[derive(Debug, Clone, Copy, PartialEq, Eq, Structural)]
pub enum ResourceKind {
    Pod,
    Deployment,
    StatefulSet,
    DaemonSet,
    ReplicaSet,
    Service,
    CronJob,
}

/// What the watch logic reads of a resource object: the metadata fields
/// that make up its composite key. Either field may be absent on the wire.
#[derive(Debug)]
pub struct ObjectMeta {
    pub namespace: Option<String>,
    pub name: Option<String>,
}

impl Clone for ObjectMeta {
    fn clone(&self) -> (res: Self)
        ensures
            res@ == self@,
    {
        ObjectMeta {
            namespace: match &self.namespace {
                Some(ns) => Some(ns.clone()),
                None => None,
            },
            name: match &self.name {
                Some(n) => Some(n.clone()),
                None => None,
            },
        }
    }
}

/// Mathematical image of [`ObjectMeta`].
pub ghost struct MetaView {
    pub namespace: Option<Seq<char>>,
    pub name: Option<Seq<char>>,
}

impl View for ObjectMeta {
    type V = MetaView;

    open spec fn view(&self) -> MetaView {
        MetaView { namespace: self.namespace.deep_view(), name: self.name.deep_view() }
    }
}

impl DeepView for ObjectMeta {
    type V = MetaView;

    open spec fn deep_view(&self) -> MetaView {
        self.view()
    }
}

/// One raw change notification, as the change stream adapter delivers it.
/// The initialization markers exist only for the adapter's own startup
/// bookkeeping and never produce a watch event.
#[derive(Debug)]
pub enum Notification {
    Upsert(ObjectMeta),
    Remove(ObjectMeta),
    InitStart,
    InitUpsert(ObjectMeta),
    InitDone,
}

/// Mathematical image of [`Notification`].
pub ghost enum NotificationView {
    Upsert(MetaView),
    Remove(MetaView),
    InitStart,
    InitUpsert(MetaView),
    InitDone,
}

impl View for Notification {
    type V = NotificationView;

    open spec fn view(&self) -> NotificationView {
        match self {
            Notification::Upsert(m) => NotificationView::Upsert(m@),
            Notification::Remove(m) => NotificationView::Remove(m@),
            Notification::InitStart => NotificationView::InitStart,
            Notification::InitUpsert(m) => NotificationView::InitUpsert(m@),
            Notification::InitDone => NotificationView::InitDone,
        }
    }
}

impl DeepView for Notification {
    type V = NotificationView;

    open spec fn deep_view(&self) -> NotificationView {
        self.view()
    }
}

/// One item of the subscription stream: a notification, a transient fault
/// (the stream itself goes on), or the end of the stream.
#[derive(Debug)]
pub enum StreamItem {
    Notice(Notification),
    Fault(String),
    End,
}

/// Mathematical image of [`StreamItem`].
pub ghost enum StreamItemView {
    Notice(NotificationView),
    Fault(Seq<char>),
    End,
}

impl View for StreamItem {
    type V = StreamItemView;

    open spec fn view(&self) -> StreamItemView {
        match self {
            StreamItem::Notice(n) => StreamItemView::Notice(n@),
            StreamItem::Fault(e) => StreamItemView::Fault(e@),
            StreamItem::End => StreamItemView::End,
        }
    }
}

impl DeepView for StreamItem {
    type V = StreamItemView;

    open spec fn deep_view(&self) -> StreamItemView {
        self.view()
    }
}

/// A classified watch event, ready for the per-kind event channel.
#[derive(Debug)]
pub struct WatchEvent {
    pub event_type: WatchEventType,
    pub meta: ObjectMeta,
}

/// Mathematical image of [`WatchEvent`].
pub ghost struct WatchEventView {
    pub event_type: WatchEventType,
    pub meta: MetaView,
}

impl View for WatchEvent {
    type V = WatchEventView;

    open spec fn view(&self) -> WatchEventView {
        WatchEventView { event_type: self.event_type, meta: self.meta@ }
    }
}

impl DeepView for WatchEvent {
    type V = WatchEventView;

    open spec fn deep_view(&self) -> WatchEventView {
        self.view()
    }
}

/// What a watch task hands the event bus: a classified event on the
/// per-kind event channel, or an error payload on the error channel.
#[derive(Debug)]
pub enum Emission {
    Event(WatchEvent),
    Fault(String),
}

/// Mathematical image of [`Emission`].
pub ghost enum EmissionView {
    Event(WatchEventView),
    Fault(Seq<char>),
}

impl View for Emission {
    type V = EmissionView;

    open spec fn view(&self) -> EmissionView {
        match self {
            Emission::Event(e) => EmissionView::Event(e@),
            Emission::Fault(t) => EmissionView::Fault(t@),
        }
    }
}

impl DeepView for Emission {
    type V = EmissionView;

    open spec fn deep_view(&self) -> EmissionView {
        self.view()
    }
}

/// Name of the event channel a kind's classified events go out on.
pub open spec fn spec_event_channel(kind: ResourceKind) -> Seq<char> {
    match kind {
        ResourceKind::Pod => "pod-watch-event"@,
        ResourceKind::Deployment => "deployment-watch-event"@,
        ResourceKind::StatefulSet => "statefulset-watch-event"@,
        ResourceKind::DaemonSet => "daemonset-watch-event"@,
        ResourceKind::ReplicaSet => "replicaset-watch-event"@,
        ResourceKind::Service => "service-watch-event"@,
        ResourceKind::CronJob => "cronjob-watch-event"@,
    }
}

/// Name of the error channel a kind's fault payloads go out on.
pub open spec fn spec_error_channel(kind: ResourceKind) -> Seq<char> {
    match kind {
        ResourceKind::Pod => "pod-watch-error"@,
        ResourceKind::Deployment => "deployment-watch-error"@,
        ResourceKind::StatefulSet => "statefulset-watch-error"@,
        ResourceKind::DaemonSet => "daemonset-watch-error"@,
        ResourceKind::ReplicaSet => "replicaset-watch-error"@,
        ResourceKind::Service => "service-watch-error"@,
        ResourceKind::CronJob => "cronjob-watch-error"@,
    }
}

/// The per-kind event channel name, part of the wire contract with the UI.
pub fn event_channel(kind: ResourceKind) -> (r: String)
    ensures
        r@ == spec_event_channel(kind),
{
    match kind {
        ResourceKind::Pod => String::from_str("pod-watch-event"),
        ResourceKind::Deployment => String::from_str("deployment-watch-event"),
        ResourceKind::StatefulSet => String::from_str("statefulset-watch-event"),
        ResourceKind::DaemonSet => String::from_str("daemonset-watch-event"),
        ResourceKind::ReplicaSet => String::from_str("replicaset-watch-event"),
        ResourceKind::Service => String::from_str("service-watch-event"),
        ResourceKind::CronJob => String::from_str("cronjob-watch-event"),
    }
}

/// The per-kind error channel name, part of the wire contract with the UI.
pub fn error_channel(kind: ResourceKind) -> (r: String)
    ensures
        r@ == spec_error_channel(kind),
{
    match kind {
        ResourceKind::Pod => String::from_str("pod-watch-error"),
        ResourceKind::Deployment => String::from_str("deployment-watch-error"),
        ResourceKind::StatefulSet => String::from_str("statefulset-watch-error"),
        ResourceKind::DaemonSet => String::from_str("daemonset-watch-error"),
        ResourceKind::ReplicaSet => String::from_str("replicaset-watch-error"),
        ResourceKind::Service => String::from_str("service-watch-error"),
        ResourceKind::CronJob => String::from_str("cronjob-watch-error"),
    }
}

} // verus!
