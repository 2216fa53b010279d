//! Classification core of a watch task.
//!
//! A task keeps an identity set of composite keys (`namespace/name`) it has
//! already observed as present. An upsert for an unknown key is classified
//! `Added` and the key recorded; an upsert for a known key is `Modified`; a
//! removal always classifies `Deleted` and forgets the key. Initialization
//! markers are consumed silently. Transient stream faults are reported on
//! the error channel and the task goes on; end of stream is reported once
//! and the task exits.

use vstd::prelude::*;

use crate::watch_events::Emission;
use crate::watch_events::EmissionView;
use crate::watch_events::MetaView;
use crate::watch_events::Notification;
use crate::watch_events::NotificationView;
use crate::watch_events::StreamItem;
use crate::watch_events::StreamItemView;
use crate::watch_events::WatchEvent;
use crate::watch_events::WatchEventType;
use crate::watch_events::WatchEventView;

verus! {

/// The composite key of a resource: the namespace (or `default` where it is
/// absent) and the name, joined by a slash.
pub open spec fn spec_composite_key(namespace: Option<Seq<char>>, name: Seq<char>) -> Seq<char> {
    (match namespace {
        Some(ns) => ns,
        None => "default"@,
    }) + "/"@ + name
}

/// Builds the composite key of a resource from its metadata fields.
pub fn composite_key(namespace: &Option<String>, name: &String) -> (r: String)
    ensures
        r@ == spec_composite_key(namespace.deep_view(), name@),
{
    let mut key: String = match namespace {
        Some(ns) => ns.clone(),
        None => String::from_str("default"),
    };
    key.append("/");
    key.append(name.as_str());
    proof {
        assert(key@ =~= spec_composite_key(namespace.deep_view(), name@));
    }
    key
}

/// The set of composite keys a running task has observed as present.
/// Membership means an `Added` event went out for the key and no removal
/// has been seen since.
pub struct IdentitySet {
    keys: Vec<String>,
}

impl View for IdentitySet {
    type V = Set<Seq<char>>;

    closed spec fn view(&self) -> Set<Seq<char>> {
        Set::new(|k: Seq<char>| exists|i: int| 0 <= i < self.keys@.len() && self.keys@[i]@ == k)
    }
}

impl IdentitySet {
    /// Each key is held at most once.
    pub closed spec fn wf(&self) -> bool {
        forall|i: int, j: int|
            0 <= i < j < self.keys@.len() ==> self.keys@[i]@ != self.keys@[j]@
    }

    /// A fresh, empty identity set: every task starts with one.
    pub fn new() -> (s: IdentitySet)
        ensures
            s@ == Set::<Seq<char>>::empty(),
            s.wf(),
    {
        let s = IdentitySet { keys: Vec::new() };
        proof {
            assert(s@ =~= Set::<Seq<char>>::empty());
        }
        s
    }

    /// Whether the key has been observed as present.
    pub fn contains(&self, key: &String) -> (r: bool)
        ensures
            r == self@.contains(key@),
    {
        let n = self.keys.len();
        let mut i: usize = 0;
        while i < n
            invariant
                0 <= i <= n,
                n == self.keys@.len(),
                forall|j: int| 0 <= j < i ==> self.keys@[j]@ != key@,
            decreases n - i,
        {
            if self.keys[i].eq(key) {
                return true;
            }
            i += 1;
        }
        false
    }

    /// Records the key as present. No effect if it is already held.
    pub fn insert(&mut self, key: String)
        requires
            old(self).wf(),
        ensures
            final(self).wf(),
            final(self)@ == old(self)@.insert(key@),
    {
        if !self.contains(&key) {
            self.keys.push(key);
            proof {
                assert forall|k: Seq<char>| self@.contains(k) implies old(self)@.insert(
                    key@,
                ).contains(k) by {
                    let w = choose|w: int| 0 <= w < self.keys@.len() && self.keys@[w]@ == k;
                    if w < old(self).keys@.len() {
                        assert(old(self).keys@[w]@ == k);
                    }
                }
                assert forall|k: Seq<char>| old(self)@.insert(key@).contains(k) implies self@.contains(
                    k,
                ) by {
                    if k == key@ {
                        assert(self.keys@[self.keys@.len() - 1]@ == k);
                    } else {
                        let w = choose|w: int|
                            0 <= w < old(self).keys@.len() && old(self).keys@[w]@ == k;
                        assert(self.keys@[w]@ == k);
                    }
                }
                assert(self@ =~= old(self)@.insert(key@));
            }
        } else {
            proof {
                assert(self@ =~= old(self)@.insert(key@));
            }
        }
    }

    /// Forgets the key. No effect if it is not held.
    pub fn remove(&mut self, key: &String)
        requires
            old(self).wf(),
        ensures
            final(self).wf(),
            final(self)@ == old(self)@.remove(key@),
    {
        let n = self.keys.len();
        let mut i: usize = 0;
        while i < n
            invariant
                0 <= i <= n,
                n == self.keys@.len(),
                self.wf(),
                *self == *old(self),
                forall|j: int| 0 <= j < i ==> self.keys@[j]@ != key@,
            decreases n - i,
        {
            if self.keys[i].eq(key) {
                self.keys.remove(i);
                proof {
                    assert forall|j: int, l: int|
                        0 <= j < l < self.keys@.len() implies self.keys@[j]@ != self.keys@[l]@ by {
                        assert(self.keys@[j] == if j < i { old(self).keys@[j] } else {
                            old(self).keys@[j + 1]
                        });
                    }
                    assert forall|k: Seq<char>| old(self)@.remove(key@).contains(k) implies self@.contains(
                        k,
                    ) by {
                        let w = choose|w: int|
                            0 <= w < old(self).keys@.len() && old(self).keys@[w]@ == k;
                        if w < i {
                            assert(self.keys@[w]@ == k);
                        } else {
                            assert(w != i);
                            assert(self.keys@[w - 1]@ == k);
                        }
                    }
                    assert forall|k: Seq<char>| self@.contains(k) implies old(self)@.remove(
                        key@,
                    ).contains(k) by {
                        let w = choose|w: int| 0 <= w < self.keys@.len() && self.keys@[w]@ == k;
                        if w < i {
                            assert(old(self).keys@[w]@ == k);
                        } else {
                            assert(old(self).keys@[w + 1]@ == k);
                        }
                    }
                    assert(self@ =~= old(self)@.remove(key@));
                }
                return ;
            }
            i += 1;
        }
        proof {
            assert(!self@.contains(key@));
            assert(self@ =~= old(self)@.remove(key@));
        }
    }
}

/// The identity set after one notification: an upsert records the key, a
/// removal forgets it (whether or not it was held), and everything else —
/// the initialization markers and objects without a name — leaves it alone.
pub open spec fn spec_step_state(s: Set<Seq<char>>, n: NotificationView) -> Set<Seq<char>> {
    match n {
        NotificationView::Upsert(m) => match m.name {
            Some(name) => s.insert(spec_composite_key(m.namespace, name)),
            None => s,
        },
        NotificationView::Remove(m) => match m.name {
            Some(name) => s.remove(spec_composite_key(m.namespace, name)),
            None => s,
        },
        _ => s,
    }
}

/// The watch event one notification produces, if any: the first upsert for
/// a key (not in the set) is `Added`, a repeated one is `Modified`, a
/// removal is always `Deleted`. Initialization markers and objects without
/// a name produce nothing.
pub open spec fn spec_step_event(s: Set<Seq<char>>, n: NotificationView) -> Option<WatchEventView> {
    match n {
        NotificationView::Upsert(m) => match m.name {
            Some(name) => Some(
                WatchEventView {
                    event_type: if s.contains(spec_composite_key(m.namespace, name)) {
                        WatchEventType::Modified
                    } else {
                        WatchEventType::Added
                    },
                    meta: m,
                },
            ),
            None => None,
        },
        NotificationView::Remove(m) => match m.name {
            Some(_) => Some(WatchEventView { event_type: WatchEventType::Deleted, meta: m }),
            None => None,
        },
        _ => None,
    }
}

/// Classifies one notification against the identity set and updates it.
/// Initialization markers never produce a watch event.
pub fn process_notification(set: &mut IdentitySet, n: &Notification) -> (r: Option<WatchEvent>)
    requires
        old(set).wf(),
    ensures
        final(set).wf(),
        final(set)@ == spec_step_state(old(set)@, n@),
        r.deep_view() == spec_step_event(old(set)@, n@),
{
    match n {
        Notification::Upsert(m) => match &m.name {
            Some(name) => {
                let key = composite_key(&m.namespace, name);
                let event_type = if set.contains(&key) {
                    WatchEventType::Modified
                } else {
                    WatchEventType::Added
                };
                set.insert(key);
                Some(WatchEvent { event_type, meta: m.clone() })
            },
            None => None,
        },
        Notification::Remove(m) => match &m.name {
            Some(name) => {
                let key = composite_key(&m.namespace, name);
                set.remove(&key);
                Some(WatchEvent { event_type: WatchEventType::Deleted, meta: m.clone() })
            },
            None => None,
        },
        Notification::InitStart => None,
        Notification::InitUpsert(_) => None,
        Notification::InitDone => None,
    }
}

/// The error payload reporting a transient subscription fault.
pub open spec fn spec_fault_text(e: Seq<char>) -> Seq<char> {
    "Watch error: "@ + e
}

/// The error payload reporting that the subscription stream ended.
pub open spec fn spec_stream_ended_text() -> Seq<char> {
    "Watch stream ended"@
}

/// Builds the error payload for a transient subscription fault.
pub fn fault_text(e: &String) -> (r: String)
    ensures
        r@ == spec_fault_text(e@),
{
    let mut t = String::from_str("Watch error: ");
    t.append(e.as_str());
    t
}

/// The identity set after one stream item: only notifications touch it.
pub open spec fn spec_item_state(s: Set<Seq<char>>, item: StreamItemView) -> Set<Seq<char>> {
    match item {
        StreamItemView::Notice(n) => spec_step_state(s, n),
        _ => s,
    }
}

/// What one stream item sends to the event bus: a classified event for a
/// notification that produces one, an error payload for a fault or for the
/// end of the stream, nothing otherwise.
pub open spec fn spec_item_emission(s: Set<Seq<char>>, item: StreamItemView) -> Option<
    EmissionView,
> {
    match item {
        StreamItemView::Notice(n) => match spec_step_event(s, n) {
            Some(ev) => Some(EmissionView::Event(ev)),
            None => None,
        },
        StreamItemView::Fault(e) => Some(EmissionView::Fault(spec_fault_text(e))),
        StreamItemView::End => Some(EmissionView::Fault(spec_stream_ended_text())),
    }
}

/// Everything a task emits for a stream, in order, starting from the
/// identity set `s`: each item's emission in stream order, stopping right
/// after the first end-of-stream item. Items past the end are never
/// processed.
pub open spec fn spec_task_emissions(s: Set<Seq<char>>, items: Seq<StreamItemView>) -> Seq<
    EmissionView,
>
    decreases items.len(),
{
    if items.len() == 0 {
        Seq::empty()
    } else {
        let head = match spec_item_emission(s, items[0]) {
            Some(e) => seq![e],
            None => Seq::empty(),
        };
        if items[0] is End {
            head
        } else {
            head + spec_task_emissions(spec_item_state(s, items[0]), items.drop_first())
        }
    }
}

/// Runs a whole watch task over the stream it was delivered, starting from
/// a fresh identity set, and returns what it emits, in order. Notifications
/// are processed strictly in stream order; a transient fault is reported
/// and the task goes on; the first end of stream is reported and nothing
/// after it is processed.
pub fn run_watch_task(items: &Vec<StreamItem>) -> (out: Vec<Emission>)
    ensures
        out.deep_view() == spec_task_emissions(Set::empty(), items.deep_view()),
{
    let ghost all: Seq<StreamItemView> = items.deep_view();
    let mut out: Vec<Emission> = Vec::new();
    let mut set = IdentitySet::new();
    let n = items.len();
    let mut i: usize = 0;
    proof {
        assert(out.deep_view() =~= Seq::<EmissionView>::empty());
        assert(all.skip(0) =~= all);
        assert(out.deep_view() + spec_task_emissions(set@, all.skip(0)) =~= spec_task_emissions(
            Set::empty(),
            all,
        ));
    }
    while i < n
        invariant
            0 <= i <= n,
            n == all.len(),
            all == items.deep_view(),
            set.wf(),
            spec_task_emissions(Set::empty(), all) == out.deep_view() + spec_task_emissions(
                set@,
                all.skip(i as int),
            ),
        decreases n - i,
    {
        let ghost pre_set = set@;
        let ghost pre_out = out.deep_view();
        let ghost rest = all.skip(i as int);
        proof {
            assert(rest.len() > 0);
            assert(rest[0] == all[i as int]);
            assert(rest.drop_first() =~= all.skip(i as int + 1));
        }
        match &items[i] {
            StreamItem::Notice(notice) => {
                if let Some(event) = process_notification(&mut set, notice) {
                    out.push(Emission::Event(event));
                }
            },
            StreamItem::Fault(e) => {
                out.push(Emission::Fault(fault_text(e)));
            },
            StreamItem::End => {
                out.push(Emission::Fault(String::from_str("Watch stream ended")));
                proof {
                    assert(out.deep_view() =~= pre_out + seq![
                        EmissionView::Fault(spec_stream_ended_text()),
                    ]);
                    assert(out.deep_view() =~= spec_task_emissions(Set::empty(), all));
                }
                return out;
            },
        }
        proof {
            assert(out.deep_view() =~= pre_out + (match spec_item_emission(pre_set, all[i as int]) {
                Some(e) => seq![e],
                None => Seq::<EmissionView>::empty(),
            }));
        }
        i += 1;
    }
    proof {
        assert(all.skip(n as int) =~= Seq::<StreamItemView>::empty());
    }
    out
}

/// Whether a notification is an upsert for the composite key `k`.
pub open spec fn spec_is_upsert_of(n: NotificationView, k: Seq<char>) -> bool {
    match n {
        NotificationView::Upsert(m) => m.name is Some && spec_composite_key(m.namespace, m.name->0)
            == k,
        _ => false,
    }
}

/// Whether a notification is a removal for the composite key `k`.
pub open spec fn spec_is_remove_of(n: NotificationView, k: Seq<char>) -> bool {
    match n {
        NotificationView::Remove(m) => m.name is Some && spec_composite_key(m.namespace, m.name->0)
            == k,
        _ => false,
    }
}

/// The identity set of a task that started fresh and has processed the
/// whole notification sequence `ns`.
pub open spec fn spec_state_after(ns: Seq<NotificationView>) -> Set<Seq<char>>
    decreases ns.len(),
{
    if ns.len() == 0 {
        Set::empty()
    } else {
        spec_step_state(spec_state_after(ns.drop_last()), ns.last())
    }
}

/// Whether the last notification of `ns` that carries the key `k` is an
/// upsert — that is, whether a task that processed `ns` has seen `k` appear
/// and not go away again.
pub open spec fn spec_present_after(ns: Seq<NotificationView>, k: Seq<char>) -> bool
    decreases ns.len(),
{
    if ns.len() == 0 {
        false
    } else if spec_is_upsert_of(ns.last(), k) {
        true
    } else if spec_is_remove_of(ns.last(), k) {
        false
    } else {
        spec_present_after(ns.drop_last(), k)
    }
}

/// The identity set holds exactly the keys whose last key-carrying
/// notification so far was an upsert.
pub proof fn lemma_state_tracks_history(ns: Seq<NotificationView>, k: Seq<char>)
    ensures
        spec_state_after(ns).contains(k) == spec_present_after(ns, k),
    decreases ns.len(),
{
    if ns.len() > 0 {
        lemma_state_tracks_history(ns.drop_last(), k);
    }
}

/// First law of classification: fed to a fresh task, an upsert for a key
/// that no earlier upsert carried is classified `Added`.
pub proof fn lemma_first_upsert_added(ns: Seq<NotificationView>, i: int)
    requires
        0 <= i < ns.len(),
        ns[i] is Upsert,
        ns[i]->Upsert_0.name is Some,
        forall|j: int|
            0 <= j < i ==> !spec_is_upsert_of(
                ns[j],
                spec_composite_key(ns[i]->Upsert_0.namespace, ns[i]->Upsert_0.name->0),
            ),
    ensures
        spec_step_event(spec_state_after(ns.take(i)), ns[i]) == Some(
            WatchEventView { event_type: WatchEventType::Added, meta: ns[i]->Upsert_0 },
        ),
{
    let k = spec_composite_key(ns[i]->Upsert_0.namespace, ns[i]->Upsert_0.name->0);
    lemma_no_upsert_not_present(ns.take(i), k);
    lemma_state_tracks_history(ns.take(i), k);
}

/// Second law of classification: an upsert for a key that an earlier upsert
/// carried, with no removal of that key in between, is classified
/// `Modified`.
pub proof fn lemma_repeat_upsert_modified(ns: Seq<NotificationView>, j: int, i: int)
    requires
        0 <= j < i < ns.len(),
        ns[i] is Upsert,
        ns[i]->Upsert_0.name is Some,
        spec_is_upsert_of(
            ns[j],
            spec_composite_key(ns[i]->Upsert_0.namespace, ns[i]->Upsert_0.name->0),
        ),
        forall|l: int|
            j < l < i ==> !spec_is_remove_of(
                ns[l],
                spec_composite_key(ns[i]->Upsert_0.namespace, ns[i]->Upsert_0.name->0),
            ),
    ensures
        spec_step_event(spec_state_after(ns.take(i)), ns[i]) == Some(
            WatchEventView { event_type: WatchEventType::Modified, meta: ns[i]->Upsert_0 },
        ),
{
    let k = spec_composite_key(ns[i]->Upsert_0.namespace, ns[i]->Upsert_0.name->0);
    lemma_present_since_upsert(ns, j, i, k);
    lemma_state_tracks_history(ns.take(i), k);
}

/// Third law of classification: a removal always classifies `Deleted`,
/// whether or not the key was held, and forgetting an absent key leaves the
/// identity set exactly as it was.
pub proof fn lemma_removal_always_deleted(s: Set<Seq<char>>, m: MetaView)
    requires
        m.name is Some,
    ensures
        spec_step_event(s, NotificationView::Remove(m)) == Some(
            WatchEventView { event_type: WatchEventType::Deleted, meta: m },
        ),
        spec_step_state(s, NotificationView::Remove(m)) == s.remove(
            spec_composite_key(m.namespace, m.name->0),
        ),
        !s.contains(spec_composite_key(m.namespace, m.name->0)) ==> spec_step_state(
            s,
            NotificationView::Remove(m),
        ) == s,
{
    let k = spec_composite_key(m.namespace, m.name->0);
    if !s.contains(k) {
        assert(s.remove(k) =~= s);
    }
}

/// Fourth law of classification: initialization markers are consumed
/// silently — no watch event, no change to the identity set.
pub proof fn lemma_init_markers_silent(s: Set<Seq<char>>, n: NotificationView)
    requires
        n is InitStart || n is InitUpsert || n is InitDone,
    ensures
        spec_step_event(s, n) is None,
        spec_step_state(s, n) == s,
{
}

/// The identity set a task is left with after processing a whole stream,
/// starting from `s`.
pub open spec fn spec_stream_state(s: Set<Seq<char>>, items: Seq<StreamItemView>) -> Set<Seq<char>>
    decreases items.len(),
{
    if items.len() == 0 {
        s
    } else {
        spec_stream_state(spec_item_state(s, items[0]), items.drop_first())
    }
}

/// The notifications of a stream, in order: what the classification sees.
pub open spec fn spec_stream_notices(items: Seq<StreamItemView>) -> Seq<NotificationView>
    decreases items.len(),
{
    if items.len() == 0 {
        Seq::empty()
    } else {
        (match items[0] {
            StreamItemView::Notice(n) => seq![n],
            _ => Seq::empty(),
        }) + spec_stream_notices(items.drop_first())
    }
}

/// A history fold from an arbitrary starting set.
pub open spec fn spec_state_after_from(s: Set<Seq<char>>, ns: Seq<NotificationView>) -> Set<
    Seq<char>,
>
    decreases ns.len(),
{
    if ns.len() == 0 {
        s
    } else {
        spec_step_state(spec_state_after_from(s, ns.drop_last()), ns.last())
    }
}

proof fn lemma_state_after_from_cons(s: Set<Seq<char>>, n: NotificationView, ns: Seq<
    NotificationView,
>)
    ensures
        spec_state_after_from(s, seq![n] + ns) == spec_state_after_from(spec_step_state(s, n), ns),
    decreases ns.len(),
{
    let whole = seq![n] + ns;
    assert(whole.len() == 1 + ns.len());
    if ns.len() == 0 {
        assert(whole.last() == n);
        assert(whole.drop_last() =~= Seq::<NotificationView>::empty());
        assert(spec_state_after_from(s, whole) == spec_step_state(
            spec_state_after_from(s, Seq::empty()),
            n,
        ));
    } else {
        assert(whole.last() == ns.last());
        assert(whole.drop_last() =~= seq![n] + ns.drop_last());
        lemma_state_after_from_cons(s, n, ns.drop_last());
        assert(spec_state_after_from(s, whole) == spec_step_state(
            spec_state_after_from(s, seq![n] + ns.drop_last()),
            ns.last(),
        ));
        assert(spec_state_after_from(spec_step_state(s, n), ns) == spec_step_state(
            spec_state_after_from(spec_step_state(s, n), ns.drop_last()),
            ns.last(),
        ));
    }
}

proof fn lemma_state_after_from_empty(ns: Seq<NotificationView>)
    ensures
        spec_state_after_from(Set::empty(), ns) == spec_state_after(ns),
    decreases ns.len(),
{
    if ns.len() > 0 {
        lemma_state_after_from_empty(ns.drop_last());
    }
}

/// The identity set a stream threads forward equals the history fold of
/// the notifications it carries: faults and the end marker leave it alone.
pub proof fn lemma_stream_state_is_history(s: Set<Seq<char>>, items: Seq<StreamItemView>)
    ensures
        spec_stream_state(s, items) == spec_state_after_from(s, spec_stream_notices(items)),
    decreases items.len(),
{
    if items.len() > 0 {
        let s1 = spec_item_state(s, items[0]);
        lemma_stream_state_is_history(s1, items.drop_first());
        match items[0] {
            StreamItemView::Notice(n) => {
                lemma_state_after_from_cons(s, n, spec_stream_notices(items.drop_first()));
            },
            _ => {
                assert(spec_stream_notices(items) =~= spec_stream_notices(items.drop_first()));
            },
        }
    }
}

/// A task's emissions split at any point before the stream has ended:
/// everything emitted for the prefix, then the rest, taken up from the
/// identity set the prefix left behind.
pub proof fn lemma_task_emissions_split(s: Set<Seq<char>>, items: Seq<StreamItemView>, i: int)
    requires
        0 <= i <= items.len(),
        forall|j: int| 0 <= j < i ==> !((#[trigger] items[j]) is End),
    ensures
        spec_task_emissions(s, items) == spec_task_emissions(s, items.take(i))
            + spec_task_emissions(spec_stream_state(s, items.take(i)), items.skip(i)),
    decreases i,
{
    if i == 0 {
        assert(items.take(0) =~= Seq::<StreamItemView>::empty());
        assert(items.skip(0) =~= items);
        assert(spec_task_emissions(s, items.take(0)) + spec_task_emissions(
            spec_stream_state(s, items.take(0)),
            items,
        ) =~= spec_task_emissions(spec_stream_state(s, items.take(0)), items));
    } else {
        let h = items[0];
        let s1 = spec_item_state(s, h);
        let d = items.drop_first();
        lemma_task_emissions_split(s1, d, i - 1);
        let head = match spec_item_emission(s, h) {
            Some(e) => seq![e],
            None => Seq::<EmissionView>::empty(),
        };
        assert(items.take(i)[0] == h);
        assert(items.take(i).drop_first() =~= d.take(i - 1));
        assert(d.skip(i - 1) =~= items.skip(i));
        assert(spec_task_emissions(s, items) == head + spec_task_emissions(s1, d));
        assert(spec_task_emissions(s, items.take(i)) == head + spec_task_emissions(
            s1,
            d.take(i - 1),
        ));
        assert(spec_stream_state(s, items.take(i)) == spec_stream_state(s1, d.take(i - 1)));
        assert(head + (spec_task_emissions(s1, d.take(i - 1)) + spec_task_emissions(
            spec_stream_state(s1, d.take(i - 1)),
            d.skip(i - 1),
        )) =~= (head + spec_task_emissions(s1, d.take(i - 1))) + spec_task_emissions(
            spec_stream_state(s1, d.take(i - 1)),
            d.skip(i - 1),
        ));
    }
}

/// What a fresh task emits for a stream splits, at any notification not
/// past the first end of stream, into the emissions of the items before
/// it, this notification's event classified against the history of the
/// notifications seen so far, and the emissions of the rest. Together with
/// the classification laws this pins every event a task ever emits.
pub proof fn lemma_task_classifies_by_history(items: Seq<StreamItemView>, i: int)
    requires
        0 <= i < items.len(),
        forall|j: int| 0 <= j <= i ==> !((#[trigger] items[j]) is End),
        items[i] is Notice,
    ensures
        spec_task_emissions(Set::empty(), items) == spec_task_emissions(
            Set::empty(),
            items.take(i),
        ) + (match spec_step_event(
            spec_state_after(spec_stream_notices(items.take(i))),
            items[i]->Notice_0,
        ) {
            Some(ev) => seq![EmissionView::Event(ev)],
            None => Seq::<EmissionView>::empty(),
        }) + spec_task_emissions(spec_stream_state(Set::empty(), items.take(i + 1)), items.skip(i + 1)),
{
    let pre = items.take(i);
    let s0 = spec_stream_state(Set::empty(), pre);
    lemma_task_emissions_split(Set::empty(), items, i);
    lemma_stream_state_is_history(Set::empty(), pre);
    lemma_state_after_from_empty(spec_stream_notices(pre));
    let rest = items.skip(i);
    assert(rest[0] == items[i]);
    assert(rest.drop_first() =~= items.skip(i + 1));
    let head = match spec_item_emission(s0, items[i]) {
        Some(e) => seq![e],
        None => Seq::<EmissionView>::empty(),
    };
    assert(spec_task_emissions(s0, rest) == head + spec_task_emissions(
        spec_item_state(s0, items[i]),
        items.skip(i + 1),
    ));
    assert(items.take(i + 1).drop_last() =~= pre);
    assert(spec_stream_state(Set::empty(), items.take(i + 1)) == spec_item_state(s0, items[i]))
        by {
        lemma_stream_state_snoc(Set::empty(), pre, items[i]);
        assert(items.take(i + 1) =~= pre.push(items[i]));
    }
    assert(spec_task_emissions(Set::empty(), pre) + (head + spec_task_emissions(
        spec_item_state(s0, items[i]),
        items.skip(i + 1),
    )) =~= (spec_task_emissions(Set::empty(), pre) + head) + spec_task_emissions(
        spec_item_state(s0, items[i]),
        items.skip(i + 1),
    ));
}

proof fn lemma_stream_state_snoc(s: Set<Seq<char>>, items: Seq<StreamItemView>, x: StreamItemView)
    ensures
        spec_stream_state(s, items.push(x)) == spec_item_state(spec_stream_state(s, items), x),
    decreases items.len(),
{
    let whole = items.push(x);
    assert(whole.len() == items.len() + 1);
    if items.len() == 0 {
        assert(whole[0] == x);
        assert(whole.drop_first() =~= Seq::<StreamItemView>::empty());
        assert(spec_stream_state(s, whole) == spec_stream_state(
            spec_item_state(s, x),
            Seq::empty(),
        ));
    } else {
        assert(whole[0] == items[0]);
        assert(whole.drop_first() =~= items.drop_first().push(x));
        lemma_stream_state_snoc(spec_item_state(s, items[0]), items.drop_first(), x);
        assert(spec_stream_state(s, whole) == spec_stream_state(
            spec_item_state(s, items[0]),
            items.drop_first().push(x),
        ));
        assert(spec_stream_state(s, items) == spec_stream_state(
            spec_item_state(s, items[0]),
            items.drop_first(),
        ));
    }
}

/// A sequence without any upsert for `k` leaves `k` absent.
proof fn lemma_no_upsert_not_present(ns: Seq<NotificationView>, k: Seq<char>)
    requires
        forall|j: int| 0 <= j < ns.len() ==> !spec_is_upsert_of(ns[j], k),
    ensures
        !spec_present_after(ns, k),
    decreases ns.len(),
{
    if ns.len() > 0 {
        lemma_no_upsert_not_present(ns.drop_last(), k);
    }
}

/// After an upsert for `k` at `j`, and no removal of `k` before `i`, the
/// key is still present at `i`.
proof fn lemma_present_since_upsert(ns: Seq<NotificationView>, j: int, i: int, k: Seq<char>)
    requires
        0 <= j < i <= ns.len(),
        spec_is_upsert_of(ns[j], k),
        forall|l: int| j < l < i ==> !spec_is_remove_of(ns[l], k),
    ensures
        spec_present_after(ns.take(i), k),
    decreases i - j,
{
    if i == j + 1 {
        assert(ns.take(i).last() == ns[j]);
    } else {
        lemma_present_since_upsert(ns, j, i - 1, k);
        assert(ns.take(i).drop_last() =~= ns.take(i - 1));
        assert(ns.take(i).last() == ns[i - 1]);
    }
}

} // verus!
