//! Context list assembly for the context-management commands.
//!
//! The kubeconfig itself is loaded and parsed by the unverified shell; what
//! reaches this module is the plain list of named context entries and the
//! name of the current one. Building the UI-facing response — which entries
//! appear, in what order, and which one is flagged current — is decided
//! here.

use vstd::prelude::*;

verus! {

/// One context of the UI-facing context list.
#[derive(Debug)]
pub struct KubeContext {
    pub name: String,
    pub cluster: String,
    pub user: String,
    pub namespace: Option<String>,
    pub is_current: bool,
}

/// Mathematical image of [`KubeContext`].
pub ghost struct KubeContextView {
    pub name: Seq<char>,
    pub cluster: Seq<char>,
    pub user: Seq<char>,
    pub namespace: Option<Seq<char>>,
    pub is_current: bool,
}

impl View for KubeContext {
    type V = KubeContextView;

    open spec fn view(&self) -> KubeContextView {
        KubeContextView {
            name: self.name@,
            cluster: self.cluster@,
            user: self.user@,
            namespace: self.namespace.deep_view(),
            is_current: self.is_current,
        }
    }
}

impl DeepView for KubeContext {
    type V = KubeContextView;

    open spec fn deep_view(&self) -> KubeContextView {
        self.view()
    }
}

/// The UI-facing response of the context list command.
#[derive(Debug)]
pub struct ContextListResponse {
    pub contexts: Vec<KubeContext>,
    pub current_context: Option<String>,
}

/// Identity of one cluster, as shown in the overview.
#[derive(Debug)]
pub struct ClusterInfo {
    pub name: String,
    pub server: String,
    pub version: Option<String>,
}

/// The body of one named context entry of a kubeconfig, as plain values.
#[derive(Debug)]
pub struct ContextDetails {
    pub cluster: String,
    pub user: Option<String>,
    pub namespace: Option<String>,
}

/// One named context entry of a kubeconfig. The body may be absent; such
/// an entry names a context it says nothing about and is left out of the
/// context list.
#[derive(Debug)]
pub struct ContextEntry {
    pub name: String,
    pub context: Option<ContextDetails>,
}

/// Mathematical image of [`ContextDetails`].
pub ghost struct ContextDetailsView {
    pub cluster: Seq<char>,
    pub user: Option<Seq<char>>,
    pub namespace: Option<Seq<char>>,
}

/// Mathematical image of [`ContextEntry`].
pub ghost struct ContextEntryView {
    pub name: Seq<char>,
    pub context: Option<ContextDetailsView>,
}

impl View for ContextDetails {
    type V = ContextDetailsView;

    open spec fn view(&self) -> ContextDetailsView {
        ContextDetailsView {
            cluster: self.cluster@,
            user: self.user.deep_view(),
            namespace: self.namespace.deep_view(),
        }
    }
}

impl DeepView for ContextDetails {
    type V = ContextDetailsView;

    open spec fn deep_view(&self) -> ContextDetailsView {
        self.view()
    }
}

impl View for ContextEntry {
    type V = ContextEntryView;

    open spec fn view(&self) -> ContextEntryView {
        ContextEntryView { name: self.name@, context: self.context.deep_view() }
    }
}

impl DeepView for ContextEntry {
    type V = ContextEntryView;

    open spec fn deep_view(&self) -> ContextEntryView {
        self.view()
    }
}

/// The context an entry contributes to the list: entries without a body
/// contribute nothing; a missing user is shown as the empty string; the
/// entry is flagged current exactly when its name is the current context.
pub open spec fn spec_context_of_entry(e: ContextEntryView, cur: Option<Seq<char>>) -> Option<
    KubeContextView,
> {
    match e.context {
        Some(d) => Some(
            KubeContextView {
                name: e.name,
                cluster: d.cluster,
                user: match d.user {
                    Some(u) => u,
                    None => Seq::empty(),
                },
                namespace: d.namespace,
                is_current: cur == Some(e.name),
            },
        ),
        None => None,
    }
}

/// The whole context list, in entry order.
pub open spec fn spec_context_list(entries: Seq<ContextEntryView>, cur: Option<Seq<char>>) -> Seq<
    KubeContextView,
>
    decreases entries.len(),
{
    if entries.len() == 0 {
        Seq::empty()
    } else {
        (match spec_context_of_entry(entries[0], cur) {
            Some(c) => seq![c],
            None => Seq::empty(),
        }) + spec_context_list(entries.drop_first(), cur)
    }
}

/// Assembles the UI-facing context list: one context per entry that has a
/// body, in entry order, each flagged current exactly when its name equals
/// the current context name.
pub fn build_context_list(entries: &Vec<ContextEntry>, current_context: Option<String>) -> (r:
    ContextListResponse)
    ensures
        r.contexts.deep_view() == spec_context_list(
            entries.deep_view(),
            current_context.deep_view(),
        ),
        r.current_context.deep_view() == current_context.deep_view(),
{
    let ghost all = entries.deep_view();
    let ghost cur = current_context.deep_view();
    let mut contexts: Vec<KubeContext> = Vec::new();
    let n = entries.len();
    let mut i: usize = 0;
    proof {
        assert(all.skip(0) =~= all);
        assert(contexts.deep_view() + spec_context_list(all.skip(0), cur) =~= spec_context_list(
            all,
            cur,
        ));
    }
    while i < n
        invariant
            0 <= i <= n,
            n == all.len(),
            all == entries.deep_view(),
            cur == current_context.deep_view(),
            spec_context_list(all, cur) == contexts.deep_view() + spec_context_list(
                all.skip(i as int),
                cur,
            ),
        decreases n - i,
    {
        let ghost pre = contexts.deep_view();
        proof {
            assert(all.skip(i as int)[0] == all[i as int]);
            assert(all.skip(i as int).drop_first() =~= all.skip(i as int + 1));
        }
        let entry = &entries[i];
        match &entry.context {
            Some(details) => {
                let is_current = match &current_context {
                    Some(c) => c.eq(&entry.name),
                    None => false,
                };
                contexts.push(
                    KubeContext {
                        name: entry.name.clone(),
                        cluster: details.cluster.clone(),
                        user: match &details.user {
                            Some(u) => u.clone(),
                            None => String::new(),
                        },
                        namespace: match &details.namespace {
                            Some(ns) => Some(ns.clone()),
                            None => None,
                        },
                        is_current,
                    },
                );
                proof {
                    assert(contexts.deep_view() =~= pre + seq![
                        spec_context_of_entry(all[i as int], cur)->0,
                    ]);
                }
            },
            None => {},
        }
        i += 1;
    }
    proof {
        assert(all.skip(n as int) =~= Seq::<ContextEntryView>::empty());
        assert(contexts.deep_view() + spec_context_list(all.skip(n as int), cur)
            =~= contexts.deep_view());
    }
    ContextListResponse { contexts, current_context }
}

/// Whether some entry bears this context name.
pub open spec fn spec_context_exists(entries: Seq<ContextEntryView>, name: Seq<char>) -> bool {
    exists|i: int| 0 <= i < entries.len() && entries[i].name == name
}

/// Whether the named context is one of the kubeconfig's entries.
pub fn context_exists(entries: &Vec<ContextEntry>, name: &String) -> (r: bool)
    ensures
        r == spec_context_exists(entries.deep_view(), name@),
{
    let n = entries.len();
    let mut i: usize = 0;
    while i < n
        invariant
            0 <= i <= n,
            n == entries@.len(),
            forall|j: int| 0 <= j < i ==> entries.deep_view()[j].name != name@,
        decreases n - i,
    {
        if entries[i].name.eq(name) {
            proof {
                assert(entries.deep_view()[i as int].name == name@);
            }
            return true;
        }
        i += 1;
    }
    false
}

/// How long a cached cluster snapshot stays fresh, in seconds.
pub open spec fn spec_cache_freshness_window() -> int {
    30
}

/// Whether a cached cluster snapshot may still be served: it was taken for
/// the very context being asked about and is younger than the freshness
/// window.
pub fn cache_is_fresh(cached_context: &String, requested_context: &String, age_seconds: u64) -> (r:
    bool)
    ensures
        r == (cached_context@ == requested_context@ && age_seconds
            < spec_cache_freshness_window()),
{
    cached_context.eq(requested_context) && age_seconds < 30
}

/// The acknowledgment of a successful context switch.
pub open spec fn spec_context_switched_text(name: Seq<char>) -> Seq<char> {
    "Context switched to: "@ + name
}

/// The error reported when the named context is not in the kubeconfig.
pub open spec fn spec_context_not_found_text(name: Seq<char>) -> Seq<char> {
    "Context '"@ + name + "' not found"@
}

/// Decides a context-switch request against the kubeconfig's entries: the
/// switch is acknowledged exactly when the named context exists, and a
/// missing one is reported by name.
pub fn check_context_switch(entries: &Vec<ContextEntry>, name: &String) -> (r: Result<
    String,
    String,
>)
    ensures
        r is Ok <==> spec_context_exists(entries.deep_view(), name@),
        r is Ok ==> r->Ok_0@ == spec_context_switched_text(name@),
        r is Err ==> r->Err_0@ == spec_context_not_found_text(name@),
{
    if context_exists(entries, name) {
        let mut t = String::from_str("Context switched to: ");
        t.append(name.as_str());
        proof {
            assert(t@ =~= spec_context_switched_text(name@));
        }
        Ok(t)
    } else {
        let mut t = String::from_str("Context '");
        t.append(name.as_str());
        t.append("' not found");
        proof {
            assert(t@ =~= spec_context_not_found_text(name@));
        }
        Err(t)
    }
}

} // verus!
