//! Label-selector and owner-reference matching, as the listing commands use
//! them: a resource selects a pod when every key/value pair of its selector
//! appears among the pod's labels, and a child belongs to a parent when an
//! owner reference of the right kind and name points at it. A candidate
//! without labels or owner references matches nothing.

use vstd::prelude::*;

verus! {

/// Whether the labels hold this exact key/value pair.
pub open spec fn spec_labels_contain(
    labels: Seq<(Seq<char>, Seq<char>)>,
    key: Seq<char>,
    value: Seq<char>,
) -> bool {
    exists|i: int| 0 <= i < labels.len() && labels[i].0 == key && labels[i].1 == value
}

/// Whether every pair of the selector appears among the labels.
pub open spec fn spec_selector_matches(
    selector: Seq<(Seq<char>, Seq<char>)>,
    labels: Seq<(Seq<char>, Seq<char>)>,
) -> bool {
    forall|i: int|
        0 <= i < selector.len() ==> spec_labels_contain(labels, selector[i].0, selector[i].1)
}

/// Whether the labels hold this exact key/value pair.
pub fn labels_contain(labels: &Vec<(String, String)>, key: &String, value: &String) -> (r: bool)
    ensures
        r == spec_labels_contain(labels.deep_view(), key@, value@),
{
    let n = labels.len();
    let mut i: usize = 0;
    while i < n
        invariant
            0 <= i <= n,
            n == labels@.len(),
            forall|j: int|
                0 <= j < i ==> !(labels.deep_view()[j].0 == key@ && labels.deep_view()[j].1
                    == value@),
        decreases n - i,
    {
        if labels[i].0.eq(key) && labels[i].1.eq(value) {
            proof {
                assert(labels.deep_view()[i as int].0 == key@);
            }
            return true;
        }
        i += 1;
    }
    false
}

/// Whether the selector selects a pod carrying these labels.
pub fn selector_matches(selector: &Vec<(String, String)>, labels: &Vec<(String, String)>) -> (r:
    bool)
    ensures
        r == spec_selector_matches(selector.deep_view(), labels.deep_view()),
{
    let n = selector.len();
    let mut i: usize = 0;
    while i < n
        invariant
            0 <= i <= n,
            n == selector@.len(),
            forall|j: int|
                0 <= j < i ==> spec_labels_contain(
                    labels.deep_view(),
                    selector.deep_view()[j].0,
                    selector.deep_view()[j].1,
                ),
        decreases n - i,
    {
        if !labels_contain(labels, &selector[i].0, &selector[i].1) {
            proof {
                assert(!spec_labels_contain(
                    labels.deep_view(),
                    selector.deep_view()[i as int].0,
                    selector.deep_view()[i as int].1,
                ));
            }
            return false;
        }
        i += 1;
    }
    true
}

/// The label set a candidate offers for matching: `None` stands for a pod
/// without labels, which no selector selects.
pub open spec fn spec_candidate_matches(
    selector: Seq<(Seq<char>, Seq<char>)>,
    candidate: Option<Seq<(Seq<char>, Seq<char>)>>,
) -> bool {
    match candidate {
        Some(labels) => spec_selector_matches(selector, labels),
        None => false,
    }
}

/// Picks, in order, the indices of the candidates the selector selects.
/// The result is strictly increasing, every listed candidate matches, and
/// every matching candidate is listed.
pub fn matching_indices(
    selector: &Vec<(String, String)>,
    candidates: &Vec<Option<Vec<(String, String)>>>,
) -> (r: Vec<usize>)
    ensures
        forall|k: int|
            0 <= k < r@.len() ==> r@[k] < candidates@.len() && spec_candidate_matches(
                selector.deep_view(),
                candidates.deep_view()[r@[k] as int],
            ),
        forall|k1: int, k2: int| 0 <= k1 < k2 < r@.len() ==> r@[k1] < r@[k2],
        forall|j: int|
            0 <= j < candidates@.len() && spec_candidate_matches(
                selector.deep_view(),
                candidates.deep_view()[j],
            ) ==> r@.contains(j as usize),
{
    let n = candidates.len();
    let mut r: Vec<usize> = Vec::new();
    let mut i: usize = 0;
    while i < n
        invariant
            0 <= i <= n,
            n == candidates@.len(),
            forall|k: int|
                0 <= k < r@.len() ==> r@[k] < i && spec_candidate_matches(
                    selector.deep_view(),
                    candidates.deep_view()[r@[k] as int],
                ),
            forall|k1: int, k2: int| 0 <= k1 < k2 < r@.len() ==> r@[k1] < r@[k2],
            forall|j: int|
                0 <= j < i && spec_candidate_matches(
                    selector.deep_view(),
                    candidates.deep_view()[j],
                ) ==> r@.contains(j as usize),
        decreases n - i,
    {
        let ghost pre = r@;
        let matched = match &candidates[i] {
            Some(labels) => selector_matches(selector, labels),
            None => false,
        };
        if matched {
            r.push(i);
        }
        proof {
            assert forall|j: int|
                0 <= j < i + 1 && spec_candidate_matches(
                    selector.deep_view(),
                    candidates.deep_view()[j],
                ) implies r@.contains(j as usize) by {
                if j < i {
                    assert(pre.contains(j as usize));
                    let w = choose|w: int| 0 <= w < pre.len() && pre[w] == j as usize;
                    assert(r@[w] == j as usize);
                } else {
                    assert(r@[r@.len() - 1] == j as usize);
                }
            }
        }
        i += 1;
    }
    r
}

/// One owner reference of a cluster object, as plain values.
#[derive(Debug)]
pub struct OwnerRef {
    pub kind: String,
    pub name: String,
    pub controller: Option<bool>,
}

/// Mathematical image of [`OwnerRef`].
pub ghost struct OwnerRefView {
    pub kind: Seq<char>,
    pub name: Seq<char>,
    pub controller: Option<bool>,
}

impl View for OwnerRef {
    type V = OwnerRefView;

    open spec fn view(&self) -> OwnerRefView {
        OwnerRefView { kind: self.kind@, name: self.name@, controller: self.controller }
    }
}

impl DeepView for OwnerRef {
    type V = OwnerRefView;

    open spec fn deep_view(&self) -> OwnerRefView {
        self.view()
    }
}

/// Whether one owner reference points at the named parent. Where the parent
/// kind only adopts children it controls, the reference must say so.
pub open spec fn spec_owner_points_at(
    o: OwnerRefView,
    kind: Seq<char>,
    name: Seq<char>,
    require_controller: bool,
) -> bool {
    o.kind == kind && o.name == name && (require_controller ==> o.controller == Some(true))
}

/// Whether a candidate belongs to the named parent: some owner reference
/// points at it. `None` stands for an object without owner references.
pub open spec fn spec_owned_by(
    owners: Option<Seq<OwnerRefView>>,
    kind: Seq<char>,
    name: Seq<char>,
    require_controller: bool,
) -> bool {
    match owners {
        Some(os) => exists|i: int|
            0 <= i < os.len() && #[trigger] spec_owner_points_at(
                os[i],
                kind,
                name,
                require_controller,
            ),
        None => false,
    }
}

/// Whether a candidate belongs to the named parent.
pub fn owned_by(
    owners: &Option<Vec<OwnerRef>>,
    kind: &String,
    name: &String,
    require_controller: bool,
) -> (r: bool)
    ensures
        r == spec_owned_by(owners.deep_view(), kind@, name@, require_controller),
{
    match owners {
        Some(os) => {
            let n = os.len();
            let mut i: usize = 0;
            while i < n
                invariant
                    0 <= i <= n,
                    n == os@.len(),
                    owners.deep_view() == Some(os.deep_view()),
                    forall|j: int|
                        0 <= j < i ==> !spec_owner_points_at(
                            os.deep_view()[j],
                            kind@,
                            name@,
                            require_controller,
                        ),
                decreases n - i,
            {
                let o = &os[i];
                let controller_ok = if require_controller {
                    match o.controller {
                        Some(c) => c,
                        None => false,
                    }
                } else {
                    true
                };
                if o.kind.eq(kind) && o.name.eq(name) && controller_ok {
                    proof {
                        assert(owners.deep_view() == Some(os.deep_view()));
                        assert(spec_owner_points_at(
                            owners.deep_view()->0[i as int],
                            kind@,
                            name@,
                            require_controller,
                        ));
                    }
                    return true;
                }
                i += 1;
            }
            false
        },
        None => false,
    }
}

/// Picks, in order, the indices of the candidates the named parent owns.
/// The result is strictly increasing, every listed candidate is owned, and
/// every owned candidate is listed.
pub fn owned_indices(
    candidates: &Vec<Option<Vec<OwnerRef>>>,
    kind: &String,
    name: &String,
    require_controller: bool,
) -> (r: Vec<usize>)
    ensures
        forall|k: int|
            0 <= k < r@.len() ==> r@[k] < candidates@.len() && spec_owned_by(
                candidates.deep_view()[r@[k] as int],
                kind@,
                name@,
                require_controller,
            ),
        forall|k1: int, k2: int| 0 <= k1 < k2 < r@.len() ==> r@[k1] < r@[k2],
        forall|j: int|
            0 <= j < candidates@.len() && spec_owned_by(
                candidates.deep_view()[j],
                kind@,
                name@,
                require_controller,
            ) ==> r@.contains(j as usize),
{
    let n = candidates.len();
    let mut r: Vec<usize> = Vec::new();
    let mut i: usize = 0;
    while i < n
        invariant
            0 <= i <= n,
            n == candidates@.len(),
            forall|k: int|
                0 <= k < r@.len() ==> r@[k] < i && spec_owned_by(
                    candidates.deep_view()[r@[k] as int],
                    kind@,
                    name@,
                    require_controller,
                ),
            forall|k1: int, k2: int| 0 <= k1 < k2 < r@.len() ==> r@[k1] < r@[k2],
            forall|j: int|
                0 <= j < i && spec_owned_by(
                    candidates.deep_view()[j],
                    kind@,
                    name@,
                    require_controller,
                ) ==> r@.contains(j as usize),
        decreases n - i,
    {
        let ghost pre = r@;
        if owned_by(&candidates[i], kind, name, require_controller) {
            r.push(i);
        }
        proof {
            assert forall|j: int|
                0 <= j < i + 1 && spec_owned_by(
                    candidates.deep_view()[j],
                    kind@,
                    name@,
                    require_controller,
                ) implies r@.contains(j as usize) by {
                if j < i {
                    assert(pre.contains(j as usize));
                    let w = choose|w: int| 0 <= w < pre.len() && pre[w] == j as usize;
                    assert(r@[w] == j as usize);
                } else {
                    assert(r@[r@.len() - 1] == j as usize);
                }
            }
        }
        i += 1;
    }
    r
}

} // verus!
