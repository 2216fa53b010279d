//! Stable index sorts for the listing commands: jobs newest first, pods by
//! name or by node and name. A sort returns the order as indices into the
//! caller's list, pinned exactly: every index appears, and any two output
//! positions stand in the strict order "better key first, ties by original
//! position".

use vstd::prelude::*;

verus! {

/// Index `x` comes strictly before index `y` when sorting newest first:
/// a later timestamp wins, equal timestamps keep their original order.
pub open spec fn spec_newer_first(keys: Seq<i64>, x: int, y: int) -> bool {
    keys[x] > keys[y] || (keys[x] == keys[y] && x < y)
}

/// Sorts indices newest-timestamp-first, stably: the result lists every
/// index of `keys` exactly once, and each output position strictly
/// precedes the next under newest-first order with ties kept in original
/// order.
pub fn sort_newest_first(keys: &Vec<i64>) -> (r: Vec<usize>)
    ensures
        r@.len() == keys@.len(),
        forall|j: int| 0 <= j < keys@.len() ==> #[trigger] r@.contains(j as usize),
        forall|k: int| 0 <= k < r@.len() ==> r@[k] < keys@.len(),
        forall|a: int, b: int|
            0 <= a < b < r@.len() ==> spec_newer_first(keys@, r@[a] as int, r@[b] as int),
{
    let n = keys.len();
    let mut r: Vec<usize> = Vec::new();
    let mut i: usize = 0;
    while i < n
        invariant
            0 <= i <= n,
            n == keys@.len(),
            r@.len() == i,
            forall|j: int| 0 <= j < i ==> #[trigger] r@.contains(j as usize),
            forall|k: int| 0 <= k < r@.len() ==> r@[k] < i,
            forall|a: int, b: int|
                0 <= a < b < r@.len() ==> spec_newer_first(keys@, r@[a] as int, r@[b] as int),
        decreases n - i,
    {
        let ghost pre = r@;
        let mut p: usize = 0;
        while p < r.len() && keys[r[p]] >= keys[i]
            invariant
                0 <= p <= r@.len(),
                r@ == pre,
                i < n,
                n == keys@.len(),
                forall|k: int| 0 <= k < r@.len() ==> r@[k] < i,
                forall|k: int| 0 <= k < p ==> keys@[r@[k] as int] >= keys@[i as int],
            decreases r@.len() - p,
        {
            p += 1;
        }
        r.insert(p, i);
        proof {
            assert forall|j: int| 0 <= j < i + 1 implies #[trigger] r@.contains(j as usize) by {
                if j < i {
                    assert(pre.contains(j as usize));
                    let w = choose|w: int| 0 <= w < pre.len() && pre[w] == j as usize;
                    if w < p {
                        assert(r@[w] == j as usize);
                    } else {
                        assert(r@[w + 1] == j as usize);
                    }
                } else {
                    assert(r@[p as int] == j as usize);
                }
            }
            assert forall|a: int, b: int|
                0 <= a < b < r@.len() implies spec_newer_first(keys@, r@[a] as int, r@[b] as int) by {
                let pi = p as int;
                if b < pi {
                    assert(r@[a] == pre[a] && r@[b] == pre[b]);
                } else if a < pi && b == pi {
                    assert(r@[a] == pre[a]);
                    assert(keys@[pre[a] as int] >= keys@[i as int]);
                    assert(pre[a] < i);
                } else if a < pi && b > pi {
                    assert(r@[a] == pre[a] && r@[b] == pre[b - 1]);
                } else if a == pi {
                    assert(r@[b] == pre[b - 1]);
                    assert(keys@[pre[pi] as int] < keys@[i as int]);
                    if b - 1 > pi {
                        assert(spec_newer_first(keys@, pre[pi] as int, pre[b - 1] as int));
                    }
                } else {
                    assert(r@[a] == pre[a - 1] && r@[b] == pre[b - 1]);
                }
            }
        }
        i += 1;
    }
    r
}

/// Strict lexicographic order on character sequences — the order string
/// comparison gives, since UTF-8 byte order follows code-point order.
pub open spec fn spec_str_lt(a: Seq<char>, b: Seq<char>) -> bool
    decreases a.len(),
{
    if b.len() == 0 {
        false
    } else if a.len() == 0 {
        true
    } else if a[0] < b[0] {
        true
    } else if b[0] < a[0] {
        false
    } else {
        spec_str_lt(a.drop_first(), b.drop_first())
    }
}

/// Strict lexicographic order on composite keys, component by component.
pub open spec fn spec_key_lt(a: Seq<Seq<char>>, b: Seq<Seq<char>>) -> bool
    decreases a.len(),
{
    if b.len() == 0 {
        false
    } else if a.len() == 0 {
        true
    } else if spec_str_lt(a[0], b[0]) {
        true
    } else if spec_str_lt(b[0], a[0]) {
        false
    } else {
        spec_key_lt(a.drop_first(), b.drop_first())
    }
}

proof fn lemma_str_lt_irreflexive(a: Seq<char>)
    ensures
        !spec_str_lt(a, a),
    decreases a.len(),
{
    if a.len() > 0 {
        lemma_str_lt_irreflexive(a.drop_first());
    }
}

/// Any two character sequences compare: one is strictly smaller or they
/// are equal.
proof fn lemma_str_lt_trichotomy(a: Seq<char>, b: Seq<char>)
    ensures
        spec_str_lt(a, b) || spec_str_lt(b, a) || a == b,
    decreases a.len(),
{
    if a.len() == 0 && b.len() == 0 {
        assert(a =~= b);
    } else if a.len() > 0 && b.len() > 0 && !(a[0] < b[0]) && !(b[0] < a[0]) {
        lemma_str_lt_trichotomy(a.drop_first(), b.drop_first());
        if a.drop_first() == b.drop_first() {
            assert(a[0] == b[0]);
            assert(a.drop_first().len() == b.drop_first().len());
            assert(a.len() == b.len());
            assert forall|i: int| 0 <= i < a.len() implies a[i] == b[i] by {
                if i >= 1 {
                    assert(a.drop_first()[i - 1] == a[i]);
                    assert(b.drop_first()[i - 1] == b[i]);
                }
            }
            assert(a =~= b);
        }
    }
}

proof fn lemma_str_lt_transitive(a: Seq<char>, b: Seq<char>, c: Seq<char>)
    requires
        spec_str_lt(a, b),
        spec_str_lt(b, c),
    ensures
        spec_str_lt(a, c),
    decreases a.len() + b.len() + c.len(),
{
    if a.len() > 0 && b.len() > 0 && c.len() > 0 {
        if !(a[0] < b[0]) && !(b[0] < a[0]) && !(b[0] < c[0]) && !(c[0] < b[0]) {
            lemma_str_lt_transitive(a.drop_first(), b.drop_first(), c.drop_first());
        }
    }
}

/// Any two composite keys compare: one is strictly smaller or they are
/// equal.
proof fn lemma_key_lt_trichotomy(a: Seq<Seq<char>>, b: Seq<Seq<char>>)
    ensures
        spec_key_lt(a, b) || spec_key_lt(b, a) || a == b,
    decreases a.len(),
{
    if a.len() == 0 && b.len() == 0 {
        assert(a =~= b);
    } else if a.len() > 0 && b.len() > 0 {
        lemma_str_lt_trichotomy(a[0], b[0]);
        if !spec_str_lt(a[0], b[0]) && !spec_str_lt(b[0], a[0]) {
            lemma_key_lt_trichotomy(a.drop_first(), b.drop_first());
            if a.drop_first() == b.drop_first() {
                assert(a[0] == b[0]);
                assert(a.drop_first().len() == b.drop_first().len());
                assert(a.len() == b.len());
                assert forall|i: int| 0 <= i < a.len() implies a[i] == b[i] by {
                    if i >= 1 {
                        assert(a.drop_first()[i - 1] == a[i]);
                        assert(b.drop_first()[i - 1] == b[i]);
                    }
                }
                assert(a =~= b);
            }
        }
    }
}

proof fn lemma_key_lt_transitive(a: Seq<Seq<char>>, b: Seq<Seq<char>>, c: Seq<Seq<char>>)
    requires
        spec_key_lt(a, b),
        spec_key_lt(b, c),
    ensures
        spec_key_lt(a, c),
    decreases a.len() + b.len() + c.len(),
{
    if a.len() > 0 && b.len() > 0 && c.len() > 0 {
        let a0 = a[0];
        let b0 = b[0];
        let c0 = c[0];
        lemma_str_lt_trichotomy(a0, b0);
        lemma_str_lt_trichotomy(b0, c0);
        lemma_str_lt_irreflexive(a0);
        lemma_str_lt_irreflexive(b0);
        if spec_str_lt(a0, b0) && spec_str_lt(b0, c0) {
            lemma_str_lt_transitive(a0, b0, c0);
        } else if spec_str_lt(a0, b0) && b0 == c0 {
            assert(spec_str_lt(a0, c0));
        } else if a0 == b0 && spec_str_lt(b0, c0) {
            assert(spec_str_lt(a0, c0));
        } else {
            assert(a0 == b0 && b0 == c0);
            lemma_key_lt_transitive(a.drop_first(), b.drop_first(), c.drop_first());
        }
    }
}

/// Strict lexicographic comparison of two strings.
fn str_lt(a: &str, b: &str) -> (r: bool)
    ensures
        r == spec_str_lt(a@, b@),
{
    let an = a.unicode_len();
    let bn = b.unicode_len();
    let mut i: usize = 0;
    proof {
        assert(a@.skip(0) =~= a@);
        assert(b@.skip(0) =~= b@);
    }
    while i < an && i < bn
        invariant
            0 <= i <= an,
            i <= bn,
            an == a@.len(),
            bn == b@.len(),
            spec_str_lt(a@, b@) == spec_str_lt(a@.skip(i as int), b@.skip(i as int)),
        decreases an - i,
    {
        let ca = a.get_char(i);
        let cb = b.get_char(i);
        proof {
            assert(a@.skip(i as int)[0] == a@[i as int]);
            assert(b@.skip(i as int)[0] == b@[i as int]);
            assert(a@.skip(i as int).drop_first() =~= a@.skip(i as int + 1));
            assert(b@.skip(i as int).drop_first() =~= b@.skip(i as int + 1));
        }
        if ca < cb {
            return true;
        }
        if cb < ca {
            return false;
        }
        i += 1;
    }
    proof {
        if i == bn {
            assert(b@.skip(i as int).len() == 0);
        } else {
            assert(a@.skip(i as int).len() == 0);
            assert(b@.skip(i as int).len() > 0);
        }
    }
    i < bn
}

/// Strict lexicographic comparison of two composite keys.
fn key_lt(a: &Vec<String>, b: &Vec<String>) -> (r: bool)
    ensures
        r == spec_key_lt(a.deep_view(), b.deep_view()),
{
    let an = a.len();
    let bn = b.len();
    let mut i: usize = 0;
    proof {
        assert(a.deep_view().skip(0) =~= a.deep_view());
        assert(b.deep_view().skip(0) =~= b.deep_view());
    }
    while i < an && i < bn
        invariant
            0 <= i <= an,
            i <= bn,
            an == a@.len(),
            bn == b@.len(),
            spec_key_lt(a.deep_view(), b.deep_view()) == spec_key_lt(
                a.deep_view().skip(i as int),
                b.deep_view().skip(i as int),
            ),
        decreases an - i,
    {
        proof {
            assert(a.deep_view().skip(i as int)[0] == a.deep_view()[i as int]);
            assert(b.deep_view().skip(i as int)[0] == b.deep_view()[i as int]);
            assert(a.deep_view().skip(i as int).drop_first() =~= a.deep_view().skip(i as int + 1));
            assert(b.deep_view().skip(i as int).drop_first() =~= b.deep_view().skip(i as int + 1));
        }
        if str_lt(a[i].as_str(), b[i].as_str()) {
            return true;
        }
        if str_lt(b[i].as_str(), a[i].as_str()) {
            return false;
        }
        i += 1;
    }
    proof {
        if i == bn {
            assert(b.deep_view().skip(i as int).len() == 0);
        } else {
            assert(a.deep_view().skip(i as int).len() == 0);
            assert(b.deep_view().skip(i as int).len() > 0);
        }
    }
    i < bn
}

/// Index `x` comes strictly before index `y` when sorting by key: a
/// smaller key wins, equal keys keep their original order.
pub open spec fn spec_key_before(keys: Seq<Seq<Seq<char>>>, x: int, y: int) -> bool {
    spec_key_lt(keys[x], keys[y]) || (keys[x] == keys[y] && x < y)
}

/// Sorts indices by composite key, ascending and stably: the result lists
/// every index of `keys` exactly once, and each output position strictly
/// precedes the next under key order with ties kept in original order. A
/// one-component key sorts by name; a two-component key by node, then name.
pub fn sort_by_key(keys: &Vec<Vec<String>>) -> (r: Vec<usize>)
    ensures
        r@.len() == keys@.len(),
        forall|j: int| 0 <= j < keys@.len() ==> #[trigger] r@.contains(j as usize),
        forall|k: int| 0 <= k < r@.len() ==> r@[k] < keys@.len(),
        forall|a: int, b: int|
            0 <= a < b < r@.len() ==> spec_key_before(keys.deep_view(), r@[a] as int, r@[b] as int),
{
    let ghost kdv = keys.deep_view();
    let n = keys.len();
    let mut r: Vec<usize> = Vec::new();
    let mut i: usize = 0;
    while i < n
        invariant
            0 <= i <= n,
            n == keys@.len(),
            kdv == keys.deep_view(),
            r@.len() == i,
            forall|j: int| 0 <= j < i ==> #[trigger] r@.contains(j as usize),
            forall|k: int| 0 <= k < r@.len() ==> r@[k] < i,
            forall|a: int, b: int|
                0 <= a < b < r@.len() ==> spec_key_before(kdv, r@[a] as int, r@[b] as int),
        decreases n - i,
    {
        let ghost pre = r@;
        let mut p: usize = 0;
        while p < r.len() && !key_lt(&keys[i], &keys[r[p]])
            invariant
                0 <= p <= r@.len(),
                r@ == pre,
                i < n,
                n == keys@.len(),
                kdv == keys.deep_view(),
                forall|k: int| 0 <= k < r@.len() ==> r@[k] < i,
                forall|k: int| 0 <= k < p ==> !spec_key_lt(kdv[i as int], kdv[r@[k] as int]),
            decreases r@.len() - p,
        {
            p += 1;
        }
        r.insert(p, i);
        proof {
            assert forall|j: int| 0 <= j < i + 1 implies #[trigger] r@.contains(j as usize) by {
                if j < i {
                    assert(pre.contains(j as usize));
                    let w = choose|w: int| 0 <= w < pre.len() && pre[w] == j as usize;
                    if w < p {
                        assert(r@[w] == j as usize);
                    } else {
                        assert(r@[w + 1] == j as usize);
                    }
                } else {
                    assert(r@[p as int] == j as usize);
                }
            }
            assert forall|a: int, b: int|
                0 <= a < b < r@.len() implies spec_key_before(kdv, r@[a] as int, r@[b] as int) by {
                let pi = p as int;
                if b < pi {
                    assert(r@[a] == pre[a] && r@[b] == pre[b]);
                } else if a < pi && b == pi {
                    assert(r@[a] == pre[a]);
                    assert(!spec_key_lt(kdv[i as int], kdv[pre[a] as int]));
                    lemma_key_lt_trichotomy(kdv[i as int], kdv[pre[a] as int]);
                    assert(pre[a] < i);
                } else if a < pi && b > pi {
                    assert(r@[a] == pre[a] && r@[b] == pre[b - 1]);
                } else if a == pi {
                    assert(r@[b] == pre[b - 1]);
                    assert(spec_key_lt(kdv[i as int], kdv[pre[pi] as int]));
                    if b - 1 > pi {
                        assert(spec_key_before(kdv, pre[pi] as int, pre[b - 1] as int));
                        if spec_key_lt(kdv[pre[pi] as int], kdv[pre[b - 1] as int]) {
                            lemma_key_lt_transitive(
                                kdv[i as int],
                                kdv[pre[pi] as int],
                                kdv[pre[b - 1] as int],
                            );
                        }
                    }
                } else {
                    assert(r@[a] == pre[a - 1] && r@[b] == pre[b - 1]);
                }
            }
        }
        i += 1;
    }
    r
}

} // verus!
