use vstd::prelude::*;

use crate::label::LabelModel;
use crate::reconcile::{
    asked_by_first, deletes, deletes_unwanted, has_name, is_first_named, lemma_deletes,
    lemma_first_named, lemma_unique_first, lemma_upserts, reconciled, unique_names, upsert_of,
    upserts, ActionModel,
};

verus! {

/// The labels of `s` whose name is not `n`, in order.
pub open spec fn without_name(s: Seq<LabelModel>, n: Seq<char>) -> Seq<LabelModel>
    decreases s.len(),
{
    if s.len() == 0 {
        s
    } else {
        let prev = without_name(s.drop_last(), n);
        if s.last().name == n {
            prev
        } else {
            prev.push(s.last())
        }
    }
}

/// The labels of `s`, with the label named `l.name` given `l`'s color.
pub open spec fn recolored(s: Seq<LabelModel>, l: LabelModel) -> Seq<LabelModel> {
    s.map_values(|e: LabelModel| if e.name == l.name { LabelModel { name: e.name, color: l.color, url: e.url } } else { e })
}

/// The remote labels after the service carried out `a`: a creation adds
/// the label, an update recolors the label of its name, a deletion removes
/// the label of its name.
pub open spec fn apply_action(s: Seq<LabelModel>, a: ActionModel) -> Seq<LabelModel> {
    match a {
        ActionModel::Create(l) => s.push(l),
        ActionModel::Update(l) => recolored(s, l),
        ActionModel::Delete(l) => without_name(s, l.name),
    }
}

/// The remote labels after the service carried out `acts` in order.
pub open spec fn apply_all(s: Seq<LabelModel>, acts: Seq<ActionModel>) -> Seq<LabelModel>
    decreases acts.len(),
{
    if acts.len() == 0 {
        s
    } else {
        apply_action(apply_all(s, acts.drop_last()), acts.last())
    }
}

proof fn lemma_apply_concat(s: Seq<LabelModel>, a: Seq<ActionModel>, b: Seq<ActionModel>)
    ensures
        apply_all(s, a + b) == apply_all(apply_all(s, a), b),
    decreases b.len(),
{
    if b.len() == 0 {
        assert(a + b =~= a);
    } else {
        assert((a + b).drop_last() =~= a + b.drop_last());
        lemma_apply_concat(s, a, b.drop_last());
    }
}

proof fn lemma_apply_push(s: Seq<LabelModel>, acts: Seq<ActionModel>, a: ActionModel)
    ensures
        apply_all(s, acts.push(a)) == apply_action(apply_all(s, acts), a),
{
    assert(acts.push(a).drop_last() =~= acts);
}

proof fn lemma_without_name(s: Seq<LabelModel>, n: Seq<char>)
    ensures
        forall|i: int| 0 <= i < without_name(s, n).len() ==> (#[trigger] without_name(s, n)[i]).name != n
            && s.contains(without_name(s, n)[i]),
        forall|i: int| 0 <= i < s.len() && (#[trigger] s[i]).name != n ==> without_name(s, n).contains(s[i]),
        unique_names(s) ==> unique_names(without_name(s, n)),
    decreases s.len(),
{
    if s.len() > 0 {
        let p = s.drop_last();
        lemma_without_name(p, n);
        let w = without_name(s, n);
        let wp = without_name(p, n);
        assert forall|i: int| 0 <= i < w.len() implies (#[trigger] w[i]).name != n && s.contains(w[i]) by {
            if i < wp.len() {
                assert(w[i] == wp[i]);
                let j = choose|j: int| 0 <= j < p.len() && p[j] == wp[i];
                assert(s[j] == p[j]);
            } else {
                assert(w[i] == s[s.len() - 1]);
            }
        }
        assert forall|i: int| 0 <= i < s.len() && (#[trigger] s[i]).name != n implies w.contains(s[i]) by {
            if i < p.len() {
                assert(p[i] == s[i]);
                let j = choose|j: int| 0 <= j < wp.len() && wp[j] == p[i];
                assert(w[j] == wp[j]);
            } else {
                assert(w[w.len() - 1] == s[i]);
            }
        }
        if unique_names(s) {
            assert(unique_names(p)) by {
                assert forall|i: int, j: int| 0 <= i < p.len() && 0 <= j < p.len() && i != j implies #[trigger] p[i].name != #[trigger] p[j].name by {
                    assert(p[i] == s[i] && p[j] == s[j]);
                }
            }
            assert forall|i: int, j: int| 0 <= i < w.len() && 0 <= j < w.len() && i != j implies #[trigger] w[i].name != #[trigger] w[j].name by {
                if i < wp.len() && j < wp.len() {
                    assert(w[i] == wp[i] && w[j] == wp[j]);
                } else if i < wp.len() {
                    assert(w[i] == wp[i]);
                    let a = choose|a: int| 0 <= a < p.len() && p[a] == wp[i];
                    assert(s[a] == p[a]);
                    assert(s[a].name != s[s.len() - 1].name);
                } else if j < wp.len() {
                    assert(w[j] == wp[j]);
                    let a = choose|a: int| 0 <= a < p.len() && p[a] == wp[j];
                    assert(s[a] == p[a]);
                    assert(s[a].name != s[s.len() - 1].name);
                }
            }
        }
    }
}

/// Some label of `s` is named `n` and has color `c`.
pub open spec fn has_colored(s: Seq<LabelModel>, n: Seq<char>, c: Seq<char>) -> bool {
    exists|j: int| 0 <= j < s.len() && #[trigger] s[j].name == n && s[j].color == c
}

proof fn lemma_has_name_last(s: Seq<LabelModel>)
    requires
        s.len() > 0,
    ensures
        forall|m: Seq<char>| #[trigger] has_name(s, m) <==> (has_name(s.drop_last(), m) || s.last().name == m),
{
    let p = s.drop_last();
    assert forall|m: Seq<char>| #[trigger] has_name(s, m) <==> (has_name(p, m) || s.last().name == m) by {
        if has_name(s, m) {
            let j = choose|j: int| 0 <= j < s.len() && #[trigger] s[j].name == m;
            if j < p.len() {
                assert(p[j] == s[j]);
            }
        }
        if has_name(p, m) {
            let j = choose|j: int| 0 <= j < p.len() && #[trigger] p[j].name == m;
            assert(s[j] == p[j]);
        }
        if s.last().name == m {
            assert(s[s.len() - 1].name == m);
        }
    }
}

proof fn lemma_first_last(s: Seq<LabelModel>)
    requires
        s.len() > 0,
    ensures
        forall|k: int| 0 <= k < s.len() - 1 ==> #[trigger] is_first_named(s, s[k].name, k)
            == is_first_named(s.drop_last(), s[k].name, k),
        is_first_named(s, s.last().name, s.len() - 1) == !has_name(s.drop_last(), s.last().name),
{
    let p = s.drop_last();
    assert forall|k: int| 0 <= k < s.len() - 1 implies #[trigger] is_first_named(s, s[k].name, k)
        == is_first_named(p, s[k].name, k) by {
        assert(p[k] == s[k]);
        if is_first_named(p, s[k].name, k) {
            assert forall|j: int| 0 <= j < k implies #[trigger] s[j].name != s[k].name by {
                assert(p[j] == s[j]);
            }
        }
        if is_first_named(s, s[k].name, k) {
            assert forall|j: int| 0 <= j < k implies #[trigger] p[j].name != s[k].name by {
                assert(p[j] == s[j]);
            }
        }
    }
    let l = s.len() - 1;
    if !has_name(p, s.last().name) {
        assert forall|j: int| 0 <= j < l implies #[trigger] s[j].name != s[l].name by {
            assert(p[j] == s[j]);
        }
    } else {
        let j = choose|j: int| 0 <= j < p.len() && #[trigger] p[j].name == s.last().name;
        assert(s[j] == p[j]);
    }
}

/// After the creations and updates, the labels have distinct names, each
/// desired name (first of its kind) with its desired color; each label is
/// named by the template or was there before, and those outside the
/// template are the untouched existing ones.
proof fn lemma_apply_upserts(desired: Seq<LabelModel>, existing: Seq<LabelModel>)
    requires
        unique_names(existing),
    ensures
        unique_names(apply_all(existing, upserts(desired, existing))),
        forall|k: int| #[trigger] is_first_named(desired, desired[k].name, k)
            ==> has_colored(apply_all(existing, upserts(desired, existing)), desired[k].name, desired[k].color),
        forall|j: int| 0 <= j < apply_all(existing, upserts(desired, existing)).len()
            ==> has_name(existing, (#[trigger] apply_all(existing, upserts(desired, existing))[j]).name)
                || has_name(desired, apply_all(existing, upserts(desired, existing))[j].name),
        forall|i: int| 0 <= i < existing.len() && !has_name(desired, (#[trigger] existing[i]).name)
            ==> apply_all(existing, upserts(desired, existing)).contains(existing[i]),
        forall|j: int| 0 <= j < apply_all(existing, upserts(desired, existing)).len()
            && !has_name(desired, (#[trigger] apply_all(existing, upserts(desired, existing))[j]).name)
            ==> existing.contains(apply_all(existing, upserts(desired, existing))[j]),
    decreases desired.len(),
{
    if desired.len() > 0 {
        let p = desired.drop_last();
        let d = desired.last();
        let n = d.name;
        let last = desired.len() - 1;
        lemma_apply_upserts(p, existing);
        lemma_has_name_last(desired);
        lemma_first_last(desired);
        let prev = upserts(p, existing);
        let sp = apply_all(existing, prev);
        let s = apply_all(existing, upserts(desired, existing));
        assert(desired[last] == d);
        if has_name(p, n) {
            assert(s == sp);
            assert forall|k: int| #[trigger] is_first_named(desired, desired[k].name, k)
                implies has_colored(s, desired[k].name, desired[k].color) by {
                assert(k != last);
                assert(p[k] == desired[k]);
                assert(is_first_named(p, p[k].name, k));
            }
        } else {
            assert(is_first_named(desired, n, last));
            match upsert_of(d, existing) {
                None => {
                    assert(s == sp);
                    let e0 = crate::reconcile::first_named(existing, n);
                    crate::reconcile::lemma_first_exists(existing, n);
                    assert(sp.contains(existing[e0]));
                    assert forall|k: int| #[trigger] is_first_named(desired, desired[k].name, k)
                        implies has_colored(s, desired[k].name, desired[k].color) by {
                        if k == last {
                            let j = choose|j: int| 0 <= j < sp.len() && sp[j] == existing[e0];
                            assert(s[j].name == n);
                        } else {
                            assert(p[k] == desired[k]);
                            assert(is_first_named(p, p[k].name, k));
                        }
                    }
                },
                Some(a) => {
                    lemma_apply_push(existing, prev, a);
                    assert(s == apply_action(sp, a));
                    if has_name(existing, n) {
                        let e0 = crate::reconcile::first_named(existing, n);
                        crate::reconcile::lemma_first_exists(existing, n);
                        let l = LabelModel { name: n, color: d.color, url: existing[e0].url };
                        assert(a == ActionModel::Update(l));
                        assert(s == recolored(sp, l));
                        assert(sp.contains(existing[e0]));
                        let j0 = choose|j: int| 0 <= j < sp.len() && sp[j] == existing[e0];
                        assert(s.len() == sp.len());
                        assert forall|j: int| 0 <= j < s.len() implies (#[trigger] s[j]).name == sp[j].name
                            && (sp[j].name != n ==> s[j] == sp[j]) by {}
                        assert forall|k: int| #[trigger] is_first_named(desired, desired[k].name, k)
                            implies has_colored(s, desired[k].name, desired[k].color) by {
                            if k == last {
                                assert(s[j0].name == n && s[j0].color == d.color);
                            } else {
                                assert(p[k] == desired[k]);
                                assert(is_first_named(p, p[k].name, k));
                                let j = choose|j: int| 0 <= j < sp.len() && #[trigger] sp[j].name == p[k].name && sp[j].color == p[k].color;
                                assert(has_name(p, p[k].name));
                                assert(s[j] == sp[j]);
                            }
                        }
                        assert forall|i: int| 0 <= i < existing.len() && !has_name(desired, (#[trigger] existing[i]).name)
                            implies s.contains(existing[i]) by {
                            let j = choose|j: int| 0 <= j < sp.len() && sp[j] == existing[i];
                            assert(s[j] == sp[j]);
                        }
                        assert forall|j: int| 0 <= j < s.len() && !has_name(desired, (#[trigger] s[j]).name)
                            implies existing.contains(s[j]) by {
                            assert(s[j] == sp[j]);
                        }
                        assert forall|j: int| 0 <= j < s.len()
                            implies has_name(existing, (#[trigger] s[j]).name) || has_name(desired, s[j].name) by {
                            assert(s[j].name == sp[j].name);
                        }
                        assert forall|i: int, j: int| 0 <= i < s.len() && 0 <= j < s.len() && i != j
                            implies #[trigger] s[i].name != #[trigger] s[j].name by {
                            assert(s[i].name == sp[i].name && s[j].name == sp[j].name);
                        }
                    } else {
                        assert(a == ActionModel::Create(d));
                        assert(s == sp.push(d));
                        assert forall|j: int| 0 <= j < sp.len() implies (#[trigger] sp[j]).name != n by {
                            assert(has_name(existing, sp[j].name) || has_name(p, sp[j].name));
                        }
                        assert forall|k: int| #[trigger] is_first_named(desired, desired[k].name, k)
                            implies has_colored(s, desired[k].name, desired[k].color) by {
                            if k == last {
                                assert(s[s.len() - 1] == d);
                            } else {
                                assert(p[k] == desired[k]);
                                assert(is_first_named(p, p[k].name, k));
                                let j = choose|j: int| 0 <= j < sp.len() && #[trigger] sp[j].name == p[k].name && sp[j].color == p[k].color;
                                assert(s[j] == sp[j]);
                            }
                        }
                        assert forall|i: int| 0 <= i < existing.len() && !has_name(desired, (#[trigger] existing[i]).name)
                            implies s.contains(existing[i]) by {
                            let j = choose|j: int| 0 <= j < sp.len() && sp[j] == existing[i];
                            assert(s[j] == sp[j]);
                        }
                        assert forall|j: int| 0 <= j < s.len() && !has_name(desired, (#[trigger] s[j]).name)
                            implies existing.contains(s[j]) by {
                            assert(j < sp.len());
                            assert(s[j] == sp[j]);
                        }
                        assert forall|j: int| 0 <= j < s.len()
                            implies has_name(existing, (#[trigger] s[j]).name) || has_name(desired, s[j].name) by {
                            if j < sp.len() {
                                assert(s[j] == sp[j]);
                            }
                        }
                        assert forall|i: int, j: int| 0 <= i < s.len() && 0 <= j < s.len() && i != j
                            implies #[trigger] s[i].name != #[trigger] s[j].name by {
                            if i < sp.len() && j < sp.len() {
                                assert(s[i] == sp[i] && s[j] == sp[j]);
                            } else if i < sp.len() {
                                assert(s[i] == sp[i]);
                            } else {
                                assert(s[j] == sp[j]);
                            }
                        }
                    }
                },
            }
        }
    }
}

/// After deleting, for each label of `ex` outside the template, the labels
/// of that name: what remains are the labels of `s` that were not to go,
/// all of them, with names still distinct.
proof fn lemma_apply_deletes(desired: Seq<LabelModel>, ex: Seq<LabelModel>, s: Seq<LabelModel>)
    requires
        unique_names(s),
    ensures
        unique_names(apply_all(s, deletes(desired, ex))),
        forall|j: int| 0 <= j < apply_all(s, deletes(desired, ex)).len() ==> s.contains(
            #[trigger] apply_all(s, deletes(desired, ex))[j]) && (has_name(desired, apply_all(s, deletes(desired, ex))[j].name)
                || !has_name(ex, apply_all(s, deletes(desired, ex))[j].name)),
        forall|i: int| 0 <= i < s.len() && (has_name(desired, (#[trigger] s[i]).name) || !has_name(ex, s[i].name))
            ==> apply_all(s, deletes(desired, ex)).contains(s[i]),
    decreases ex.len(),
{
    if ex.len() > 0 {
        let p = ex.drop_last();
        let e = ex.last();
        lemma_apply_deletes(desired, p, s);
        lemma_has_name_last(ex);
        let tp = apply_all(s, deletes(desired, p));
        let t = apply_all(s, deletes(desired, ex));
        if !has_name(desired, e.name) {
            lemma_apply_push(s, deletes(desired, p), ActionModel::Delete(e));
            assert(t == without_name(tp, e.name));
            lemma_without_name(tp, e.name);
            assert forall|j: int| 0 <= j < t.len() implies s.contains(#[trigger] t[j])
                && (has_name(desired, t[j].name) || !has_name(ex, t[j].name)) by {
                let a = choose|a: int| 0 <= a < tp.len() && tp[a] == t[j];
                assert(s.contains(tp[a]));
            }
            assert forall|i: int| 0 <= i < s.len() && (has_name(desired, (#[trigger] s[i]).name) || !has_name(ex, s[i].name))
                implies t.contains(s[i]) by {
                assert(tp.contains(s[i]));
                let a = choose|a: int| 0 <= a < tp.len() && tp[a] == s[i];
                assert(tp[a].name != e.name);
            }
        } else {
            assert(t == tp);
        }
    }
}

/// Labels with distinct names, each named by the template, each first
/// desired label present with its color.
pub open spec fn converged(desired: Seq<LabelModel>, s: Seq<LabelModel>) -> bool {
    &&& unique_names(s)
    &&& forall|k: int| #[trigger] is_first_named(desired, desired[k].name, k) ==> has_colored(s, desired[k].name, desired[k].color)
    &&& forall|j: int| 0 <= j < s.len() ==> has_name(desired, (#[trigger] s[j]).name)
}

proof fn lemma_converged_quiet(desired: Seq<LabelModel>, s: Seq<LabelModel>)
    requires
        converged(desired, s),
    ensures
        reconciled(desired, s).len() == 0,
{
    lemma_upserts(desired, s);
    lemma_deletes(desired, s);
    let u = upserts(desired, s);
    let del = deletes(desired, s);
    if u.len() > 0 {
        assert(asked_by_first(desired, s, u[0]));
        let k = choose|k: int| is_first_named(desired, desired[k].name, k) && #[trigger] upsert_of(desired[k], s) == Some(u[0]);
        let j = choose|j: int| 0 <= j < s.len() && #[trigger] s[j].name == desired[k].name && s[j].color == desired[k].color;
        lemma_unique_first(s, j);
    }
    if del.len() > 0 {
        assert(deletes_unwanted(desired, s, del[0]));
    }
}

/// Running the reconciliation again, on the remote labels as they are
/// after its actions were carried out, asks for nothing more. The remote
/// labels start with distinct names, as the service keeps them.
pub proof fn law_idempotent(desired: Seq<LabelModel>, existing: Seq<LabelModel>)
    requires
        unique_names(existing),
    ensures
        reconciled(desired, apply_all(existing, reconciled(desired, existing))).len() == 0,
{
    let u = upserts(desired, existing);
    let del = deletes(desired, existing);
    lemma_apply_concat(existing, u, del);
    lemma_apply_upserts(desired, existing);
    let s = apply_all(existing, u);
    lemma_apply_deletes(desired, existing, s);
    let t = apply_all(s, del);
    assert forall|k: int| #[trigger] is_first_named(desired, desired[k].name, k)
        implies has_colored(t, desired[k].name, desired[k].color) by {
        let j = choose|j: int| 0 <= j < s.len() && #[trigger] s[j].name == desired[k].name && s[j].color == desired[k].color;
        assert(has_name(desired, s[j].name));
        assert(t.contains(s[j]));
        let a = choose|a: int| 0 <= a < t.len() && t[a] == s[j];
        assert(t[a].name == desired[k].name);
    }
    assert forall|j: int| 0 <= j < t.len() implies has_name(desired, (#[trigger] t[j]).name) by {
        let a = choose|a: int| 0 <= a < s.len() && s[a] == t[j];
        assert(has_name(existing, s[a].name) || has_name(desired, s[a].name));
    }
    lemma_converged_quiet(desired, t);
}

} // verus!
