use vstd::prelude::*;

use crate::label::{Label, LabelModel};

verus! {

/// One change that brings the remote labels closer to the template.
#[derive(Debug, Clone)]
pub enum Action {
    /// Create a label that the remote lacks.
    Create(Label),
    /// Give an existing label the desired color; the label carries the
    /// existing label's locator.
    Update(Label),
    /// Delete an existing label that the template lacks.
    Delete(Label),
}

/// The mathematical value of an `Action`.
pub enum ActionModel {
    Create(LabelModel),
    Update(LabelModel),
    Delete(LabelModel),
}

impl View for Action {
    type V = ActionModel;

    open spec fn view(&self) -> ActionModel {
        match self {
            Action::Create(l) => ActionModel::Create(l@),
            Action::Update(l) => ActionModel::Update(l@),
            Action::Delete(l) => ActionModel::Delete(l@),
        }
    }
}

impl ActionModel {
    /// The label that the action carries.
    pub open spec fn label(self) -> LabelModel {
        match self {
            ActionModel::Create(l) => l,
            ActionModel::Update(l) => l,
            ActionModel::Delete(l) => l,
        }
    }
}

/// The values of a sequence of labels.
pub open spec fn models(s: Seq<Label>) -> Seq<LabelModel> {
    s.map_values(|l: Label| l@)
}

/// The values of a sequence of actions.
pub open spec fn action_models(s: Seq<Action>) -> Seq<ActionModel> {
    s.map_values(|a: Action| a@)
}

/// Some label of `s` is named `n`.
pub open spec fn has_name(s: Seq<LabelModel>, n: Seq<char>) -> bool {
    exists|j: int| 0 <= j < s.len() && #[trigger] s[j].name == n
}

/// `k` is the first position of `s` whose label is named `n`.
pub open spec fn is_first_named(s: Seq<LabelModel>, n: Seq<char>, k: int) -> bool {
    0 <= k < s.len() && s[k].name == n && forall|j: int| 0 <= j < k ==> #[trigger] s[j].name != n
}

/// The first position of `s` whose label is named `n` (meaningful where
/// `has_name(s, n)`).
pub open spec fn first_named(s: Seq<LabelModel>, n: Seq<char>) -> int {
    choose|k: int| is_first_named(s, n, k)
}

/// No two labels of `s` share a name.
pub open spec fn unique_names(s: Seq<LabelModel>) -> bool {
    forall|i: int, j: int| 0 <= i < s.len() && 0 <= j < s.len() && i != j ==> #[trigger] s[i].name != #[trigger] s[j].name
}

/// What a desired label asks of the existing ones: nothing where a label of
/// that name has its color, an update where one has another color, and a
/// creation where none has its name. The first existing label of the name
/// is the one compared.
pub open spec fn upsert_of(d: LabelModel, existing: Seq<LabelModel>) -> Option<ActionModel> {
    if has_name(existing, d.name) {
        let e = existing[first_named(existing, d.name)];
        if e.color == d.color {
            None
        } else {
            Some(ActionModel::Update(LabelModel { name: d.name, color: d.color, url: e.url }))
        }
    } else {
        Some(ActionModel::Create(d))
    }
}

/// The create and update actions, in template order; of desired labels that
/// share a name the first one counts and the later ones are ignored.
pub open spec fn upserts(desired: Seq<LabelModel>, existing: Seq<LabelModel>) -> Seq<ActionModel>
    decreases desired.len(),
{
    if desired.len() == 0 {
        Seq::empty()
    } else {
        let prev = upserts(desired.drop_last(), existing);
        let d = desired.last();
        if has_name(desired.drop_last(), d.name) {
            prev
        } else {
            match upsert_of(d, existing) {
                Some(a) => prev.push(a),
                None => prev,
            }
        }
    }
}

/// The delete actions: each existing label whose name no desired label
/// has, in the existing labels' order.
pub open spec fn deletes(desired: Seq<LabelModel>, existing: Seq<LabelModel>) -> Seq<ActionModel>
    decreases existing.len(),
{
    if existing.len() == 0 {
        Seq::empty()
    } else {
        let prev = deletes(desired, existing.drop_last());
        let e = existing.last();
        if has_name(desired, e.name) {
            prev
        } else {
            prev.push(ActionModel::Delete(e))
        }
    }
}

/// All actions that bring `existing` to `desired`: creations and updates
/// first, then deletions.
pub open spec fn reconciled(desired: Seq<LabelModel>, existing: Seq<LabelModel>) -> Seq<ActionModel> {
    upserts(desired, existing) + deletes(desired, existing)
}

/// The first position below `end` of a label named `name`.
pub fn position_of_name(labels: &Vec<Label>, end: usize, name: &String) -> (r: Option<usize>)
    requires
        end <= labels.len(),
    ensures
        match r {
            Some(k) => k < end && is_first_named(models(labels@), name@, k as int),
            None => forall|j: int| 0 <= j < end ==> #[trigger] labels@[j].name@ != name@,
        },
{
    let mut i: usize = 0;
    while i < end
        invariant
            i <= end <= labels.len(),
            forall|j: int| 0 <= j < i ==> #[trigger] labels@[j].name@ != name@,
        decreases end - i,
    {
        if labels[i].name == *name {
            return Some(i);
        }
        i = i + 1;
    }
    None
}

/// A first position of a name is the one `first_named` picks.
pub proof fn lemma_first_named(s: Seq<LabelModel>, n: Seq<char>, k: int)
    requires
        is_first_named(s, n, k),
    ensures
        has_name(s, n),
        first_named(s, n) == k,
{
    assert(s[k].name == n);
    let c = first_named(s, n);
    assert(is_first_named(s, n, c));
    if c < k {
        assert(s[c].name != n);
    } else if c > k {
        assert(s[k].name != n);
    }
}

/// The creations and updates that bring `existing` to `desired`.
pub fn upsert_actions(desired: &Vec<Label>, existing: &Vec<Label>) -> (r: Vec<Action>)
    ensures
        action_models(r@) == upserts(models(desired@), models(existing@)),
{
    let ghost ds = models(desired@);
    let ghost es = models(existing@);
    let mut r: Vec<Action> = Vec::new();
    let mut i: usize = 0;
    while i < desired.len()
        invariant
            i <= desired.len(),
            ds == models(desired@),
            es == models(existing@),
            action_models(r@) == upserts(ds.take(i as int), es),
        decreases desired.len() - i,
    {
        let d = &desired[i];
        proof {
            assert(ds.take(i as int + 1).drop_last() =~= ds.take(i as int));
            assert(ds.take(i as int + 1).last() == d@);
        }
        let dup = position_of_name(desired, i, &d.name);
        match dup {
            Some(k) => {
                proof {
                    assert(ds.take(i as int)[k as int].name == d@.name);
                }
            },
            None => {
                proof {
                    assert(!has_name(ds.take(i as int), d@.name)) by {
                        assert forall|j: int| 0 <= j < i implies #[trigger] ds.take(i as int)[j].name != d@.name by {
                            assert(desired@[j].name@ != d.name@);
                        }
                    }
                }
                let found = position_of_name(existing, existing.len(), &d.name);
                match found {
                    Some(k) => {
                        proof {
                            lemma_first_named(es, d@.name, k as int);
                        }
                        let e = &existing[k];
                        if e.color != d.color {
                            let l = Label { color: d.color.clone(), name: d.name.clone(), url: e.url.clone() };
                            r.push(Action::Update(l));
                            proof {
                                assert(action_models(r@) =~= upserts(ds.take(i as int), es).push(
                                    ActionModel::Update(LabelModel { name: d@.name, color: d@.color, url: e@.url })));
                            }
                        }
                    },
                    None => {
                        proof {
                            assert(!has_name(es, d@.name)) by {
                                assert forall|j: int| 0 <= j < es.len() implies #[trigger] es[j].name != d@.name by {
                                    assert(existing@[j].name@ != d.name@);
                                }
                            }
                        }
                        r.push(Action::Create(d.duplicate()));
                        proof {
                            assert(action_models(r@) =~= upserts(ds.take(i as int), es).push(ActionModel::Create(d@)));
                        }
                    },
                }
            },
        }
        i = i + 1;
    }
    assert(ds.take(desired.len() as int) =~= ds);
    r
}

/// The deletions that bring `existing` to `desired`.
pub fn delete_actions(desired: &Vec<Label>, existing: &Vec<Label>) -> (r: Vec<Action>)
    ensures
        action_models(r@) == deletes(models(desired@), models(existing@)),
{
    let ghost ds = models(desired@);
    let ghost es = models(existing@);
    let mut r: Vec<Action> = Vec::new();
    let ghost ups = action_models(r@);
    assert(ups =~= Seq::<ActionModel>::empty());
    let mut m: usize = 0;
    while m < existing.len()
        invariant
            m <= existing.len(),
            ds == models(desired@),
            es == models(existing@),
            action_models(r@) == ups + deletes(ds, es.take(m as int)),
        decreases existing.len() - m,
    {
        let e = &existing[m];
        proof {
            assert(es.take(m as int + 1).drop_last() =~= es.take(m as int));
            assert(es.take(m as int + 1).last() == e@);
        }
        let kept = position_of_name(desired, desired.len(), &e.name);
        match kept {
            Some(k) => {
                proof {
                    assert(ds[k as int].name == e@.name);
                }
            },
            None => {
                proof {
                    assert(!has_name(ds, e@.name)) by {
                        assert forall|j: int| 0 <= j < ds.len() implies #[trigger] ds[j].name != e@.name by {
                            assert(desired@[j].name@ != e.name@);
                        }
                    }
                }
                let ghost before = r@;
                r.push(Action::Delete(e.duplicate()));
                proof {
                    assert(r@ == before.push(r@.last()));
                    assert(action_models(r@) =~= action_models(before).push(ActionModel::Delete(e@)));
                    assert(action_models(r@) =~= ups + deletes(ds, es.take(m as int)).push(ActionModel::Delete(e@)));
                }
            },
        }
        m = m + 1;
    }
    assert(es.take(existing.len() as int) =~= es);
    assert(ups + deletes(ds, es) =~= deletes(ds, es));
    r
}

/// The actions that bring the labels `existing` to the labels `desired`:
/// creations and updates in template order, then deletions in the order of
/// `existing`.
pub fn reconcile(desired: &Vec<Label>, existing: &Vec<Label>) -> (r: Vec<Action>)
    ensures
        action_models(r@) == reconciled(models(desired@), models(existing@)),
{
    plan(desired, existing, true, true)
}

/// The actions that bring `existing` to `desired`, without the creations
/// and updates unless `should_create`, and without the deletions unless
/// `should_delete`.
pub fn plan(desired: &Vec<Label>, existing: &Vec<Label>, should_create: bool, should_delete: bool) -> (r: Vec<Action>)
    ensures
        action_models(r@) == (if should_create { upserts(models(desired@), models(existing@)) } else { Seq::empty() })
            + (if should_delete { deletes(models(desired@), models(existing@)) } else { Seq::empty() }),
{
    let mut r: Vec<Action> = if should_create { upsert_actions(desired, existing) } else { Vec::new() };
    let mut d: Vec<Action> = if should_delete { delete_actions(desired, existing) } else { Vec::new() };
    let ghost a = r@;
    let ghost b = d@;
    r.append(&mut d);
    assert(action_models(r@) =~= action_models(a) + action_models(b));
    r
}

/// Every label named `n` in `s` has a first one.
pub proof fn lemma_first_exists(s: Seq<LabelModel>, n: Seq<char>)
    requires
        has_name(s, n),
    ensures
        is_first_named(s, n, first_named(s, n)),
{
    let j = choose|j: int| 0 <= j < s.len() && #[trigger] s[j].name == n;
    lemma_first_below(s, n, j);
}

proof fn lemma_first_below(s: Seq<LabelModel>, n: Seq<char>, j: int)
    requires
        0 <= j < s.len(),
        s[j].name == n,
    ensures
        exists|k: int| is_first_named(s, n, k),
    decreases j,
{
    if exists|k: int| 0 <= k < j && #[trigger] s[k].name == n {
        let k = choose|k: int| 0 <= k < j && #[trigger] s[k].name == n;
        lemma_first_below(s, n, k);
    } else {
        assert(is_first_named(s, n, j));
    }
}

/// In a sequence of distinct names, the label named `n` is the first one.
pub proof fn lemma_unique_first(s: Seq<LabelModel>, j: int)
    requires
        unique_names(s),
        0 <= j < s.len(),
    ensures
        has_name(s, s[j].name),
        first_named(s, s[j].name) == j,
{
    assert forall|i: int| 0 <= i < j implies #[trigger] s[i].name != s[j].name by {
        assert(s[i].name != s[j].name);
    }
    lemma_first_named(s, s[j].name, j);
}

/// `a` is what `upsert_of` asks for a desired label that is the first of
/// its name.
pub open spec fn asked_by_first(desired: Seq<LabelModel>, existing: Seq<LabelModel>, a: ActionModel) -> bool {
    exists|k: int| is_first_named(desired, desired[k].name, k) && #[trigger] upsert_of(desired[k], existing) == Some(a)
}

/// `a` deletes an existing label whose name no desired label has.
pub open spec fn deletes_unwanted(desired: Seq<LabelModel>, existing: Seq<LabelModel>, a: ActionModel) -> bool {
    exists|j: int| 0 <= j < existing.len() && !has_name(desired, existing[j].name) && a == ActionModel::Delete(#[trigger] existing[j])
}

/// What each create or update action stands for: a desired label that is
/// the first of its name and that `upsert_of` turns into that action, each
/// such label once, with distinct names.
pub proof fn lemma_upserts(desired: Seq<LabelModel>, existing: Seq<LabelModel>)
    ensures
        forall|i: int| 0 <= i < upserts(desired, existing).len() ==> asked_by_first(desired, existing, #[trigger] upserts(desired, existing)[i]),
        forall|k: int| is_first_named(desired, desired[k].name, k) && (#[trigger] upsert_of(desired[k], existing)) is Some
            ==> upserts(desired, existing).contains(upsert_of(desired[k], existing)->Some_0),
        forall|i: int, j: int| 0 <= i < upserts(desired, existing).len() && 0 <= j < upserts(desired, existing).len() && i != j
            ==> (#[trigger] upserts(desired, existing)[i]).label().name != (#[trigger] upserts(desired, existing)[j]).label().name,
    decreases desired.len(),
{
    if desired.len() > 0 {
        let p = desired.drop_last();
        let d = desired.last();
        let last = desired.len() - 1;
        lemma_upserts(p, existing);
        let prev = upserts(p, existing);
        let u = upserts(desired, existing);
        assert forall|k: int| 0 <= k < last implies
            is_first_named(desired, desired[k].name, k) == is_first_named(p, p[k].name, k) by {
            assert(p[k] == desired[k]);
            if is_first_named(p, p[k].name, k) {
                assert forall|j: int| 0 <= j < k implies #[trigger] desired[j].name != desired[k].name by {
                    assert(p[j] == desired[j]);
                }
            }
            if is_first_named(desired, desired[k].name, k) {
                assert forall|j: int| 0 <= j < k implies #[trigger] p[j].name != p[k].name by {
                    assert(p[j] == desired[j]);
                }
            }
        }
        if has_name(p, d.name) {
            let w = choose|w: int| 0 <= w < p.len() && #[trigger] p[w].name == d.name;
            assert(desired[w].name == desired[last].name);
            assert(!is_first_named(desired, desired[last].name, last));
            assert forall|i: int| 0 <= i < u.len() implies asked_by_first(desired, existing, #[trigger] u[i]) by {
                let k = choose|k: int| is_first_named(p, p[k].name, k) && #[trigger] upsert_of(p[k], existing) == Some(prev[i]);
                assert(desired[k] == p[k]);
            }
            assert forall|k: int| is_first_named(desired, desired[k].name, k) && (#[trigger] upsert_of(desired[k], existing)) is Some
                implies u.contains(upsert_of(desired[k], existing)->Some_0) by {
                assert(k != last);
                assert(desired[k] == p[k]);
                assert(upsert_of(p[k], existing) is Some);
            }
        } else {
            assert(is_first_named(desired, desired[last].name, last)) by {
                assert forall|j: int| 0 <= j < last implies #[trigger] desired[j].name != desired[last].name by {
                    assert(p[j] == desired[j]);
                }
            }
            assert forall|i: int| 0 <= i < prev.len() implies (#[trigger] prev[i]).label().name != d.name by {
                let k = choose|k: int| is_first_named(p, p[k].name, k) && #[trigger] upsert_of(p[k], existing) == Some(prev[i]);
                assert(p[k].name != d.name);
            }
            assert forall|i: int| 0 <= i < u.len() implies asked_by_first(desired, existing, #[trigger] u[i]) by {
                if i < prev.len() {
                    let k = choose|k: int| is_first_named(p, p[k].name, k) && #[trigger] upsert_of(p[k], existing) == Some(prev[i]);
                    assert(desired[k] == p[k]);
                } else {
                    assert(upsert_of(desired[last], existing) == Some(u[i]));
                }
            }
            assert forall|k: int| is_first_named(desired, desired[k].name, k) && (#[trigger] upsert_of(desired[k], existing)) is Some
                implies u.contains(upsert_of(desired[k], existing)->Some_0) by {
                if k == last {
                    assert(u[u.len() - 1] == upsert_of(desired[k], existing)->Some_0);
                } else {
                    assert(desired[k] == p[k]);
                    assert(upsert_of(p[k], existing) is Some);
                    let i = choose|i: int| 0 <= i < prev.len() && prev[i] == upsert_of(p[k], existing)->Some_0;
                    assert(u[i] == prev[i]);
                }
            }
        }
    }
}

/// What each delete action stands for: an existing label whose name no
/// desired label has, and each such label has its delete action.
pub proof fn lemma_deletes(desired: Seq<LabelModel>, existing: Seq<LabelModel>)
    ensures
        forall|i: int| 0 <= i < deletes(desired, existing).len() ==> deletes_unwanted(desired, existing, #[trigger] deletes(desired, existing)[i]),
        forall|j: int| 0 <= j < existing.len() && !has_name(desired, (#[trigger] existing[j]).name)
            ==> deletes(desired, existing).contains(ActionModel::Delete(existing[j])),
    decreases existing.len(),
{
    if existing.len() > 0 {
        let p = existing.drop_last();
        let last = existing.len() - 1;
        lemma_deletes(desired, p);
        let prev = deletes(desired, p);
        let del = deletes(desired, existing);
        assert forall|i: int| 0 <= i < del.len() implies deletes_unwanted(desired, existing, #[trigger] del[i]) by {
            if i < prev.len() {
                let j = choose|j: int| 0 <= j < p.len() && !has_name(desired, p[j].name)
                    && #[trigger] prev[i] == ActionModel::Delete(p[j]);
                assert(existing[j] == p[j]);
            } else {
                assert(del[i] == ActionModel::Delete(existing[last]));
            }
        }
        assert forall|j: int| 0 <= j < existing.len() && !has_name(desired, (#[trigger] existing[j]).name)
            implies del.contains(ActionModel::Delete(existing[j])) by {
            if j == last {
                assert(del[del.len() - 1] == ActionModel::Delete(existing[j]));
            } else {
                assert(existing[j] == p[j]);
                let i = choose|i: int| 0 <= i < prev.len() && prev[i] == ActionModel::Delete(p[j]);
                assert(del[i] == prev[i]);
            }
        }
    }
}

/// A creation for each desired label that is the first of its name, in
/// template order.
pub open spec fn creations(desired: Seq<LabelModel>) -> Seq<ActionModel>
    decreases desired.len(),
{
    if desired.len() == 0 {
        Seq::empty()
    } else {
        let prev = creations(desired.drop_last());
        if has_name(desired.drop_last(), desired.last().name) {
            prev
        } else {
            prev.push(ActionModel::Create(desired.last()))
        }
    }
}

/// A deletion for each label of `existing`, in its order.
pub open spec fn deletions(existing: Seq<LabelModel>) -> Seq<ActionModel> {
    existing.map_values(|e: LabelModel| ActionModel::Delete(e))
}

/// No desired label shares its name with an existing one.
pub open spec fn disjoint_names(desired: Seq<LabelModel>, existing: Seq<LabelModel>) -> bool {
    forall|i: int, j: int| 0 <= i < desired.len() && 0 <= j < existing.len() ==> #[trigger] desired[i].name != #[trigger] existing[j].name
}

proof fn lemma_upserts_disjoint(desired: Seq<LabelModel>, existing: Seq<LabelModel>)
    requires
        disjoint_names(desired, existing),
    ensures
        upserts(desired, existing) == creations(desired),
    decreases desired.len(),
{
    if desired.len() > 0 {
        let p = desired.drop_last();
        assert(disjoint_names(p, existing)) by {
            assert forall|i: int, j: int| 0 <= i < p.len() && 0 <= j < existing.len() implies #[trigger] p[i].name != #[trigger] existing[j].name by {
                assert(p[i] == desired[i]);
            }
        }
        lemma_upserts_disjoint(p, existing);
        let d = desired.last();
        assert(!has_name(existing, d.name)) by {
            assert forall|j: int| 0 <= j < existing.len() implies #[trigger] existing[j].name != d.name by {
                assert(desired[desired.len() - 1].name != existing[j].name);
            }
        }
    }
}

proof fn lemma_deletes_disjoint(desired: Seq<LabelModel>, existing: Seq<LabelModel>)
    requires
        disjoint_names(desired, existing),
    ensures
        deletes(desired, existing) == deletions(existing),
    decreases existing.len(),
{
    if existing.len() > 0 {
        let p = existing.drop_last();
        assert(disjoint_names(desired, p)) by {
            assert forall|i: int, j: int| 0 <= i < desired.len() && 0 <= j < p.len() implies #[trigger] desired[i].name != #[trigger] p[j].name by {
                assert(p[j] == existing[j]);
            }
        }
        lemma_deletes_disjoint(desired, p);
        let e = existing.last();
        assert(!has_name(desired, e.name)) by {
            assert forall|i: int| 0 <= i < desired.len() implies #[trigger] desired[i].name != e.name by {
                assert(desired[i].name != existing[existing.len() - 1].name);
            }
        }
        assert(deletions(existing) =~= deletions(p).push(ActionModel::Delete(e)));
    }
}

/// Where no name is shared, every desired label is created (the first of
/// each name) and every existing label is deleted, and nothing is updated.
pub proof fn law_disjoint_names(desired: Seq<LabelModel>, existing: Seq<LabelModel>)
    requires
        disjoint_names(desired, existing),
    ensures
        reconciled(desired, existing) == creations(desired) + deletions(existing),
{
    lemma_upserts_disjoint(desired, existing);
    lemma_deletes_disjoint(desired, existing);
}

/// Where the first desired and the first existing label named `n` have the
/// same color, no action concerns the name `n`.
pub proof fn law_same_color_untouched(desired: Seq<LabelModel>, existing: Seq<LabelModel>, n: Seq<char>)
    requires
        has_name(desired, n),
        has_name(existing, n),
        desired[first_named(desired, n)].color == existing[first_named(existing, n)].color,
    ensures
        forall|i: int| 0 <= i < reconciled(desired, existing).len() ==> (#[trigger] reconciled(desired, existing)[i]).label().name != n,
{
    lemma_upserts(desired, existing);
    lemma_deletes(desired, existing);
    lemma_first_exists(desired, n);
    let u = upserts(desired, existing);
    let del = deletes(desired, existing);
    let r = reconciled(desired, existing);
    assert forall|i: int| 0 <= i < r.len() implies (#[trigger] r[i]).label().name != n by {
        if i < u.len() {
            assert(r[i] == u[i]);
            assert(asked_by_first(desired, existing, u[i]));
            let k = choose|k: int| is_first_named(desired, desired[k].name, k) && #[trigger] upsert_of(desired[k], existing) == Some(u[i]);
            if desired[k].name == n {
                lemma_first_named(desired, n, k);
            }
        } else {
            assert(r[i] == del[i - u.len()]);
            assert(deletes_unwanted(desired, existing, del[i - u.len()]));
        }
    }
}

/// Where the first desired and the first existing label named `n` differ
/// in color, exactly one action concerns `n`: an update to the desired
/// color, at the existing label's locator.
pub proof fn law_changed_color_updated(desired: Seq<LabelModel>, existing: Seq<LabelModel>, n: Seq<char>)
    requires
        has_name(desired, n),
        has_name(existing, n),
        desired[first_named(desired, n)].color != existing[first_named(existing, n)].color,
    ensures
        exists|i: int| 0 <= i < reconciled(desired, existing).len()
            && #[trigger] reconciled(desired, existing)[i] == ActionModel::Update(LabelModel {
                name: n,
                color: desired[first_named(desired, n)].color,
                url: existing[first_named(existing, n)].url,
            })
            && forall|j: int| 0 <= j < reconciled(desired, existing).len() && j != i
                ==> (#[trigger] reconciled(desired, existing)[j]).label().name != n,
{
    lemma_upserts(desired, existing);
    lemma_deletes(desired, existing);
    lemma_first_exists(desired, n);
    let u = upserts(desired, existing);
    let del = deletes(desired, existing);
    let r = reconciled(desired, existing);
    let k = first_named(desired, n);
    let want = ActionModel::Update(LabelModel {
        name: n,
        color: desired[k].color,
        url: existing[first_named(existing, n)].url,
    });
    assert(upsert_of(desired[k], existing) == Some(want));
    assert(u.contains(want));
    let i = choose|i: int| 0 <= i < u.len() && u[i] == want;
    assert(r[i] == want);
    assert forall|j: int| 0 <= j < r.len() && j != i implies (#[trigger] r[j]).label().name != n by {
        if j < u.len() {
            assert(r[j] == u[j]);
            assert(u[i].label().name != u[j].label().name);
        } else {
            assert(r[j] == del[j - u.len()]);
            assert(deletes_unwanted(desired, existing, del[j - u.len()]));
        }
    }
}

/// Where the desired names are distinct, each desired label is created.
pub proof fn lemma_creations_distinct(desired: Seq<LabelModel>)
    requires
        unique_names(desired),
    ensures
        creations(desired) == desired.map_values(|d: LabelModel| ActionModel::Create(d)),
    decreases desired.len(),
{
    if desired.len() > 0 {
        let p = desired.drop_last();
        let last = desired.len() - 1;
        assert(unique_names(p)) by {
            assert forall|i: int, j: int| 0 <= i < p.len() && 0 <= j < p.len() && i != j implies #[trigger] p[i].name != #[trigger] p[j].name by {
                assert(p[i] == desired[i] && p[j] == desired[j]);
            }
        }
        lemma_creations_distinct(p);
        assert(!has_name(p, desired.last().name)) by {
            assert forall|j: int| 0 <= j < p.len() implies #[trigger] p[j].name != desired.last().name by {
                assert(p[j] == desired[j]);
                assert(desired[j].name != desired[last].name);
            }
        }
        assert(desired.map_values(|d: LabelModel| ActionModel::Create(d)) =~= p.map_values(
            |d: LabelModel| ActionModel::Create(d)).push(ActionModel::Create(desired.last())));
    }
}

/// Where no name is shared and the desired names are distinct, every
/// desired label is created once, in template order, then every existing
/// label is deleted, and nothing is updated.
pub proof fn law_disjoint_distinct_names(desired: Seq<LabelModel>, existing: Seq<LabelModel>)
    requires
        disjoint_names(desired, existing),
        unique_names(desired),
    ensures
        reconciled(desired, existing) == desired.map_values(|d: LabelModel| ActionModel::Create(d)) + deletions(existing),
{
    law_disjoint_names(desired, existing);
    lemma_creations_distinct(desired);
}

} // verus!
