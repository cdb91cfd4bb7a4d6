use ghlabel::client::ApiError;
use ghlabel::executor::{outcome_of, report, Verb};
use ghlabel::label::Label;
use ghlabel::reconcile::{delete_actions, plan, reconcile, upsert_actions, Action};

fn label(name: &str, color: &str, url: &str) -> Label {
    Label { color: color.to_string(), name: name.to_string(), url: url.to_string() }
}

fn desc(a: &Action) -> (char, String, String, String) {
    match a {
        Action::Create(l) => ('C', l.name.clone(), l.color.clone(), l.url.clone()),
        Action::Update(l) => ('U', l.name.clone(), l.color.clone(), l.url.clone()),
        Action::Delete(l) => ('D', l.name.clone(), l.color.clone(), l.url.clone()),
    }
}

fn descs(v: &Vec<Action>) -> Vec<(char, String, String, String)> {
    v.iter().map(desc).collect()
}

fn t(k: char, n: &str, c: &str, u: &str) -> (char, String, String, String) {
    (k, n.to_string(), c.to_string(), u.to_string())
}

/// Carries out actions on a list of labels, as the service would.
fn apply(existing: &Vec<Label>, actions: &Vec<Action>) -> Vec<Label> {
    let mut s: Vec<Label> = existing.clone();
    for a in actions {
        match a {
            Action::Create(l) => s.push(l.clone()),
            Action::Update(l) => {
                for e in s.iter_mut() {
                    if e.name == l.name {
                        e.color = l.color.clone();
                    }
                }
            }
            Action::Delete(l) => s.retain(|e| e.name != l.name),
        }
    }
    s
}

#[test]
fn scenario_create_into_empty() {
    let desired = vec![label("bug", "fc2929", "u/bug")];
    let existing: Vec<Label> = vec![];
    let r = reconcile(&desired, &existing);
    assert_eq!(descs(&r), vec![t('C', "bug", "fc2929", "u/bug")]);
}

#[test]
fn scenario_update_changed_color() {
    let desired = vec![label("bug", "fc2929", "mine")];
    let existing = vec![label("bug", "000000", "url1")];
    let r = reconcile(&desired, &existing);
    assert_eq!(descs(&r), vec![t('U', "bug", "fc2929", "url1")]);
}

#[test]
fn scenario_delete_enabled_and_disabled() {
    let desired: Vec<Label> = vec![];
    let existing = vec![label("bug", "fc2929", "url1")];
    let r = plan(&desired, &existing, true, true);
    assert_eq!(descs(&r), vec![t('D', "bug", "fc2929", "url1")]);
    let r = plan(&desired, &existing, true, false);
    assert!(r.is_empty());
}

#[test]
fn no_create_suppresses_creates_and_updates() {
    let desired = vec![label("bug", "fc2929", "a"), label("new", "cccccc", "b")];
    let existing = vec![label("bug", "000000", "url1"), label("old", "111111", "url2")];
    let r = plan(&desired, &existing, false, true);
    assert_eq!(descs(&r), vec![t('D', "old", "111111", "url2")]);
}

#[test]
fn disjoint_names_only_create_and_delete() {
    let desired = vec![label("a", "111111", "ua"), label("b", "222222", "ub")];
    let existing = vec![label("c", "333333", "uc"), label("d", "444444", "ud")];
    let r = reconcile(&desired, &existing);
    assert_eq!(
        descs(&r),
        vec![
            t('C', "a", "111111", "ua"),
            t('C', "b", "222222", "ub"),
            t('D', "c", "333333", "uc"),
            t('D', "d", "444444", "ud"),
        ]
    );
}

#[test]
fn same_color_gives_no_action() {
    let desired = vec![label("bug", "fc2929", "x"), label("docs", "00ff00", "y")];
    let existing = vec![label("bug", "fc2929", "url1"), label("docs", "00ff00", "url2")];
    assert!(reconcile(&desired, &existing).is_empty());
}

#[test]
fn changed_color_gives_one_update() {
    let desired = vec![label("bug", "fc2929", "x"), label("docs", "00ff00", "y")];
    let existing = vec![label("docs", "0000ff", "url2"), label("bug", "fc2929", "url1")];
    let r = reconcile(&desired, &existing);
    assert_eq!(descs(&r), vec![t('U', "docs", "00ff00", "url2")]);
}

#[test]
fn creates_updates_before_deletes_in_input_order() {
    let desired = vec![label("z", "000001", "uz"), label("m", "000002", "um"), label("a", "000003", "ua")];
    let existing = vec![label("q", "999999", "uq"), label("m", "ffffff", "um1"), label("b", "888888", "ub")];
    let r = reconcile(&desired, &existing);
    assert_eq!(
        descs(&r),
        vec![
            t('C', "z", "000001", "uz"),
            t('U', "m", "000002", "um1"),
            t('C', "a", "000003", "ua"),
            t('D', "q", "999999", "uq"),
            t('D', "b", "888888", "ub"),
        ]
    );
    assert_eq!(descs(&upsert_actions(&desired, &existing)), descs(&r)[..3].to_vec());
    assert_eq!(descs(&delete_actions(&desired, &existing)), descs(&r)[3..].to_vec());
}

#[test]
fn duplicate_desired_names_first_wins() {
    let desired = vec![label("bug", "111111", "a"), label("bug", "222222", "b")];
    let existing: Vec<Label> = vec![];
    let r = reconcile(&desired, &existing);
    assert_eq!(descs(&r), vec![t('C', "bug", "111111", "a")]);
    let existing = vec![label("bug", "111111", "url1")];
    assert!(reconcile(&desired, &existing).is_empty());
}

#[test]
fn names_are_case_sensitive() {
    let desired = vec![label("Bug", "111111", "a")];
    let existing = vec![label("bug", "111111", "url1")];
    let r = reconcile(&desired, &existing);
    assert_eq!(descs(&r), vec![t('C', "Bug", "111111", "a"), t('D', "bug", "111111", "url1")]);
}

#[test]
fn rerun_after_applying_is_empty() {
    let desired = vec![label("bug", "fc2929", "a"), label("new", "cccccc", "b"), label("keep", "123456", "c")];
    let existing = vec![label("old", "000000", "u1"), label("bug", "000000", "u2"), label("keep", "123456", "u3")];
    let r = reconcile(&desired, &existing);
    assert_eq!(r.len(), 3);
    let after = apply(&existing, &r);
    assert!(reconcile(&desired, &after).is_empty());
}

#[test]
fn empty_inputs_give_no_actions() {
    let none: Vec<Label> = vec![];
    assert!(reconcile(&none, &none).is_empty());
}

#[test]
fn outcome_records_verb_name_color() {
    let o = outcome_of(&Action::Update(label("bug", "fc2929", "u")));
    assert_eq!(o.verb, Verb::Update);
    assert_eq!(o.name, "bug");
    assert_eq!(o.color, Some("fc2929".to_string()));
    assert_eq!(o.describe(false), "UPDATE bug: fc2929");
    assert_eq!(o.describe(true), "[DRY RUN] UPDATE bug: fc2929");
    let o = outcome_of(&Action::Delete(label("old", "000000", "u")));
    assert_eq!(o.verb, Verb::Delete);
    assert_eq!(o.color, None);
    assert_eq!(o.describe(false), "DELETE old");
    let o = outcome_of(&Action::Create(label("new", "cccccc", "u")));
    assert_eq!(o.describe(true), "[DRY RUN] CREATE new: cccccc");
}

#[test]
fn label_equality_is_by_name() {
    assert!(label("bug", "111111", "a") == label("bug", "222222", "b"));
    assert!(label("bug", "111111", "a") != label("Bug", "111111", "a"));
}

#[test]
fn failure_report_carries_error() {
    let a = Action::Create(label("bug", "fc2929", "u"));
    let r = report(&a, Err(ApiError::NotOk("denied".to_string())));
    assert!(matches!(&r.error, Some(ApiError::NotOk(b)) if b == "denied"));
    assert_eq!(r.outcome.verb, Verb::Create);
    assert_eq!(r.describe(), "FAILURE CREATE bug");
    let r = report(&Action::Delete(label("old", "000000", "u")), Ok(String::new()));
    assert!(r.error.is_none());
    assert_eq!(r.describe(), "DELETE old");
}
