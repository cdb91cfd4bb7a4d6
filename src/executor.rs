use vstd::prelude::*;
use vstd::string::StringExecFns;

use crate::client::ApiError;
use crate::reconcile::{Action, ActionModel};

verus! {

/// What an action does to a label.
#[derive(Debug, Clone, Copy, PartialEq, Eq, Structural)]
pub enum Verb {
    Create,
    Update,
    Delete,
}

/// The record of one action carried out (or, on a dry run, planned): its
/// verb, the label's name and, but for a deletion, its color.
#[derive(Debug)]
pub struct Outcome {
    pub verb: Verb,
    pub name: String,
    pub color: Option<String>,
}

/// The verb of an action.
pub open spec fn verb_of(a: ActionModel) -> Verb {
    match a {
        ActionModel::Create(_) => Verb::Create,
        ActionModel::Update(_) => Verb::Update,
        ActionModel::Delete(_) => Verb::Delete,
    }
}

/// How a verb is written in a report.
pub open spec fn verb_word(v: Verb) -> Seq<char> {
    match v {
        Verb::Create => "CREATE"@,
        Verb::Update => "UPDATE"@,
        Verb::Delete => "DELETE"@,
    }
}

/// The line that reports an outcome: `[DRY RUN] ` on a dry run, the verb,
/// the name, and `: color` where there is a color.
pub open spec fn outcome_text(o: Outcome, dry_run: bool) -> Seq<char> {
    (if dry_run { "[DRY RUN] "@ } else { Seq::<char>::empty() }) + verb_word(o.verb) + " "@ + o.name@
        + match o.color {
            Some(c) => ": "@ + c@,
            None => Seq::<char>::empty(),
        }
}

/// The outcome record of `action`.
pub fn outcome_of(action: &Action) -> (r: Outcome)
    ensures
        r.verb == verb_of(action@),
        r.name@ == action@.label().name,
        r.color matches Some(c) ==> c@ == action@.label().color,
        (r.color is Some) == !(action@ is Delete),
{
    match action {
        Action::Create(l) => Outcome { verb: Verb::Create, name: l.name.clone(), color: Some(l.color.clone()) },
        Action::Update(l) => Outcome { verb: Verb::Update, name: l.name.clone(), color: Some(l.color.clone()) },
        Action::Delete(l) => Outcome { verb: Verb::Delete, name: l.name.clone(), color: None },
    }
}

impl Outcome {
    /// The line that reports this outcome.
    pub fn describe(&self, dry_run: bool) -> (r: String)
        ensures
            r@ == outcome_text(*self, dry_run),
    {
        let ghost p: Seq<char> = if dry_run { "[DRY RUN] "@ } else { Seq::<char>::empty() };
        let ghost w = verb_word(self.verb);
        let mut s = if dry_run { String::from_str("[DRY RUN] ") } else { String::new() };
        assert(s@ =~= p);
        match self.verb {
            Verb::Create => s.append("CREATE"),
            Verb::Update => s.append("UPDATE"),
            Verb::Delete => s.append("DELETE"),
        }
        assert(s@ =~= p + w);
        s.append(" ");
        s.append(self.name.as_str());
        let ghost head = s@;
        assert(head =~= p + w + " "@ + self.name@);
        match &self.color {
            Some(c) => {
                s.append(": ");
                s.append(c.as_str());
                assert(s@ =~= head + (": "@ + c@));
            },
            None => {
                assert(s@ =~= head + Seq::<char>::empty());
            },
        }
        s
    }
}

/// The record of one action tried on the service: its outcome and, where
/// the call failed, the error.
#[derive(Debug)]
pub struct Report {
    pub outcome: Outcome,
    pub error: Option<ApiError>,
}

/// The record of `action` after the service answered `result`.
pub fn report(action: &Action, result: Result<String, ApiError>) -> (r: Report)
    ensures
        r.outcome.verb == verb_of(action@),
        r.outcome.name@ == action@.label().name,
        r.outcome.color matches Some(c) ==> c@ == action@.label().color,
        (r.outcome.color is Some) == !(action@ is Delete),
        match result {
            Ok(_) => r.error is None,
            Err(e) => r.error == Some(e),
        },
{
    let outcome = outcome_of(action);
    match result {
        Ok(_) => Report { outcome, error: None },
        Err(e) => Report { outcome, error: Some(e) },
    }
}

/// The line that reports a failed action: `FAILURE`, the verb and the name.
pub open spec fn failure_text(o: Outcome) -> Seq<char> {
    "FAILURE "@ + verb_word(o.verb) + " "@ + o.name@
}

impl Report {
    /// The line that reports this record: the outcome's line where the call
    /// succeeded, else the failure line.
    pub fn describe(&self) -> (r: String)
        ensures
            self.error is None ==> r@ == outcome_text(self.outcome, false),
            self.error is Some ==> r@ == failure_text(self.outcome),
    {
        match &self.error {
            None => self.outcome.describe(false),
            Some(_) => {
                let mut s = String::from_str("FAILURE ");
                match self.outcome.verb {
                    Verb::Create => s.append("CREATE"),
                    Verb::Update => s.append("UPDATE"),
                    Verb::Delete => s.append("DELETE"),
                }
                s.append(" ");
                s.append(self.outcome.name.as_str());
                s
            },
        }
    }
}

} // verus!
