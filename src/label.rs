use vstd::prelude::*;
use vstd::string::StringExecFns;

verus! {

/// A label of the remote tracker: a name that identifies it, a six-digit hex
/// color, and the resource locator that addresses it remotely.
#[derive(Debug, Clone)]
pub struct Label {
    pub color: String,
    pub name: String,
    pub url: String,
}

/// The mathematical value of a `Label`.
pub struct LabelModel {
    pub name: Seq<char>,
    pub color: Seq<char>,
    pub url: Seq<char>,
}

impl View for Label {
    type V = LabelModel;

    open spec fn view(&self) -> LabelModel {
        LabelModel { name: self.name@, color: self.color@, url: self.url@ }
    }
}

/// Two labels are the same label when their names are equal; the color only
/// decides whether an update is due.
impl PartialEq for Label {
    fn eq(&self, other: &Label) -> (r: bool) {
        self.name == other.name
    }
}

impl vstd::std_specs::cmp::PartialEqSpecImpl for Label {
    open spec fn obeys_eq_spec() -> bool {
        true
    }

    open spec fn eq_spec(&self, other: &Label) -> bool {
        self.name@ == other.name@
    }
}

/// Why a template entry could not become a label.
#[derive(Debug)]
pub enum LabelError {
    MissingColor,
    MissingName,
    UrlParseError(url::ParseError),
    YamlItemNotHash,
}

impl From<url::ParseError> for LabelError {
    fn from(error: url::ParseError) -> LabelError {
        LabelError::UrlParseError(error)
    }
}

impl vstd::std_specs::convert::FromSpecImpl<url::ParseError> for LabelError {
    open spec fn obeys_from_spec() -> bool {
        true
    }

    open spec fn from_spec(v: url::ParseError) -> LabelError {
        LabelError::UrlParseError(v)
    }
}

/// What `url::Url::parse` followed by serialisation yields for a string:
/// `Some` of the serialised absolute URL, or `None` where it does not parse.
pub uninterp spec fn parsed_url(s: Seq<char>) -> Option<Seq<char>>;

/// Relies on `url::Url::parse` (and the `Url`'s serialisation): it fails
/// exactly where the string is no absolute URL, and its result depends on the
/// string alone.
#[verifier::external_body]
fn parse_url(s: &str) -> (r: Result<String, url::ParseError>)
    ensures
        match r {
            Ok(u) => parsed_url(s@) == Some(u@),
            Err(_) => parsed_url(s@) is None,
        },
{
    match url::Url::parse(s) {
        Ok(u) => Ok(u.into_string()),
        Err(e) => Err(e),
    }
}

/// The locator of the label `name` in `repo` of `user`, before URL parsing.
pub open spec fn locator_text(endpoint: Seq<char>, name: Seq<char>, user: Seq<char>, repo: Seq<char>) -> Seq<char> {
    endpoint + "/repos/"@ + user + "/"@ + repo + "/labels/"@ + name
}

/// The text of the locator of a label, as `Label::new` builds it.
pub fn locator(endpoint: &str, name: &str, user: &str, repo: &str) -> (r: String)
    ensures
        r@ == locator_text(endpoint@, name@, user@, repo@),
{
    let mut s = String::from_str(endpoint);
    s.append("/repos/");
    s.append(user);
    s.append("/");
    s.append(repo);
    s.append("/labels/");
    s.append(name);
    s
}

impl Label {
    /// A copy of the label, field by field.
    pub fn duplicate(&self) -> (r: Label)
        ensures
            r@ == self@,
    {
        Label { color: self.color.clone(), name: self.name.clone(), url: self.url.clone() }
    }

    /// A label named `name` with `color`, located at
    /// `{endpoint}/repos/{user}/{repo}/labels/{name}`; fails where that
    /// text does not parse as a URL.
    pub fn new(endpoint: &str, name: &str, color: &str, user: &str, repo: &str) -> (r: Result<Label, LabelError>)
        ensures
            match parsed_url(locator_text(endpoint@, name@, user@, repo@)) {
                Some(u) => (r matches Ok(l) && l@ == (LabelModel { name: name@, color: color@, url: u })),
                None => r matches Err(LabelError::UrlParseError(_)),
            },
    {
        let text = locator(endpoint, name, user, repo);
        match parse_url(text.as_str()) {
            Ok(url) => Ok(Label { color: String::from_str(color), name: String::from_str(name), url }),
            Err(e) => Err(LabelError::UrlParseError(e)),
        }
    }
}

/// One entry of a template as the template reader found it: whether it is a
/// mapping, and the string values of its `name` and `color` keys, if any.
pub struct TemplateEntry {
    pub is_hash: bool,
    pub name: Option<String>,
    pub color: Option<String>,
}

/// The name and color of a template entry; an entry that is no mapping, or
/// lacks a string `name` or `color`, is refused, in that order of checks.
pub fn get_name_and_color(entry: &TemplateEntry) -> (r: Result<(String, String), LabelError>)
    ensures
        !entry.is_hash ==> r matches Err(LabelError::YamlItemNotHash),
        entry.is_hash && entry.name is None ==> r matches Err(LabelError::MissingName),
        entry.is_hash && entry.name is Some && entry.color is None ==> r matches Err(LabelError::MissingColor),
        entry.is_hash && entry.name is Some && entry.color is Some ==> (r matches Ok(p)
            && p.0@ == entry.name->Some_0@ && p.1@ == entry.color->Some_0@),
{
    if !entry.is_hash {
        return Err(LabelError::YamlItemNotHash);
    }
    let name = match &entry.name {
        Some(n) => n.clone(),
        None => return Err(LabelError::MissingName),
    };
    let color = match &entry.color {
        Some(c) => c.clone(),
        None => return Err(LabelError::MissingColor),
    };
    Ok((name, color))
}

/// The template entry `e` gives a label: it is a mapping with a `name` and a
/// `color`, and its locator parses.
pub open spec fn entry_ok(e: TemplateEntry, endpoint: Seq<char>, user: Seq<char>, repo: Seq<char>) -> bool {
    &&& e.is_hash
    &&& e.name is Some
    &&& e.color is Some
    &&& parsed_url(locator_text(endpoint, e.name->Some_0@, user, repo)) is Some
}

/// The label that a good template entry gives.
pub open spec fn entry_label(e: TemplateEntry, endpoint: Seq<char>, user: Seq<char>, repo: Seq<char>) -> LabelModel {
    LabelModel {
        name: e.name->Some_0@,
        color: e.color->Some_0@,
        url: parsed_url(locator_text(endpoint, e.name->Some_0@, user, repo))->Some_0,
    }
}

/// `err` is what a bad template entry `e` is refused with.
pub open spec fn entry_error(e: TemplateEntry, err: LabelError) -> bool {
    if !e.is_hash {
        err is YamlItemNotHash
    } else if e.name is None {
        err is MissingName
    } else if e.color is None {
        err is MissingColor
    } else {
        err is UrlParseError
    }
}

/// The labels of a template, in its order; the first entry that gives no
/// label stops it, with that entry's error.
pub fn get_labels(entries: &Vec<TemplateEntry>, endpoint: &str, user: &str, repo: &str) -> (r: Result<Vec<Label>, LabelError>)
    ensures
        match r {
            Ok(v) => v@.len() == entries@.len() && forall|i: int| 0 <= i < v@.len() ==>
                entry_ok(#[trigger] entries@[i], endpoint@, user@, repo@) && v@[i]@ == entry_label(entries@[i], endpoint@, user@, repo@),
            Err(err) => exists|k: int| 0 <= k < entries@.len() && !entry_ok(#[trigger] entries@[k], endpoint@, user@, repo@)
                && entry_error(entries@[k], err)
                && forall|i: int| 0 <= i < k ==> entry_ok(#[trigger] entries@[i], endpoint@, user@, repo@),
        },
{
    let mut labels: Vec<Label> = Vec::new();
    let mut i: usize = 0;
    while i < entries.len()
        invariant
            i <= entries@.len(),
            labels@.len() == i,
            forall|j: int| 0 <= j < i ==> entry_ok(#[trigger] entries@[j], endpoint@, user@, repo@)
                && labels@[j]@ == entry_label(entries@[j], endpoint@, user@, repo@),
        decreases entries.len() - i,
    {
        let (name, color) = match get_name_and_color(&entries[i]) {
            Ok(p) => p,
            Err(e) => {
                assert(!entry_ok(entries@[i as int], endpoint@, user@, repo@));
                return Err(e);
            },
        };
        let label = match Label::new(endpoint, name.as_str(), color.as_str(), user, repo) {
            Ok(l) => l,
            Err(e) => {
                assert(!entry_ok(entries@[i as int], endpoint@, user@, repo@));
                return Err(e);
            },
        };
        labels.push(label);
        i = i + 1;
    }
    Ok(labels)
}

} // verus!
