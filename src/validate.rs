use vstd::prelude::*;
use vstd::string::*;
use crate::schema::{CategorySchema, names_of};

verus! {

#[verifier::external_type_specification]
#[verifier::external_body]
pub struct ExJsonError(serde_json::Error);

/// The members of the JSON object that `text` holds, in key order, where the
/// text is one JSON object whose values are all strings; `None` otherwise.
pub uninterp spec fn json_string_members(text: Seq<char>) -> Option<Seq<(Seq<char>, Seq<char>)>>;

/// The model of a list of string pairs.
pub open spec fn pairs_view(v: Seq<(String, String)>) -> Seq<(Seq<char>, Seq<char>)> {
    v.map_values(|p: (String, String)| (p.0@, p.1@))
}

/// Relies on serde_json::from_str into a BTreeMap<String, String>: it
/// succeeds exactly on a JSON object whose values are all strings, and the
/// map's entries are then handed out as pairs.
#[verifier::external_body]
fn parse_string_object(text: &str) -> (r: Result<Vec<(String, String)>, serde_json::Error>)
    ensures
        match r {
            Ok(m) => json_string_members(text@) == Some(pairs_view(m@)),
            Err(_) => json_string_members(text@) is None,
        },
{
    serde_json::from_str::<std::collections::BTreeMap<String, String>>(text).map(
        |m| m.into_iter().collect(),
    )
}

/// Why a completion is not a classification result.
#[derive(Debug)]
pub enum ValidationError {
    /// The completion is not a JSON object whose values are strings.
    Malformed,
    /// The completion lacks the named key.
    MissingKey(String),
    /// The completion holds a key that is neither a category nor `path`.
    UnexpectedKey(String),
    /// The response carried no completion text.
    NoCompletion,
}

/// The model of a [`ValidationError`].
pub enum Invalid {
    Malformed,
    MissingKey(Seq<char>),
    UnexpectedKey(Seq<char>),
    NoCompletion,
}

impl View for ValidationError {
    type V = Invalid;

    open spec fn view(&self) -> Invalid {
        match self {
            ValidationError::Malformed => Invalid::Malformed,
            ValidationError::MissingKey(k) => Invalid::MissingKey(k@),
            ValidationError::UnexpectedKey(k) => Invalid::UnexpectedKey(k@),
            ValidationError::NoCompletion => Invalid::NoCompletion,
        }
    }
}

/// The label the model gave a file for each category, and the path it named.
pub struct ClassificationResult {
    pub path: String,
    /// One pair per category, in schema order: the category and its label.
    pub labels: Vec<(String, String)>,
}

impl View for ClassificationResult {
    type V = (Seq<char>, Seq<(Seq<char>, Seq<char>)>);

    open spec fn view(&self) -> (Seq<char>, Seq<(Seq<char>, Seq<char>)>) {
        (self.path@, pairs_view(self.labels@))
    }
}

impl ClassificationResult {
    /// The members of the result as they are emitted: one per category, in
    /// schema order, then `path`.
    pub fn entries(&self) -> (r: Vec<(String, String)>)
        ensures
            pairs_view(r@) == self@.1.push(("path"@, self@.0)),
    {
        let mut out: Vec<(String, String)> = Vec::new();
        let mut i: usize = 0;
        while i < self.labels.len()
            invariant
                i <= self.labels@.len(),
                pairs_view(out@) == pairs_view(self.labels@.subrange(0, i as int)),
            decreases self.labels@.len() - i,
        {
            let ghost before = out@;
            let pair = (self.labels[i].0.clone(), self.labels[i].1.clone());
            out.push(pair);
            assert(pairs_view(out@) =~= pairs_view(before).push(
                (self.labels@[i as int].0@, self.labels@[i as int].1@),
            ));
            assert(self.labels@.subrange(0, i + 1) =~= self.labels@.subrange(0, i as int).push(
                self.labels@[i as int],
            ));
            assert(pairs_view(out@) =~= pairs_view(self.labels@.subrange(0, i + 1)));
            i = i + 1;
        }
        assert(self.labels@.subrange(0, self.labels@.len() as int) =~= self.labels@);
        let ghost before = out@;
        out.push((String::from_str("path"), self.path.clone()));
        assert(pairs_view(out@) =~= pairs_view(before).push(("path"@, self@.0)));
        out
    }
}

/// The value of the first member named `k`.
pub open spec fn lookup(ms: Seq<(Seq<char>, Seq<char>)>, k: Seq<char>) -> Option<Seq<char>>
    decreases ms.len(),
{
    if ms.len() == 0 {
        None
    } else if ms[0].0 == k {
        Some(ms[0].1)
    } else {
        lookup(ms.drop_first(), k)
    }
}

/// The keys a completion must hold: the category names, then `path`.
pub open spec fn required_keys(s: Seq<(Seq<char>, Seq<Seq<char>>)>) -> Seq<Seq<char>> {
    names_of(s).push("path"@)
}

/// The first of `keys` that no member names.
pub open spec fn first_missing(keys: Seq<Seq<char>>, ms: Seq<(Seq<char>, Seq<char>)>) -> Option<
    Seq<char>,
>
    decreases keys.len(),
{
    if keys.len() == 0 {
        None
    } else if lookup(ms, keys[0]) is None {
        Some(keys[0])
    } else {
        first_missing(keys.drop_first(), ms)
    }
}

/// The key of the first member that is not one of `keys`.
pub open spec fn first_unexpected(keys: Seq<Seq<char>>, ms: Seq<(Seq<char>, Seq<char>)>) -> Option<
    Seq<char>,
>
    decreases ms.len(),
{
    if ms.len() == 0 {
        None
    } else if !keys.contains(ms[0].0) {
        Some(ms[0].0)
    } else {
        first_unexpected(keys, ms.drop_first())
    }
}

/// The labels of the categories of `names`, each as the members give it.
pub open spec fn labels_of(names: Seq<Seq<char>>, ms: Seq<(Seq<char>, Seq<char>)>) -> Seq<
    (Seq<char>, Seq<char>),
> {
    names.map_values(|n: Seq<char>| (n, lookup(ms, n)->Some_0))
}

/// The result of validating the members of a completion against a schema:
/// a missing key first, then a key that does not belong, else the labels.
pub open spec fn validation(s: Seq<(Seq<char>, Seq<Seq<char>>)>, ms: Seq<(Seq<char>, Seq<char>)>) -> Result<
    (Seq<char>, Seq<(Seq<char>, Seq<char>)>),
    Invalid,
> {
    match first_missing(required_keys(s), ms) {
        Some(k) => Err(Invalid::MissingKey(k)),
        None => match first_unexpected(required_keys(s), ms) {
            Some(k) => Err(Invalid::UnexpectedKey(k)),
            None => Ok((lookup(ms, "path"@)->Some_0, labels_of(names_of(s), ms))),
        },
    }
}

/// The result of validating the raw text of a completion against a schema.
pub open spec fn completion_result(s: Seq<(Seq<char>, Seq<Seq<char>>)>, text: Seq<char>) -> Result<
    (Seq<char>, Seq<(Seq<char>, Seq<char>)>),
    Invalid,
> {
    match json_string_members(text) {
        None => Err(Invalid::Malformed),
        Some(ms) => validation(s, ms),
    }
}

/// The model of a validation outcome.
pub open spec fn outcome_view(r: Result<ClassificationResult, ValidationError>) -> Result<
    (Seq<char>, Seq<(Seq<char>, Seq<char>)>),
    Invalid,
> {
    match r {
        Ok(c) => Ok(c@),
        Err(e) => Err(e@),
    }
}

fn find_member(ms: &Vec<(String, String)>, k: &String) -> (r: Option<usize>)
    ensures
        match r {
            Some(j) => j < ms@.len() && lookup(pairs_view(ms@), k@) == Some(ms@[j as int].1@),
            None => lookup(pairs_view(ms@), k@) is None,
        },
{
    let ghost all = pairs_view(ms@);
    assert(all.subrange(0, all.len() as int) =~= all);
    let mut j: usize = 0;
    while j < ms.len()
        invariant
            j <= ms@.len(),
            all == pairs_view(ms@),
            lookup(all, k@) == lookup(all.subrange(j as int, all.len() as int), k@),
        decreases ms@.len() - j,
    {
        let ghost rest = all.subrange(j as int, all.len() as int);
        assert(rest[0] == all[j as int]);
        assert(rest.drop_first() =~= all.subrange(j + 1, all.len() as int));
        if ms[j].0 == *k {
            return Some(j);
        }
        j = j + 1;
    }
    None
}

fn is_required(schema: &CategorySchema, k: &String) -> (r: bool)
    ensures
        r == required_keys(schema@).contains(k@),
{
    let ghost req = required_keys(schema@);
    let path = String::from_str("path");
    let mut i: usize = 0;
    while i < schema.len()
        invariant
            i <= schema@.len(),
            req == required_keys(schema@),
            forall|m: int| 0 <= m < i ==> req[m] != k@,
        decreases schema@.len() - i,
    {
        assert(req[i as int] == schema@[i as int].0);
        if schema.category(i).name == *k {
            return true;
        }
        i = i + 1;
    }
    assert(req[schema@.len() as int] == "path"@);
    let r = path == *k;
    assert(r ==> req.contains(k@));
    assert(!r ==> forall|m: int| 0 <= m < req.len() ==> req[m] != k@);
    r
}

/// Checks the members of a parsed completion against `schema`: every
/// category and `path` must be present, and no other key.
pub fn check_members(schema: &CategorySchema, members: Vec<(String, String)>) -> (r: Result<
    ClassificationResult,
    ValidationError,
>)
    ensures
        outcome_view(r) == validation(schema@, pairs_view(members@)),
{
    let ghost ms = pairs_view(members@);
    let ghost req = required_keys(schema@);
    let n = schema.len();
    let mut labels: Vec<(String, String)> = Vec::new();
    assert(req.subrange(0, req.len() as int) =~= req);
    assert(pairs_view(labels@) =~= labels_of(names_of(schema@).subrange(0, 0), ms));
    let mut i: usize = 0;
    while i < n
        invariant
            n == schema@.len(),
            i <= n,
            ms == pairs_view(members@),
            req == required_keys(schema@),
            first_missing(req, ms) == first_missing(req.subrange(i as int, req.len() as int), ms),
            pairs_view(labels@) == labels_of(names_of(schema@).subrange(0, i as int), ms),
        decreases n - i,
    {
        let name = &schema.category(i).name;
        let ghost rest = req.subrange(i as int, req.len() as int);
        assert(rest[0] == name@);
        assert(rest.drop_first() =~= req.subrange(i + 1, req.len() as int));
        match find_member(&members, name) {
            None => {
                return Err(ValidationError::MissingKey(name.clone()));
            },
            Some(j) => {
                let value = members[j].1.clone();
                let ghost before = labels@;
                labels.push((name.clone(), value));
                assert(pairs_view(labels@) =~= pairs_view(before).push((name@, value@)));
                assert(names_of(schema@).subrange(0, i + 1) =~= names_of(schema@).subrange(
                    0,
                    i as int,
                ).push(name@));
                assert(pairs_view(labels@) =~= labels_of(
                    names_of(schema@).subrange(0, i + 1),
                    ms,
                ));
            },
        }
        i = i + 1;
    }
    assert(names_of(schema@).subrange(0, n as int) =~= names_of(schema@));
    let path_key = String::from_str("path");
    let ghost rest = req.subrange(n as int, req.len() as int);
    assert(rest[0] == path_key@);
    assert(rest.drop_first() =~= Seq::<Seq<char>>::empty());
    let path = match find_member(&members, &path_key) {
        None => {
            return Err(ValidationError::MissingKey(path_key));
        },
        Some(j) => members[j].1.clone(),
    };
    assert(first_missing(Seq::<Seq<char>>::empty(), ms) is None);
    assert(first_missing(req, ms) is None);
    assert(ms.subrange(0, ms.len() as int) =~= ms);
    let mut j: usize = 0;
    while j < members.len()
        invariant
            j <= members@.len(),
            ms == pairs_view(members@),
            req == required_keys(schema@),
            first_missing(req, ms) is None,
            first_unexpected(req, ms) == first_unexpected(req, ms.subrange(j as int, ms.len() as int)),
        decreases members@.len() - j,
    {
        let ghost tail = ms.subrange(j as int, ms.len() as int);
        assert(tail[0] == ms[j as int]);
        assert(tail.drop_first() =~= ms.subrange(j + 1, ms.len() as int));
        if !is_required(schema, &members[j].0) {
            let key = members[j].0.clone();
            assert(ms[j as int].0 == key@);
            assert(first_unexpected(req, tail) == Some(key@));
            return Err(ValidationError::UnexpectedKey(key));
        }
        j = j + 1;
    }
    Ok(ClassificationResult { path, labels })
}

/// Parses the raw text of a completion and checks it against `schema`.
pub fn parse_completion(schema: &CategorySchema, text: &str) -> (r: Result<
    ClassificationResult,
    ValidationError,
>)
    ensures
        outcome_view(r) == completion_result(schema@, text@),
{
    match parse_string_object(text) {
        Err(_) => Err(ValidationError::Malformed),
        Ok(members) => check_members(schema, members),
    }
}

/// The keys that the members name.
pub open spec fn member_keys(ms: Seq<(Seq<char>, Seq<char>)>) -> Set<Seq<char>> {
    Set::new(|k: Seq<char>| exists|i: int| 0 <= i < ms.len() && (#[trigger] ms[i]).0 == k)
}

/// The keys of a classification result: its categories and `path`.
pub open spec fn result_keys(r: (Seq<char>, Seq<(Seq<char>, Seq<char>)>)) -> Set<Seq<char>> {
    Set::new(
        |k: Seq<char>|
            k == "path"@ || exists|i: int| 0 <= i < r.1.len() && (#[trigger] r.1[i]).0 == k,
    )
}

proof fn lemma_lookup_found(ms: Seq<(Seq<char>, Seq<char>)>, k: Seq<char>)
    ensures
        lookup(ms, k) is Some <==> member_keys(ms).contains(k),
    decreases ms.len(),
{
    if ms.len() > 0 {
        lemma_lookup_found(ms.drop_first(), k);
        if member_keys(ms.drop_first()).contains(k) {
            let i = choose|i: int| 0 <= i < ms.len() - 1 && (#[trigger] ms.drop_first()[i]).0 == k;
            assert(ms[i + 1].0 == k);
        }
        if member_keys(ms).contains(k) && ms[0].0 != k {
            let i = choose|i: int| 0 <= i < ms.len() && (#[trigger] ms[i]).0 == k;
            assert(ms.drop_first()[i - 1].0 == k);
        }
    }
}

proof fn lemma_first_missing(keys: Seq<Seq<char>>, ms: Seq<(Seq<char>, Seq<char>)>)
    ensures
        first_missing(keys, ms) is None <==> forall|i: int|
            0 <= i < keys.len() ==> member_keys(ms).contains(#[trigger] keys[i]),
    decreases keys.len(),
{
    if keys.len() > 0 {
        lemma_first_missing(keys.drop_first(), ms);
        lemma_lookup_found(ms, keys[0]);
        if forall|i: int| 0 <= i < keys.len() ==> member_keys(ms).contains(#[trigger] keys[i]) {
            assert forall|i: int| 0 <= i < keys.len() - 1 implies member_keys(ms).contains(
                #[trigger] keys.drop_first()[i],
            ) by {
                assert(keys.drop_first()[i] == keys[i + 1]);
            }
        }
        if first_missing(keys, ms) is None {
            assert forall|i: int| 0 <= i < keys.len() implies member_keys(ms).contains(
                #[trigger] keys[i],
            ) by {
                if i > 0 {
                    assert(keys[i] == keys.drop_first()[i - 1]);
                }
            }
        }
    }
}

proof fn lemma_first_unexpected(keys: Seq<Seq<char>>, ms: Seq<(Seq<char>, Seq<char>)>)
    ensures
        first_unexpected(keys, ms) is None <==> forall|i: int|
            0 <= i < ms.len() ==> keys.contains((#[trigger] ms[i]).0),
    decreases ms.len(),
{
    if ms.len() > 0 {
        lemma_first_unexpected(keys, ms.drop_first());
        if forall|i: int| 0 <= i < ms.len() ==> keys.contains((#[trigger] ms[i]).0) {
            assert forall|i: int| 0 <= i < ms.len() - 1 implies keys.contains(
                (#[trigger] ms.drop_first()[i]).0,
            ) by {
                assert(ms.drop_first()[i] == ms[i + 1]);
            }
        }
        if first_unexpected(keys, ms) is None {
            assert forall|i: int| 0 <= i < ms.len() implies keys.contains((#[trigger] ms[i]).0) by {
                if i > 0 {
                    assert(ms[i] == ms.drop_first()[i - 1]);
                }
            }
        }
    }
}

/// A label is admissible for a category when it is one of the category's
/// values or `Unknown`.
pub open spec fn admissible(values: Seq<Seq<char>>, label: Seq<char>) -> bool {
    values.contains(label) || label == "Unknown"@
}

/// The names of the first `n` categories whose label is not admissible, in
/// schema order.
pub open spec fn violations(
    s: Seq<(Seq<char>, Seq<Seq<char>>)>,
    labels: Seq<(Seq<char>, Seq<char>)>,
    n: nat,
) -> Seq<Seq<char>>
    decreases n,
{
    if n == 0 {
        Seq::empty()
    } else {
        let p = violations(s, labels, (n - 1) as nat);
        if admissible(s[n - 1].1, labels[n - 1].1) {
            p
        } else {
            p.push(s[n - 1].0)
        }
    }
}

fn is_admissible(values: &Vec<String>, label: &String) -> (r: bool)
    ensures
        r == admissible(crate::schema::texts(values@), label@),
{
    let ghost vs = crate::schema::texts(values@);
    let unknown = String::from_str("Unknown");
    if unknown == *label {
        return true;
    }
    let mut j: usize = 0;
    while j < values.len()
        invariant
            j <= values@.len(),
            vs == crate::schema::texts(values@),
            forall|m: int| 0 <= m < j ==> vs[m] != label@,
        decreases values@.len() - j,
    {
        assert(vs[j as int] == values@[j as int]@);
        if values[j] == *label {
            return true;
        }
        j = j + 1;
    }
    false
}

/// The categories whose label is neither one of their values nor `Unknown`,
/// in schema order. The labels are taken by position, as
/// [`check_members`] lays them out.
pub fn out_of_vocabulary(schema: &CategorySchema, result: &ClassificationResult) -> (r: Vec<String>)
    ensures
        crate::schema::texts(r@) == violations(
            schema@,
            result@.1,
            if schema@.len() <= result@.1.len() {
                schema@.len()
            } else {
                result@.1.len()
            },
        ),
{
    let n = if schema.len() <= result.labels.len() {
        schema.len()
    } else {
        result.labels.len()
    };
    let mut out: Vec<String> = Vec::new();
    let mut i: usize = 0;
    while i < n
        invariant
            i <= n,
            n <= schema@.len(),
            n <= result.labels@.len(),
            crate::schema::texts(out@) == violations(schema@, result@.1, i as nat),
        decreases n - i,
    {
        let c = schema.category(i);
        assert(result@.1[i as int] == (result.labels@[i as int].0@, result.labels@[i as int].1@));
        if !is_admissible(&c.values, &result.labels[i].1) {
            let ghost before = out@;
            out.push(c.name.clone());
            assert(crate::schema::texts(out@) =~= crate::schema::texts(before).push(c.name@));
        }
        i = i + 1;
    }
    out
}

/// A completion whose keys are exactly the categories and `path` is
/// accepted, and the result has exactly those keys.
pub proof fn lemma_exact_keys_accepted(
    s: Seq<(Seq<char>, Seq<Seq<char>>)>,
    text: Seq<char>,
    ms: Seq<(Seq<char>, Seq<char>)>,
)
    requires
        json_string_members(text) == Some(ms),
        member_keys(ms) == required_keys(s).to_set(),
    ensures
        completion_result(s, text) is Ok,
        result_keys(completion_result(s, text)->Ok_0) == required_keys(s).to_set(),
{
    let req = required_keys(s);
    assert forall|i: int| 0 <= i < req.len() implies member_keys(ms).contains(#[trigger] req[i]) by {
        assert(req.to_set().contains(req[i]));
    }
    lemma_first_missing(req, ms);
    assert forall|i: int| 0 <= i < ms.len() implies req.contains((#[trigger] ms[i]).0) by {
        assert(member_keys(ms).contains(ms[i].0));
    }
    lemma_first_unexpected(req, ms);
    let r = completion_result(s, text)->Ok_0;
    let names = names_of(s);
    assert(req[names.len() as int] == "path"@);
    assert forall|k: Seq<char>| result_keys(r).contains(k) <==> req.to_set().contains(k) by {
        if result_keys(r).contains(k) && k != "path"@ {
            let i = choose|i: int| 0 <= i < r.1.len() && (#[trigger] r.1[i]).0 == k;
            assert(req[i] == k);
        }
        if req.to_set().contains(k) && k != "path"@ {
            let i = choose|i: int| 0 <= i < req.len() && req[i] == k;
            assert(r.1[i].0 == k);
        }
    }
    assert(result_keys(r) =~= req.to_set());
}

/// A completion that lacks a category or `path` is rejected.
pub proof fn lemma_missing_key_rejected(
    s: Seq<(Seq<char>, Seq<Seq<char>>)>,
    text: Seq<char>,
    k: Seq<char>,
)
    requires
        required_keys(s).contains(k),
        json_string_members(text) is Some ==> !member_keys(
            json_string_members(text)->Some_0,
        ).contains(k),
    ensures
        completion_result(s, text) is Err,
{
    if json_string_members(text) is Some {
        lemma_first_missing(required_keys(s), json_string_members(text)->Some_0);
    }
}

/// A completion that is not a JSON object of strings is rejected as malformed.
pub proof fn lemma_unparsable_rejected(s: Seq<(Seq<char>, Seq<Seq<char>>)>, text: Seq<char>)
    requires
        json_string_members(text) is None,
    ensures
        completion_result(s, text) == Err::<(Seq<char>, Seq<(Seq<char>, Seq<char>)>), Invalid>(
            Invalid::Malformed,
        ),
{
}

} // verus!
