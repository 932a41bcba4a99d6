//! `spec.json`: the document kinds a spec tracks, their approval state, and
//! the lenient parse of the file into [`SpecMeta`].

use vstd::prelude::*;
use crate::text::{chars_of, concat, eq_str, string_of};

verus! {

#[verifier::external_type_specification]
#[verifier::external_body]
pub struct ExJsonValue(serde_json::Value);

/// Kind of document tracked within a spec directory, in canonical order.
/// The five first kinds are the `approvals` keys of `spec.json`.
#[derive(Debug, Clone, PartialEq, Eq, PartialOrd, Ord, Hash)]
pub enum DocKind {
    Requirements,
    Bugfix,
    BizProcess,
    Design,
    Tasks,
    Research,
    Other(String),
}

/// [`DocKind`] with the name of an `Other` document as characters.
pub enum DocKindV {
    Requirements,
    Bugfix,
    BizProcess,
    Design,
    Tasks,
    Research,
    Other(Seq<char>),
}

impl View for DocKind {
    type V = DocKindV;

    open spec fn view(&self) -> DocKindV {
        match self {
            DocKind::Requirements => DocKindV::Requirements,
            DocKind::Bugfix => DocKindV::Bugfix,
            DocKind::BizProcess => DocKindV::BizProcess,
            DocKind::Design => DocKindV::Design,
            DocKind::Tasks => DocKindV::Tasks,
            DocKind::Research => DocKindV::Research,
            DocKind::Other(name) => DocKindV::Other(name@),
        }
    }
}

impl DocKind {
    /// A copy of this kind.
    pub fn duplicate(&self) -> (r: DocKind)
        ensures
            r@ == self@,
    {
        match self {
            DocKind::Requirements => DocKind::Requirements,
            DocKind::Bugfix => DocKind::Bugfix,
            DocKind::BizProcess => DocKind::BizProcess,
            DocKind::Design => DocKind::Design,
            DocKind::Tasks => DocKind::Tasks,
            DocKind::Research => DocKind::Research,
            DocKind::Other(name) => DocKind::Other(name.clone()),
        }
    }

    /// Whether two kinds are the same kind (and, for `Other`, the same name).
    pub fn same(&self, other: &DocKind) -> (r: bool)
        ensures
            r == (self@ == other@),
    {
        match (self, other) {
            (DocKind::Requirements, DocKind::Requirements) => true,
            (DocKind::Bugfix, DocKind::Bugfix) => true,
            (DocKind::BizProcess, DocKind::BizProcess) => true,
            (DocKind::Design, DocKind::Design) => true,
            (DocKind::Tasks, DocKind::Tasks) => true,
            (DocKind::Research, DocKind::Research) => true,
            (DocKind::Other(a), DocKind::Other(b)) => *a == *b,
            _ => false,
        }
    }
}

/// Approval state of one document as `spec.json` records it.
#[derive(Debug, Clone, Copy, PartialEq, Eq, Default, Structural)]
pub struct Approval {
    pub generated: bool,
    pub approved: bool,
}

/// The contents of a `spec.json` file. `approvals` holds each recorded
/// kind once, in the order the file first named it.
#[derive(Debug, Clone, PartialEq, Eq)]
pub struct SpecMeta {
    pub name: String,
    pub phase: String,
    pub approvals: Vec<(DocKind, Approval)>,
    /// Raw `updated_at` ISO-8601 string; `None` when absent or not a string.
    pub updated_at: Option<String>,
}

pub struct SpecMetaV {
    pub name: Seq<char>,
    pub phase: Seq<char>,
    pub approvals: Seq<(DocKindV, Approval)>,
    pub updated_at: Option<Seq<char>>,
}

pub open spec fn opt_chars(o: Option<String>) -> Option<Seq<char>> {
    match o {
        Some(s) => Some(s@),
        None => None,
    }
}

impl View for SpecMeta {
    type V = SpecMetaV;

    open spec fn view(&self) -> SpecMetaV {
        SpecMetaV {
            name: self.name@,
            phase: self.phase@,
            approvals: self.approvals@.map_values(|p: (DocKind, Approval)| (p.0@, p.1)),
            updated_at: opt_chars(self.updated_at),
        }
    }
}

/// The approval recorded for `k`, if any.
pub open spec fn lookup(a: Seq<(DocKindV, Approval)>, k: DocKindV) -> Option<Approval>
    decreases a.len(),
{
    if a.len() == 0 {
        None
    } else if a[0].0 == k {
        Some(a[0].1)
    } else {
        lookup(a.drop_first(), k)
    }
}

/// `a` with `k` recorded as `v`: the entry for `k` replaced in place, or a
/// new entry at the end.
pub open spec fn upsert(a: Seq<(DocKindV, Approval)>, k: DocKindV, v: Approval) -> Seq<(DocKindV, Approval)>
    decreases a.len(),
{
    if a.len() == 0 {
        seq![(k, v)]
    } else if a[0].0 == k {
        a.update(0, (k, v))
    } else {
        seq![a[0]] + upsert(a.drop_first(), k, v)
    }
}

impl SpecMeta {
    /// The approval recorded for `kind`.
    pub fn approval(&self, kind: &DocKind) -> (r: Option<Approval>)
        ensures
            r == lookup(self@.approvals, kind@),
    {
        let mut i: usize = 0;
        assert(self@.approvals.subrange(0, self@.approvals.len() as int) =~= self@.approvals);
        while i < self.approvals.len()
            invariant
                i <= self.approvals.len(),
                lookup(self@.approvals, kind@) == lookup(self@.approvals.subrange(i as int, self@.approvals.len() as int), kind@),
            decreases self.approvals.len() - i,
        {
            let ghost rest = self@.approvals.subrange(i as int, self@.approvals.len() as int);
            assert(rest.drop_first() =~= self@.approvals.subrange(i + 1, self@.approvals.len() as int));
            if self.approvals[i].0.same(kind) {
                return Some(self.approvals[i].1);
            }
            i = i + 1;
        }
        None
    }

    /// Whether `spec.json` records an approval for `kind`.
    pub fn has_approval(&self, kind: &DocKind) -> (r: bool)
        ensures
            r == (lookup(self@.approvals, kind@) is Some),
    {
        self.approval(kind).is_some()
    }
}

/// Why a `spec.json` could not be read.
#[derive(Debug, Clone, PartialEq, Eq)]
pub enum MetaError {
    InvalidJson(String),
    MissingName,
}

pub enum MetaErrorV {
    InvalidJson(Seq<char>),
    MissingName,
}

impl View for MetaError {
    type V = MetaErrorV;

    open spec fn view(&self) -> MetaErrorV {
        match self {
            MetaError::InvalidJson(m) => MetaErrorV::InvalidJson(m@),
            MetaError::MissingName => MetaErrorV::MissingName,
        }
    }
}

/// The text of a [`MetaError`].
pub open spec fn meta_error_text(e: MetaErrorV) -> Seq<char> {
    match e {
        MetaErrorV::InvalidJson(m) => "invalid JSON: "@ + m,
        MetaErrorV::MissingName => "missing required name field (\"feature_name\" or \"name\")"@,
    }
}

impl MetaError {
    /// The error as text.
    pub fn message(&self) -> (r: String)
        ensures
            r@ == meta_error_text(self@),
    {
        match self {
            MetaError::InvalidJson(m) => {
                let head = chars_of("invalid JSON: ");
                let tail = chars_of(m.as_str());
                string_of(concat(head.as_slice(), tail.as_slice()).as_slice())
            },
            MetaError::MissingName => {
                let v = chars_of("missing required name field (\"feature_name\" or \"name\")");
                string_of(v.as_slice())
            },
        }
    }
}

pub open spec fn meta_result_view(r: Result<SpecMeta, MetaError>) -> Result<SpecMetaV, MetaErrorV> {
    match r {
        Ok(m) => Ok(m@),
        Err(e) => Err(e@),
    }
}

/// A JSON document as the library reads it.
#[derive(Debug)]
pub enum Json {
    Null,
    Bool(bool),
    Number(String),
    Str(String),
    Array(Vec<Json>),
    Object(Vec<(String, Json)>),
}

/// What `serde_json::from_str` makes of a text: the document, or the text
/// of the error it reports.
pub uninterp spec fn json_parsed(text: Seq<char>) -> Result<Json, Seq<char>>;

/// `serde_json::from_str` into a `serde_json::Value`, carried over into
/// [`Json`] variant for variant; on failure, the error's `Display` text.
/// Both depend on the input text alone and are named, not spelled out.
#[verifier::external_body]
fn parse_json(text: &str) -> (r: Result<Json, String>)
    ensures
        match r {
            Ok(v) => json_parsed(text@) == Ok::<Json, Seq<char>>(v),
            Err(m) => json_parsed(text@) == Err::<Json, Seq<char>>(m@),
        },
{
    match serde_json::from_str::<serde_json::Value>(text) {
        Ok(v) => Ok(json_of_value(v)),
        Err(e) => Err(e.to_string()),
    }
}

/// A `serde_json::Value` as a [`Json`], variant for variant (numbers by
/// their JSON text, objects in the map's own order).
#[verifier::external_body]
fn json_of_value(v: serde_json::Value) -> Json {
    match v {
        serde_json::Value::Null => Json::Null,
        serde_json::Value::Bool(b) => Json::Bool(b),
        serde_json::Value::Number(n) => Json::Number(n.to_string()),
        serde_json::Value::String(s) => Json::Str(s),
        serde_json::Value::Array(a) => Json::Array(a.into_iter().map(json_of_value).collect()),
        serde_json::Value::Object(m) => Json::Object(
            m.into_iter().map(|(k, x)| (k, json_of_value(x))).collect(),
        ),
    }
}

/// The first member of `es` named `key` (`Value::get` on an object).
pub open spec fn member(es: Seq<(String, Json)>, key: Seq<char>) -> Option<Json>
    decreases es.len(),
{
    if es.len() == 0 {
        None
    } else if es[0].0@ == key {
        Some(es[0].1)
    } else {
        member(es.drop_first(), key)
    }
}

/// `Value::get` with a string key: the member of an object, `None` for any
/// other value.
pub open spec fn get_field(v: Json, key: Seq<char>) -> Option<Json> {
    match v {
        Json::Object(es) => member(es@, key),
        _ => None,
    }
}

/// `value.get(key).and_then(Value::as_str)`.
pub open spec fn str_field(v: Json, key: Seq<char>) -> Option<Seq<char>> {
    match get_field(v, key) {
        Some(Json::Str(s)) => Some(s@),
        _ => None,
    }
}

/// `value.get(key).and_then(Value::as_bool).unwrap_or(false)`.
pub open spec fn bool_field(v: Json, key: Seq<char>) -> bool {
    match get_field(v, key) {
        Some(Json::Bool(b)) => b,
        _ => false,
    }
}

/// The document kind an `approvals` key names.
pub open spec fn kind_of_key(key: Seq<char>) -> Option<DocKindV> {
    if key == "requirements"@ {
        Some(DocKindV::Requirements)
    } else if key == "bugfix"@ {
        Some(DocKindV::Bugfix)
    } else if key == "bizProcess"@ {
        Some(DocKindV::BizProcess)
    } else if key == "design"@ {
        Some(DocKindV::Design)
    } else if key == "tasks"@ {
        Some(DocKindV::Tasks)
    } else {
        None
    }
}

/// The approvals recorded by the first `n` members of an `approvals` object;
/// unknown keys are skipped, missing or non-boolean flags read as `false`.
pub open spec fn approvals_of(es: Seq<(String, Json)>, n: int) -> Seq<(DocKindV, Approval)>
    decreases n,
{
    if n <= 0 || n > es.len() {
        Seq::empty()
    } else {
        let prev = approvals_of(es, n - 1);
        match kind_of_key(es[n - 1].0@) {
            Some(k) => upsert(
                prev,
                k,
                Approval {
                    generated: bool_field(es[n - 1].1, "generated"@),
                    approved: bool_field(es[n - 1].1, "approved"@),
                },
            ),
            None => prev,
        }
    }
}

/// The `approvals` of a `spec.json` document (empty when it has none).
pub open spec fn doc_approvals(v: Json) -> Seq<(DocKindV, Approval)> {
    match get_field(v, "approvals"@) {
        Some(Json::Object(es)) => approvals_of(es@, es@.len() as int),
        _ => Seq::empty(),
    }
}

/// What a parsed `spec.json` document reads as: its name (`feature_name`,
/// else `name`), phase, approvals and update time; `MissingName` when
/// neither name is a string member.
pub open spec fn meta_of_value(v: Json) -> Result<SpecMetaV, MetaErrorV> {
    let name = match str_field(v, "feature_name"@) {
        Some(s) => Some(s),
        None => str_field(v, "name"@),
    };
    match name {
        None => Err(MetaErrorV::MissingName),
        Some(n) => Ok(
            SpecMetaV {
                name: n,
                phase: match str_field(v, "phase"@) {
                    Some(p) => p,
                    None => Seq::empty(),
                },
                approvals: doc_approvals(v),
                updated_at: str_field(v, "updated_at"@),
            },
        ),
    }
}

/// What [`parse_meta`] makes of a `spec.json` text.
pub open spec fn meta_of(text: Seq<char>) -> Result<SpecMetaV, MetaErrorV> {
    match json_parsed(text) {
        Err(m) => Err(MetaErrorV::InvalidJson(m)),
        Ok(v) => meta_of_value(v),
    }
}

/// `a == b` on string slices.
pub fn str_eq(a: &str, b: &str) -> (r: bool)
    ensures
        r == (a@ == b@),
{
    let x = chars_of(a);
    let y = chars_of(b);
    crate::text::eq(x.as_slice(), y.as_slice())
}

fn member_exec<'a>(es: &'a Vec<(String, Json)>, key: &str) -> (r: Option<&'a Json>)
    ensures
        match r {
            Some(x) => member(es@, key@) == Some(*x),
            None => member(es@, key@) is None,
        },
{
    let mut i: usize = 0;
    assert(es@.subrange(0, es@.len() as int) =~= es@);
    while i < es.len()
        invariant
            i <= es.len(),
            member(es@, key@) == member(es@.subrange(i as int, es@.len() as int), key@),
        decreases es.len() - i,
    {
        let ghost rest = es@.subrange(i as int, es@.len() as int);
        assert(rest.drop_first() =~= es@.subrange(i + 1, es@.len() as int));
        if str_eq(es[i].0.as_str(), key) {
            return Some(&es[i].1);
        }
        i = i + 1;
    }
    None
}

fn get_exec<'a>(v: &'a Json, key: &str) -> (r: Option<&'a Json>)
    ensures
        match r {
            Some(x) => get_field(*v, key@) == Some(*x),
            None => get_field(*v, key@) is None,
        },
{
    match v {
        Json::Object(es) => member_exec(es, key),
        _ => None,
    }
}

fn str_exec(v: &Json, key: &str) -> (r: Option<String>)
    ensures
        opt_chars(r) == str_field(*v, key@),
{
    match get_exec(v, key) {
        Some(Json::Str(s)) => Some(s.clone()),
        _ => None,
    }
}

fn bool_exec(v: &Json, key: &str) -> (r: bool)
    ensures
        r == bool_field(*v, key@),
{
    match get_exec(v, key) {
        Some(Json::Bool(b)) => *b,
        _ => false,
    }
}

fn kind_of_key_exec(key: &String) -> (r: Option<DocKind>)
    ensures
        match r {
            Some(k) => kind_of_key(key@) == Some(k@),
            None => kind_of_key(key@) is None,
        },
{
    let k = chars_of(key.as_str());
    if eq_str(k.as_slice(), "requirements") {
        Some(DocKind::Requirements)
    } else if eq_str(k.as_slice(), "bugfix") {
        Some(DocKind::Bugfix)
    } else if eq_str(k.as_slice(), "bizProcess") {
        Some(DocKind::BizProcess)
    } else if eq_str(k.as_slice(), "design") {
        Some(DocKind::Design)
    } else if eq_str(k.as_slice(), "tasks") {
        Some(DocKind::Tasks)
    } else {
        None
    }
}

fn upsert_exec(a: &mut Vec<(DocKind, Approval)>, k: DocKind, v: Approval)
    ensures
        final(a)@.map_values(|p: (DocKind, Approval)| (p.0@, p.1)) == upsert(
            old(a)@.map_values(|p: (DocKind, Approval)| (p.0@, p.1)),
            k@,
            v,
        ),
{
    let ghost va = old(a)@.map_values(|p: (DocKind, Approval)| (p.0@, p.1));
    let mut i: usize = 0;
    while i < a.len()
        invariant
            i <= a.len(),
            a@ == old(a)@,
            va == old(a)@.map_values(|p: (DocKind, Approval)| (p.0@, p.1)),
            forall|j: int| 0 <= j < i ==> va[j].0 != k@,
        decreases a.len() - i,
    {
        if a[i].0.same(&k) {
            proof {
                lemma_upsert_at(va, k@, v, i as int);
            }
            a.set(i, (k, v));
            assert(a@.map_values(|p: (DocKind, Approval)| (p.0@, p.1)) =~= va.update(i as int, (k@, v)));
            return;
        }
        i = i + 1;
    }
    proof {
        lemma_upsert_absent(va, k@, v);
    }
    a.push((k, v));
    assert(a@.map_values(|p: (DocKind, Approval)| (p.0@, p.1)) =~= va.push((k@, v)));
}

proof fn lemma_upsert_at(a: Seq<(DocKindV, Approval)>, k: DocKindV, v: Approval, i: int)
    requires
        0 <= i < a.len(),
        a[i].0 == k,
        forall|j: int| 0 <= j < i ==> a[j].0 != k,
    ensures
        upsert(a, k, v) == a.update(i, (k, v)),
    decreases i,
{
    if i > 0 {
        lemma_upsert_at(a.drop_first(), k, v, i - 1);
        assert(upsert(a, k, v) =~= a.update(i, (k, v)));
    }
}

proof fn lemma_upsert_absent(a: Seq<(DocKindV, Approval)>, k: DocKindV, v: Approval)
    requires
        forall|j: int| 0 <= j < a.len() ==> a[j].0 != k,
    ensures
        upsert(a, k, v) == a.push((k, v)),
    decreases a.len(),
{
    if a.len() > 0 {
        lemma_upsert_absent(a.drop_first(), k, v);
        assert(upsert(a, k, v) =~= a.push((k, v)));
    }
}

/// Reads a `spec.json` text leniently: it fails only when the text is not
/// JSON, or when neither `feature_name` nor `name` is a string member
/// (`feature_name` wins when both are). A missing `phase` reads as empty,
/// unknown approval keys are skipped and missing or mistyped flags read as
/// `false`.
pub fn parse_meta(json: &str) -> (r: Result<SpecMeta, MetaError>)
    ensures
        meta_result_view(r) == meta_of(json@),
{
    match parse_json(json) {
        Ok(v) => meta_from_json(&v),
        Err(m) => Err(MetaError::InvalidJson(m)),
    }
}

/// Reads a parsed `spec.json` document (see [`meta_of_value`]).
pub fn meta_from_json(value: &Json) -> (r: Result<SpecMeta, MetaError>)
    ensures
        meta_result_view(r) == meta_of_value(*value),
{
    let value = value;
    let name = match str_exec(value, "feature_name") {
        Some(s) => s,
        None => match str_exec(value, "name") {
            Some(s) => s,
            None => {
                return Err(MetaError::MissingName);
            },
        },
    };
    let phase = match str_exec(value, "phase") {
        Some(p) => p,
        None => String::new(),
    };
    let updated_at = str_exec(value, "updated_at");
    let mut approvals: Vec<(DocKind, Approval)> = Vec::new();
    match get_exec(value, "approvals") {
        Some(Json::Object(es)) => {
            let mut i: usize = 0;
            while i < es.len()
                invariant
                    i <= es.len(),
                    approvals@.map_values(|p: (DocKind, Approval)| (p.0@, p.1)) == approvals_of(es@, i as int),
                decreases es.len() - i,
            {
                match kind_of_key_exec(&es[i].0) {
                    Some(kind) => {
                        let generated = bool_exec(&es[i].1, "generated");
                        let approved = bool_exec(&es[i].1, "approved");
                        upsert_exec(&mut approvals, kind, Approval { generated, approved });
                    },
                    None => {},
                }
                i = i + 1;
            }
        },
        _ => {},
    }
    let meta = SpecMeta { name, phase, approvals, updated_at };
    proof {
        assert(meta@.approvals == doc_approvals(*value));
    }
    Ok(meta)
}

} // verus!
