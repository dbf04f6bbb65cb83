//! The scripting bridge: session store, response snapshot, and the error
//! taxonomy of the embedded script engine.
//!
//! The bridge's decisions — when a runtime is rebuilt, what is bound into the
//! script's globals, how the session store is replaced after a call, and how
//! engine failures map to user-facing errors — all live here. Only the
//! engine's own execution happens outside, handing its outcome back as plain
//! script values.

use vstd::prelude::*;

use crate::floats::float_of_i64;
use crate::script_value::{
    to_script_entries, to_script_spec, ScriptEntry, ScriptValue, SpecScript,
};
use crate::text::{str_eq, utf8_lossy, utf8_lossy_string};
use crate::value::{SpecValue, Value};

verus! {

broadcast use vstd::std_specs::vec::group_vec_axioms;

/// Errors that can come out of a script-filter call.
#[derive(Clone, Debug, PartialEq, Eq)]
pub enum JsError {
    /// The script file could not be read.
    FileLoadError { path: String, message: String },
    /// The script source did not parse.
    ParseError { message: String },
    /// No filter function with the requested name is defined.
    FunctionNotFound { name: String },
    /// The called function threw, or the engine call failed.
    RuntimeError { message: String },
    /// A value could not be marshaled between host and script.
    ConversionError { message: String },
}

/// The user-facing text of a script error.
pub open spec fn js_error_message_spec(e: JsError) -> Seq<char> {
    match e {
        JsError::FileLoadError { path, message } => "Failed to load JavaScript file '"@ + path@
            + "': "@ + message@,
        JsError::ParseError { message } => "JavaScript parse error: "@ + message@,
        JsError::FunctionNotFound { name } => "JavaScript filter function 'filter_"@ + name@
            + "' not found"@,
        JsError::RuntimeError { message } => "JavaScript runtime error: "@ + message@,
        JsError::ConversionError { message } => "Value conversion error: "@ + message@,
    }
}

impl JsError {
    /// The user-facing text of this error.
    pub fn message(&self) -> (r: String)
        ensures
            r@ == js_error_message_spec(*self),
    {
        match self {
            JsError::FileLoadError { path, message } => {
                let mut s = String::from_str("Failed to load JavaScript file '");
                s.append(path.as_str());
                s.append("': ");
                s.append(message.as_str());
                s
            }
            JsError::ParseError { message } => {
                let mut s = String::from_str("JavaScript parse error: ");
                s.append(message.as_str());
                s
            }
            JsError::FunctionNotFound { name } => {
                let mut s = String::from_str("JavaScript filter function 'filter_");
                s.append(name.as_str());
                s.append("' not found");
                s
            }
            JsError::RuntimeError { message } => {
                let mut s = String::from_str("JavaScript runtime error: ");
                s.append(message.as_str());
                s
            }
            JsError::ConversionError { message } => {
                let mut s = String::from_str("Value conversion error: ");
                s.append(message.as_str());
                s
            }
        }
    }
}

/// What the engine adapter reports when a call cannot complete. The bridge
/// turns each fault into the matching `JsError`, so the adapter never shapes
/// user-facing errors itself.
#[derive(Clone, Debug, PartialEq, Eq)]
pub enum EngineFault {
    /// The script file could not be read.
    Load { path: String, message: String },
    /// The script source did not parse or its top level threw.
    Parse { message: String },
    /// The global with the planned function name is absent or not callable.
    NotCallable,
    /// The call itself failed: the function threw or the engine errored.
    Runtime { message: String },
    /// A value could not be marshaled into or out of the engine.
    Conversion { message: String },
}

/// Maps an engine fault to the matching script error. A missing function is
/// named by the filter's bare name, without the internal prefix; a failed
/// load names the file that was requested.
pub fn fault_to_js_error(fault: &EngineFault, bare_name: &str) -> (r: JsError)
    ensures
        (match *fault {
            EngineFault::Load { path, message } => r matches JsError::FileLoadError {
                path: p,
                message: m,
            } && p@ == path@ && m@ == message@,
            EngineFault::Parse { message } => r matches JsError::ParseError { message: m } && m@
                == message@,
            EngineFault::NotCallable => r matches JsError::FunctionNotFound { name } && name@
                == bare_name@,
            EngineFault::Runtime { message } => r matches JsError::RuntimeError { message: m }
                && m@ == message@,
            EngineFault::Conversion { message } => r matches JsError::ConversionError {
                message: m,
            } && m@ == message@,
        }),
{
    match fault {
        EngineFault::Load { path, message } => JsError::FileLoadError {
            path: path.clone(),
            message: message.clone(),
        },
        EngineFault::Parse { message } => JsError::ParseError { message: message.clone() },
        EngineFault::NotCallable => JsError::FunctionNotFound {
            name: String::from_str(bare_name),
        },
        EngineFault::Runtime { message } => JsError::RuntimeError { message: message.clone() },
        EngineFault::Conversion { message } => JsError::ConversionError {
            message: message.clone(),
        },
    }
}

/// Client object that stores session metadata: a mapping that persists
/// across calls to the same loaded script and is visible to scripts as
/// `client.global`.
pub struct JsClient {
    /// Global storage for custom variables, in insertion order.
    pub global: Vec<(String, Value)>,
}

/// The models of a key/value binding sequence.
pub open spec fn kv_models_of(s: Seq<(String, Value)>) -> Seq<(Seq<char>, SpecValue)>
    decreases s,
    via kv_models_of_dec
{
    if s.len() == 0 {
        Seq::empty()
    } else {
        kv_models_of(s.drop_last()).push((s.last().0@, s.last().1@))
    }
}

#[via_fn]
proof fn kv_models_of_dec(s: Seq<(String, Value)>) {
    if s.len() > 0 {
        assert(decreases_to!(s => s[s.len() - 1]));
        assert(decreases_to!(s[s.len() - 1] => s[s.len() - 1].1));
        assert(decreases_to!(s => s.subrange(0, s.len() - 1)));
    }
}

/// The model of a binding sequence, index by index.
pub proof fn lemma_kv_models_of(s: Seq<(String, Value)>)
    ensures
        kv_models_of(s).len() == s.len(),
        forall|i: int| 0 <= i < s.len() ==> kv_models_of(s)[i] == (s[i].0@, s[i].1@),
    decreases s.len(),
{
    if s.len() > 0 {
        lemma_kv_models_of(s.drop_last());
    }
}

/// The keys of a key/value sequence are pairwise distinct.
pub open spec fn distinct_keys<V>(s: Seq<(Seq<char>, V)>) -> bool {
    forall|i: int, j: int| 0 <= i < j < s.len() ==> (#[trigger] s[i].0) != (#[trigger] s[j].0)
}

impl JsClient {
    /// The session store as a mathematical mapping sequence.
    pub open spec fn model(&self) -> Seq<(Seq<char>, SpecValue)> {
        kv_models_of(self.global@)
    }

    /// The store is a mapping: no key is bound twice.
    pub open spec fn wf(&self) -> bool {
        distinct_keys(self.model())
    }

    /// Creates a new empty client.
    pub fn new() -> (r: JsClient)
        ensures
            r.model() == Seq::<(Seq<char>, SpecValue)>::empty(),
            r.wf(),
    {
        let r = JsClient { global: Vec::new() };
        proof {
            lemma_kv_models_of(r.global@);
        }
        r
    }

    /// The script-side form of the client: an object whose `global` property
    /// holds the session store.
    pub open spec fn script_spec(&self) -> SpecScript {
        SpecScript::Object(
            seq![("global"@, SpecScript::Object(to_script_entries(self.model())))],
        )
    }

    /// Builds the script-side client object from the session store.
    pub fn to_script_object(&self) -> (r: ScriptValue)
        ensures
            r@ == self.script_spec(),
    {
        let mut inner: Vec<ScriptEntry> = Vec::new();
        let n = self.global.len();
        let mut i: usize = 0;
        while i < n
            invariant
                n == self.global@.len(),
                i <= n,
                inner@.len() == i,
                forall|j: int|
                    0 <= j < i ==> #[trigger] inner@[j].key@ == self.global@[j].0@
                        && inner@[j].value.model() == to_script_spec(self.global@[j].1@),
            decreases n - i,
        {
            let entry = ScriptEntry {
                key: self.global[i].0.clone(),
                value: crate::script_value::value_to_script(&self.global[i].1),
            };
            inner.push(entry);
            i = i + 1;
        }
        proof {
            lemma_kv_models_of(self.global@);
            crate::script_value::lemma_script_entry_models_of(inner@);
            crate::script_value::lemma_to_script_entries(self.model());
            assert(crate::script_value::script_entry_models_of(inner@) =~= to_script_entries(
                self.model(),
            ));
        }
        let mut outer: Vec<ScriptEntry> = Vec::new();
        outer.push(ScriptEntry { key: String::from_str("global"), value: ScriptValue::Object(inner) });
        proof {
            crate::script_value::lemma_script_entry_models_of(outer@);
            assert(crate::script_value::script_entry_models_of(outer@)
                =~~= self.script_spec()->Object_0);
        }
        ScriptValue::Object(outer)
    }
}

/// Looks a property up in a script object's entries: first binding wins, as
/// engine objects have unique property names.
pub open spec fn script_obj_get(entries: Seq<(Seq<char>, SpecScript)>, key: Seq<char>) -> Option<
    SpecScript,
>
    decreases entries.len(),
{
    if entries.len() == 0 {
        None
    } else if entries[0].0 == key {
        Some(entries[0].1)
    } else {
        script_obj_get(entries.skip(1), key)
    }
}

/// Finds a property of a script object value, when the value is an object.
pub open spec fn script_value_get(sv: SpecScript, key: Seq<char>) -> Option<SpecScript> {
    match sv {
        SpecScript::Object(entries) => script_obj_get(entries, key),
        _ => None,
    }
}

/// Looks a property up in a script object's entry vector.
pub fn script_entries_get<'a>(entries: &'a Vec<ScriptEntry>, key: &str) -> (r: Option<
    &'a ScriptValue,
>)
    ensures
        r is Some <==> script_obj_get(crate::script_value::script_entry_models_of(entries@), key@)
            is Some,
        r is Some ==> Some(r->0@) == script_obj_get(
            crate::script_value::script_entry_models_of(entries@),
            key@,
        ),
{
    let n = entries.len();
    let mut i: usize = 0;
    proof {
        crate::script_value::lemma_script_entry_models_of(entries@);
        assert(crate::script_value::script_entry_models_of(entries@).skip(0)
            =~= crate::script_value::script_entry_models_of(entries@));
    }
    while i < n
        invariant
            n == entries@.len(),
            i <= n,
            crate::script_value::script_entry_models_of(entries@).len() == n,
            forall|j: int|
                0 <= j < n ==> crate::script_value::script_entry_models_of(entries@)[j] == (
                    entries@[j].key@,
                    entries@[j].value.model(),
                ),
            script_obj_get(crate::script_value::script_entry_models_of(entries@), key@)
                == script_obj_get(
                crate::script_value::script_entry_models_of(entries@).skip(i as int),
                key@,
            ),
            forall|j: int| 0 <= j < i ==> entries@[j].key@ != key@,
        decreases n - i,
    {
        proof {
            assert(crate::script_value::script_entry_models_of(entries@).skip(i as int)[0] == (
                entries@[i as int].key@,
                entries@[i as int].value.model(),
            ));
        }
        if str_eq(entries[i].key.as_str(), key) {
            return Some(&entries[i].value);
        }
        proof {
            assert(crate::script_value::script_entry_models_of(entries@).skip(i as int).skip(1)
                =~= crate::script_value::script_entry_models_of(entries@).skip(i as int + 1));
        }
        i = i + 1;
    }
    proof {
        assert(crate::script_value::script_entry_models_of(entries@).skip(n as int)
            =~= Seq::<(Seq<char>, SpecScript)>::empty());
    }
    None
}

/// Appends one header occurrence to grouped headers: the value joins the
/// existing group of that exact name, or opens a new group at the end.
pub open spec fn upd_group(
    g: Seq<(Seq<char>, Seq<Seq<char>>)>,
    name: Seq<char>,
    value: Seq<char>,
) -> Seq<(Seq<char>, Seq<Seq<char>>)>
    decreases g.len(),
{
    if g.len() == 0 {
        seq![(name, seq![value])]
    } else if g[0].0 == name {
        seq![(g[0].0, g[0].1.push(value))].add(g.skip(1))
    } else {
        seq![g[0]].add(upd_group(g.skip(1), name, value))
    }
}

/// Headers grouped by exact name, in order of first occurrence, each group
/// keeping its values in order.
pub open spec fn grouped_headers(hs: Seq<(Seq<char>, Seq<char>)>) -> Seq<
    (Seq<char>, Seq<Seq<char>>),
>
    decreases hs.len(),
{
    if hs.len() == 0 {
        Seq::empty()
    } else {
        upd_group(grouped_headers(hs.drop_last()), hs.last().0, hs.last().1)
    }
}

/// The position of the group with a given name, or a negative number when
/// there is none.
pub open spec fn find_group(g: Seq<(Seq<char>, Seq<Seq<char>>)>, name: Seq<char>) -> int
    decreases g.len(),
{
    if g.len() == 0 {
        -1
    } else if g[0].0 == name {
        0
    } else {
        let rest = find_group(g.skip(1), name);
        if rest < 0 {
            -1
        } else {
            rest + 1
        }
    }
}

/// What `find_group` finds: the first group of that name, if any.
pub proof fn lemma_find_group(g: Seq<(Seq<char>, Seq<Seq<char>>)>, name: Seq<char>)
    ensures
        -1 <= find_group(g, name) < g.len(),
        find_group(g, name) >= 0 ==> g[find_group(g, name)].0 == name,
        forall|j: int| 0 <= j < find_group(g, name) ==> g[j].0 != name,
        find_group(g, name) < 0 ==> forall|j: int| 0 <= j < g.len() ==> g[j].0 != name,
    decreases g.len(),
{
    if g.len() > 0 && g[0].0 != name {
        lemma_find_group(g.skip(1), name);
        assert(forall|j: int| 1 <= j < g.len() ==> g[j] == g.skip(1)[j - 1]);
    }
}

/// The position of the first group whose name matches, found by scanning.
pub proof fn lemma_find_group_at(g: Seq<(Seq<char>, Seq<Seq<char>>)>, name: Seq<char>, k: int)
    requires
        0 <= k < g.len(),
        g[k].0 == name,
        forall|j: int| 0 <= j < k ==> g[j].0 != name,
    ensures
        find_group(g, name) == k,
    decreases g.len(),
{
    if k > 0 {
        lemma_find_group_at(g.skip(1), name, k - 1);
    }
}

/// How one update changes grouped headers: in place at the found group, or
/// appended as a new group.
pub proof fn lemma_upd_group(g: Seq<(Seq<char>, Seq<Seq<char>>)>, name: Seq<char>, value: Seq<char>)
    ensures
        find_group(g, name) < 0 ==> upd_group(g, name, value) == g.push((name, seq![value])),
        find_group(g, name) >= 0 ==> upd_group(g, name, value) == g.update(
            find_group(g, name),
            (name, g[find_group(g, name)].1.push(value)),
        ),
    decreases g.len(),
{
    lemma_find_group(g, name);
    if g.len() == 0 {
        assert(upd_group(g, name, value) =~~= g.push((name, seq![value])));
    } else if g[0].0 == name {
        assert(upd_group(g, name, value) =~~= g.update(0, (name, g[0].1.push(value))));
    } else {
        lemma_upd_group(g.skip(1), name, value);
        assert(forall|j: int| 1 <= j < g.len() ==> g[j] == g.skip(1)[j - 1]);
        if find_group(g.skip(1), name) < 0 {
            assert(upd_group(g, name, value) =~~= g.push((name, seq![value])));
        } else {
            assert(upd_group(g, name, value) =~~= g.update(
                find_group(g, name),
                (name, g[find_group(g, name)].1.push(value)),
            ));
        }
    }
}

/// The model of a grouped-header vector.
pub open spec fn group_models_of(g: Seq<(String, Vec<String>)>) -> Seq<
    (Seq<char>, Seq<Seq<char>>),
> {
    Seq::new(g.len(), |i: int| (g[i].0@, Seq::new(g[i].1@.len(), |j: int| g[i].1@[j]@)))
}

/// The model of a header vector.
pub open spec fn header_models_of(hs: Seq<(String, String)>) -> Seq<(Seq<char>, Seq<char>)> {
    Seq::new(hs.len(), |i: int| (hs[i].0@, hs[i].1@))
}

/// The position of the group with the given name, if one exists.
fn find_group_index(groups: &Vec<(String, Vec<String>)>, name: &str) -> (r: Option<usize>)
    ensures
        r is Some <==> find_group(group_models_of(groups@), name@) >= 0,
        r is Some ==> r->0 < groups@.len() && r->0 == find_group(group_models_of(groups@), name@),
{
    let m = groups.len();
    let mut k: usize = 0;
    while k < m
        invariant
            m == groups@.len(),
            k <= m,
            forall|j: int| 0 <= j < k ==> group_models_of(groups@)[j].0 != name@,
        decreases m - k,
    {
        if str_eq(groups[k].0.as_str(), name) {
            proof {
                lemma_find_group_at(group_models_of(groups@), name@, k as int);
            }
            return Some(k);
        }
        k = k + 1;
    }
    proof {
        lemma_find_group(group_models_of(groups@), name@);
    }
    None
}

/// Groups headers by exact name, in order of first occurrence.
fn group_headers(headers: &Vec<(String, String)>) -> (r: Vec<(String, Vec<String>)>)
    ensures
        group_models_of(r@) == grouped_headers(header_models_of(headers@)),
{
    let mut groups: Vec<(String, Vec<String>)> = Vec::new();
    let n = headers.len();
    let mut i: usize = 0;
    proof {
        assert(header_models_of(headers@).take(0) =~= Seq::<(Seq<char>, Seq<char>)>::empty());
        assert(group_models_of(groups@) =~~= grouped_headers(
            header_models_of(headers@).take(0),
        ));
    }
    while i < n
        invariant
            n == headers@.len(),
            i <= n,
            group_models_of(groups@) == grouped_headers(header_models_of(headers@).take(i as int)),
        decreases n - i,
    {
        let ghost before = group_models_of(groups@);
        let name: &String = &headers[i].0;
        let value: &String = &headers[i].1;
        proof {
            lemma_find_group(before, name@);
            lemma_upd_group(before, name@, value@);
        }
        match find_group_index(&groups, name.as_str()) {
            Some(k) => {
                let mut entry = groups.remove(k);
                entry.1.push(value.clone());
                groups.insert(k, entry);
                proof {
                    assert(group_models_of(groups@) =~~= before.update(
                        k as int,
                        (name@, before[k as int].1.push(value@)),
                    ));
                }
            }
            None => {
                let mut values: Vec<String> = Vec::new();
                values.push(value.clone());
                groups.push((name.clone(), values));
                proof {
                    assert(group_models_of(groups@) =~~= before.push((name@, seq![value@])));
                }
            }
        }
        i = i + 1;
        proof {
            assert(header_models_of(headers@).take(i as int).drop_last() =~= header_models_of(
                headers@,
            ).take(i as int - 1));
            assert(header_models_of(headers@).take(i as int).last() == (
                headers@[i - 1].0@,
                headers@[i - 1].1@,
            ));
            assert(group_models_of(groups@) =~~= grouped_headers(
                header_models_of(headers@).take(i as int),
            ));
        }
    }
    proof {
        assert(header_models_of(headers@).take(n as int) =~~= header_models_of(headers@));
    }
    groups
}

/// The script-side form of grouped headers: each name a property holding the
/// array of its values.
pub open spec fn groups_to_script(g: Seq<(Seq<char>, Seq<Seq<char>>)>) -> Seq<
    (Seq<char>, SpecScript),
> {
    Seq::new(
        g.len(),
        |i: int|
            (
                g[i].0,
                SpecScript::Array(Seq::new(g[i].1.len(), |j: int| SpecScript::String(g[i].1[j]))),
            ),
    )
}

/// Response object that provides read-only access to the current HTTP
/// response. It is replaced wholesale before each filter call that may
/// reference it; scripts only read it.
pub struct JsResponse {
    /// HTTP status code.
    pub status: u32,
    /// Response headers, in order, duplicates allowed.
    pub headers: Vec<(String, String)>,
    /// Response body as bytes.
    pub body: Vec<u8>,
    /// The first `Content-Type` header value, if any.
    pub content_type: Option<String>,
    /// Response URL.
    pub url: String,
}

/// The value of the first header with a given (lower-case) name, compared
/// case-insensitively.
pub open spec fn find_header_ci(hs: Seq<(Seq<char>, Seq<char>)>, lower_name: Seq<char>) -> Option<
    Seq<char>,
>
    decreases hs.len(),
{
    if hs.len() == 0 {
        None
    } else if hs[0].0.map_values(|c: char| crate::decimal::lower_char(c)) == lower_name {
        Some(hs[0].1)
    } else {
        find_header_ci(hs.skip(1), lower_name)
    }
}

/// The value of the first header named `Content-Type`, in any case.
fn find_content_type(headers: &Vec<(String, String)>) -> (r: Option<String>)
    ensures
        (match r {
            Some(ct) => Some(ct@) == find_header_ci(header_models_of(headers@), "content-type"@),
            None => find_header_ci(header_models_of(headers@), "content-type"@) is None,
        }),
{
    proof {
        reveal_strlit("content-type");
        assert(header_models_of(headers@).skip(0) =~= header_models_of(headers@));
    }
    let n = headers.len();
    let mut k: usize = 0;
    while k < n
        invariant
            n == headers@.len(),
            k <= n,
            find_header_ci(header_models_of(headers@), "content-type"@) == find_header_ci(
                header_models_of(headers@).skip(k as int),
                "content-type"@,
            ),
        decreases n - k,
    {
        proof {
            assert(header_models_of(headers@).skip(k as int)[0] == (
                headers@[k as int].0@,
                headers@[k as int].1@,
            ));
            assert(headers@[k as int].0@.skip(0) =~= headers@[k as int].0@);
        }
        if crate::decimal::eq_lower(headers[k].0.as_str(), 0, "content-type") {
            return Some(headers[k].1.clone());
        }
        proof {
            assert(header_models_of(headers@).skip(k as int).skip(1) =~= header_models_of(
                headers@,
            ).skip(k as int + 1));
        }
        k = k + 1;
    }
    proof {
        assert(header_models_of(headers@).skip(n as int) =~= Seq::<(Seq<char>, Seq<char>)>::empty());
    }
    None
}

impl JsResponse {
    /// The script-side form of the response: status, url, content type (or
    /// null), headers grouped into arrays, and the body decoded as UTF-8
    /// with lossy substitution.
    pub open spec fn script_spec(&self) -> SpecScript {
        SpecScript::Object(
            seq![
                ("status"@, SpecScript::Number(float_of_i64(self.status as i64))),
                ("url"@, SpecScript::String(self.url@)),
                (
                    "contentType"@,
                    match self.content_type {
                        Some(ct) => SpecScript::String(ct@),
                        None => SpecScript::Null,
                    },
                ),
                (
                    "headers"@,
                    SpecScript::Object(
                        groups_to_script(grouped_headers(header_models_of(self.headers@))),
                    ),
                ),
                ("body"@, SpecScript::String(utf8_lossy(self.body@))),
            ],
        )
    }

    /// Creates a default, empty response object.
    pub fn empty() -> (r: JsResponse)
        ensures
            r.status == 0,
            r.headers@.len() == 0,
            r.body@.len() == 0,
            r.content_type is None,
            r.url@ == Seq::<char>::empty(),
    {
        let url = String::new();
        JsResponse { status: 0, headers: Vec::new(), body: Vec::new(), content_type: None, url }
    }

    /// Creates a response object from a plain response: the headers carried
    /// over in order, the content type taken from the first `Content-Type`
    /// header, compared case-insensitively.
    pub fn from_http_response(response: &HttpResponseInput) -> (r: JsResponse)
        ensures
            r.status == response.status,
            r.headers@.len() == response.headers@.len(),
            forall|i: int|
                0 <= i < response.headers@.len() ==> #[trigger] r.headers@[i].0@
                    == response.headers@[i].0@ && r.headers@[i].1@ == response.headers@[i].1@,
            r.body@ == response.body@,
            r.url@ == response.url@,
            (match r.content_type {
                Some(ct) => Some(ct@) == find_header_ci(
                    header_models_of(response.headers@),
                    "content-type"@,
                ),
                None => find_header_ci(header_models_of(response.headers@), "content-type"@)
                    is None,
            }),
    {
        let n = response.headers.len();
        let mut headers: Vec<(String, String)> = Vec::new();
        let mut i: usize = 0;
        while i < n
            invariant
                n == response.headers@.len(),
                i <= n,
                headers@.len() == i,
                forall|j: int|
                    0 <= j < i ==> #[trigger] headers@[j].0@ == response.headers@[j].0@
                        && headers@[j].1@ == response.headers@[j].1@,
            decreases n - i,
        {
            headers.push((response.headers[i].0.clone(), response.headers[i].1.clone()));
            i = i + 1;
        }
        let content_type = find_content_type(&response.headers);
        JsResponse {
            status: response.status,
            headers,
            body: crate::value::copy_bytes(&response.body),
            content_type,
            url: response.url.clone(),
        }
    }

    /// Builds the script-side response object.
    pub fn to_script_object(&self) -> (r: ScriptValue)
        ensures
            r@ == self.script_spec(),
    {
        let mut out: Vec<ScriptEntry> = Vec::new();
        out.push(
            ScriptEntry {
                key: String::from_str("status"),
                value: ScriptValue::Number(crate::floats::float_from_i64(self.status as i64)),
            },
        );
        out.push(
            ScriptEntry { key: String::from_str("url"), value: ScriptValue::String(self.url.clone()) },
        );
        let ct = match &self.content_type {
            Some(ct) => ScriptValue::String(ct.clone()),
            None => ScriptValue::Null,
        };
        out.push(ScriptEntry { key: String::from_str("contentType"), value: ct });
        let groups = group_headers(&self.headers);
        let mut header_entries: Vec<ScriptEntry> = Vec::new();
        let m = groups.len();
        let mut i: usize = 0;
        while i < m
            invariant
                m == groups@.len(),
                i <= m,
                header_entries@.len() == i,
                forall|j: int|
                    0 <= j < i ==> #[trigger] header_entries@[j].key@ == groups@[j].0@
                        && header_entries@[j].value.model() == SpecScript::Array(
                        Seq::new(groups@[j].1@.len(), |l: int| SpecScript::String(groups@[j].1@[l]@)),
                    ),
            decreases m - i,
        {
            let mut values: Vec<ScriptValue> = Vec::new();
            let vn = groups[i].1.len();
            let mut j: usize = 0;
            while j < vn
                invariant
                    0 <= i < groups@.len(),
                    vn == groups@[i as int].1@.len(),
                    j <= vn,
                    values@.len() == j,
                    forall|l: int|
                        0 <= l < j ==> #[trigger] values@[l].model() == SpecScript::String(
                            groups@[i as int].1@[l]@,
                        ),
                decreases vn - j,
            {
                values.push(ScriptValue::String(groups[i].1[j].clone()));
                j = j + 1;
            }
            proof {
                crate::script_value::lemma_script_models_of(values@);
                assert(crate::script_value::script_models_of(values@) =~= Seq::new(
                    groups@[i as int].1@.len(),
                    |l: int| SpecScript::String(groups@[i as int].1@[l]@),
                ));
            }
            header_entries.push(
                ScriptEntry { key: groups[i].0.clone(), value: ScriptValue::Array(values) },
            );
            i = i + 1;
        }
        proof {
            crate::script_value::lemma_script_entry_models_of(header_entries@);
            let ghost gm = group_models_of(groups@);
            assert forall|j: int| 0 <= j < header_entries@.len() implies
                crate::script_value::script_entry_models_of(header_entries@)[j]
                    == groups_to_script(gm)[j] by {
                assert(header_entries@[j].key@ == groups@[j].0@);
                assert(gm[j] == (
                    groups@[j].0@,
                    Seq::new(groups@[j].1@.len(), |l: int| groups@[j].1@[l]@),
                ));
                assert(header_entries@[j].value.model() matches SpecScript::Array(vs) && vs
                    =~= Seq::new(gm[j].1.len(), |l: int| SpecScript::String(gm[j].1[l])));
            }
            assert(crate::script_value::script_entry_models_of(header_entries@)
                =~= groups_to_script(group_models_of(groups@)));
        }
        out.push(
            ScriptEntry {
                key: String::from_str("headers"),
                value: ScriptValue::Object(header_entries),
            },
        );
        out.push(
            ScriptEntry {
                key: String::from_str("body"),
                value: ScriptValue::String(utf8_lossy_string(&self.body)),
            },
        );
        proof {
            crate::script_value::lemma_script_entry_models_of(out@);
            assert(crate::script_value::script_entry_models_of(out@)
                =~~= self.script_spec()->Object_0);
        }
        ScriptValue::Object(out)
    }
}

/// A plain response handed in from outside: status, headers in order, body
/// bytes and the final URL.
pub struct HttpResponseInput {
    pub status: u32,
    pub headers: Vec<(String, String)>,
    pub body: Vec<u8>,
    pub url: String,
}

/// A per-worker script runtime's state: which script path is loaded, the
/// session store, and the current response snapshot. The engine context
/// itself lives with whoever drives the engine; this state decides when it
/// must be rebuilt and what is bound into it.
pub struct JsRuntime {
    /// The path of the script whose top level has been executed, if any.
    pub loaded_path: Option<String>,
    /// The session store, kept across calls to the same loaded script.
    pub client: JsClient,
    /// The response snapshot bound into the script before each call.
    pub response: JsResponse,
}

impl JsRuntime {
    /// Creates a fresh runtime state: nothing loaded, an empty session
    /// store, an empty response.
    pub fn new() -> (r: JsRuntime)
        ensures
            r.loaded_path is None,
            r.client.model() == Seq::<(Seq<char>, SpecValue)>::empty(),
            r.response.status == 0,
            r.response.headers@.len() == 0,
            r.response.body@.len() == 0,
            r.response.content_type is None,
            r.response.url@ == Seq::<char>::empty(),
            r.client.wf(),
    {
        JsRuntime { loaded_path: None, client: JsClient::new(), response: JsResponse::empty() }
    }

    /// Replaces the response snapshot for the next call.
    pub fn set_response(&mut self, response: JsResponse)
        ensures
            final(self).response == response,
            final(self).loaded_path == old(self).loaded_path,
            final(self).client.model() == old(self).client.model(),
    {
        self.response = response;
    }

    /// The session store.
    pub fn client(&self) -> (r: &JsClient)
        ensures
            *r == self.client,
    {
        &self.client
    }

    /// True when this runtime has executed the given script's top level.
    pub fn is_loaded(&self, path: &str) -> (r: bool)
        ensures
            r == (self.loaded_path matches Some(p) && p@ == path@),
    {
        match &self.loaded_path {
            Some(p) => str_eq(p.as_str(), path),
            None => false,
        }
    }

    /// Makes this runtime the one for the given script path. When no script
    /// is loaded, or a different path is, the whole runtime is rebuilt —
    /// dropping all session state — and the caller must execute the script's
    /// top level again; the returned flag says so. A repeated call with the
    /// same path keeps the session store.
    pub fn ensure_loaded(&mut self, path: &str) -> (reload: bool)
        ensures
            reload == (old(self).loaded_path is None || old(self).loaded_path->0@ != path@),
            !reload ==> *final(self) == *old(self),
            reload ==> {
                &&& final(self).loaded_path matches Some(p) && p@ == path@
                &&& final(self).client.model() == Seq::<(Seq<char>, SpecValue)>::empty()
                &&& final(self).client.wf()
                &&& final(self).response.status == 0
                &&& final(self).response.headers@.len() == 0
            },
    {
        let same = match &self.loaded_path {
            Some(p) => str_eq(p.as_str(), path),
            None => false,
        };
        if same {
            false
        } else {
            self.loaded_path = Some(String::from_str(path));
            self.client = JsClient::new();
            self.response = JsResponse::empty();
            true
        }
    }
}

/// Everything one script-filter call hands to the engine: the prefixed
/// function name to look up, the bare name for diagnostics, the marshaled
/// input and arguments, and the two global objects to bind.
pub struct JsCall {
    /// The global to resolve: the filter's name behind the internal prefix.
    pub function_name: String,
    /// The filter's name as the user wrote it.
    pub bare_name: String,
    /// The filtered value, marshaled.
    pub input: ScriptValue,
    /// The arguments, marshaled, in order.
    pub args: Vec<ScriptValue>,
    /// The `client` object to bind, seeded from the session store.
    pub client_object: ScriptValue,
    /// The `response` object to bind.
    pub response_object: ScriptValue,
}

impl JsRuntime {
    /// Plans one filter call: prefixes the function name, marshals the input
    /// and arguments, and snapshots the two objects to bind into the
    /// script's globals.
    pub fn plan_call(&self, name: &str, input: &Value, args: &Vec<Value>) -> (r: JsCall)
        ensures
            r.function_name@ == "filter_"@ + name@,
            r.bare_name@ == name@,
            r.input@ == to_script_spec(input@),
            r.args@.len() == args@.len(),
            forall|i: int|
                0 <= i < args@.len() ==> #[trigger] r.args@[i]@ == to_script_spec(args@[i]@),
            r.client_object@ == self.client.script_spec(),
            r.response_object@ == self.response.script_spec(),
    {
        let mut function_name = String::from_str("filter_");
        function_name.append(name);
        let input_value = crate::script_value::value_to_script(input);
        let mut marshaled: Vec<ScriptValue> = Vec::new();
        let n = args.len();
        let mut i: usize = 0;
        while i < n
            invariant
                n == args@.len(),
                i <= n,
                marshaled@.len() == i,
                forall|j: int|
                    0 <= j < i ==> #[trigger] marshaled@[j]@ == to_script_spec(args@[j]@),
            decreases n - i,
        {
            marshaled.push(crate::script_value::value_to_script(&args[i]));
            i = i + 1;
        }
        JsCall {
            function_name,
            bare_name: String::from_str(name),
            input: input_value,
            args: marshaled,
            client_object: self.client.to_script_object(),
            response_object: self.response.to_script_object(),
        }
    }

    /// Absorbs the script-side client object after a call: when its `global`
    /// property is an object, the session store is wholly replaced by that
    /// object's entries — keys absent from it are dropped, not merged.
    /// Anything else leaves the store as it was.
    pub fn absorb_globals(&mut self, client_back: &ScriptValue)
        ensures
            final(self).loaded_path == old(self).loaded_path,
            final(self).response == old(self).response,
            (match script_value_get(client_back@, "global"@) {
                Some(g) => match g {
                    SpecScript::Object(entries) => final(self).client.model()
                        == crate::script_value::to_value_entries(entries) && (distinct_keys(
                        entries,
                    ) ==> final(self).client.wf()),
                    _ => final(self).client == old(self).client,
                },
                None => final(self).client == old(self).client,
            }),
    {
        proof {
            reveal_strlit("global");
        }
        let entries = match client_back {
            ScriptValue::Object(outer) => match script_entries_get(outer, "global") {
                Some(g) => match g {
                    ScriptValue::Object(entries) => entries,
                    _ => {
                        return ;
                    }
                },
                None => {
                    return ;
                }
            },
            _ => {
                return ;
            }
        };
        let mut store: Vec<(String, Value)> = Vec::new();
        let n = entries.len();
        let mut i: usize = 0;
        while i < n
            invariant
                n == entries@.len(),
                i <= n,
                store@.len() == i,
                forall|j: int|
                    0 <= j < i ==> #[trigger] store@[j].0@ == entries@[j].key@ && store@[j].1@
                        == crate::script_value::to_value_spec(entries@[j].value@),
            decreases n - i,
        {
            let converted = crate::script_value::script_to_value(&entries[i].value);
            store.push((entries[i].key.clone(), converted));
            i = i + 1;
        }
        proof {
            lemma_kv_models_of(store@);
            crate::script_value::lemma_script_entry_models_of(entries@);
            crate::script_value::lemma_to_value_entries(
                crate::script_value::script_entry_models_of(entries@),
            );
            assert(kv_models_of(store@) =~~= crate::script_value::to_value_entries(
                crate::script_value::script_entry_models_of(entries@),
            ));
        }
        self.client = JsClient { global: store };
    }

    /// Finishes a call from the engine's outcome: on success the session
    /// store is replaced from the script-side client object and the result
    /// marshaled back; on a fault the matching error is reported, a missing
    /// function named by the filter's bare name.
    pub fn complete_call(
        &mut self,
        call: &JsCall,
        outcome: Result<(ScriptValue, ScriptValue), EngineFault>,
    ) -> (r: Result<Value, JsError>)
        ensures
            final(self).loaded_path == old(self).loaded_path,
            (match outcome {
                Ok((client_back, result)) => {
                    &&& r is Ok
                    &&& r->Ok_0@ == crate::script_value::to_value_spec(result@)
                    &&& (match script_value_get(client_back@, "global"@) {
                        Some(g) => match g {
                            SpecScript::Object(entries) => final(self).client.model()
                                == crate::script_value::to_value_entries(entries) && (
                            distinct_keys(entries) ==> final(self).client.wf()),
                            _ => final(self).client == old(self).client,
                        },
                        None => final(self).client == old(self).client,
                    })
                },
                Err(fault) => {
                    &&& r is Err
                    &&& final(self).client.model() == old(self).client.model()
                    &&& (match fault {
                        EngineFault::Load { path, message } => r->Err_0
                            matches JsError::FileLoadError { path: p, message: m } && p@ == path@
                            && m@ == message@,
                        EngineFault::Parse { message } => r->Err_0 matches JsError::ParseError {
                            message: m,
                        } && m@ == message@,
                        EngineFault::NotCallable => r->Err_0 matches JsError::FunctionNotFound {
                            name,
                        } && name@ == call.bare_name@,
                        EngineFault::Runtime { message } => r->Err_0 matches JsError::RuntimeError {
                            message: m,
                        } && m@ == message@,
                        EngineFault::Conversion {
                            message,
                        } => r->Err_0 matches JsError::ConversionError { message: m } && m@
                            == message@,
                    })
                },
            }),
    {
        match outcome {
            Ok((client_back, result)) => {
                self.absorb_globals(&client_back);
                Ok(crate::script_value::script_to_value(&result))
            }
            Err(fault) => Err(fault_to_js_error(&fault, call.bare_name.as_str())),
        }
    }
}

/// Converts a script error to an evaluation error: a missing function keeps
/// its bare name; every other failure carries its message.
pub fn js_error_to_runner_error(
    error: JsError,
    source_info: crate::ast::SourceInfo,
    in_assert: bool,
) -> (r: crate::runner_error::RunnerError)
    ensures
        r.source_info == source_info,
        r.assert == in_assert,
        (match error {
            JsError::FunctionNotFound { name } => r.kind
                matches crate::runner_error::RunnerErrorKind::JsFilterFunctionNotFound { name: n }
                && n@ == name@,
            JsError::RuntimeError { message } => r.kind
                matches crate::runner_error::RunnerErrorKind::JsFilterRuntimeError { message: m }
                && m@ == message@,
            JsError::ConversionError { message } => r.kind
                matches crate::runner_error::RunnerErrorKind::JsFilterRuntimeError { message: m }
                && m@ == message@,
            JsError::FileLoadError { path, message } => r.kind
                matches crate::runner_error::RunnerErrorKind::JsFilterRuntimeError { message: m }
                && m@ == message@,
            JsError::ParseError { message } => r.kind
                matches crate::runner_error::RunnerErrorKind::JsFilterRuntimeError { message: m }
                && m@ == message@,
        }),
{
    let kind = match error {
        JsError::FunctionNotFound { name } => {
            crate::runner_error::RunnerErrorKind::JsFilterFunctionNotFound { name }
        }
        JsError::RuntimeError { message } => {
            crate::runner_error::RunnerErrorKind::JsFilterRuntimeError { message }
        }
        JsError::ConversionError { message } => {
            crate::runner_error::RunnerErrorKind::JsFilterRuntimeError { message }
        }
        JsError::FileLoadError { path, message } => {
            crate::runner_error::RunnerErrorKind::JsFilterRuntimeError { message }
        }
        JsError::ParseError { message } => {
            crate::runner_error::RunnerErrorKind::JsFilterRuntimeError { message }
        }
    };
    crate::runner_error::RunnerError::new(source_info, kind, in_assert)
}

/// What an argument's text denotes as a value: a 64-bit integer when it
/// parses as one, else a 64-bit float when it parses as one, else the text
/// itself.
pub open spec fn arg_value_spec(s: Seq<char>) -> SpecValue {
    if crate::decimal::valid_i64_text(s) {
        SpecValue::Number(
            crate::value::SpecNumber::Integer(crate::decimal::i64_text_value(s)),
        )
    } else if crate::decimal::valid_f64_text(s) {
        SpecValue::Number(
            crate::value::SpecNumber::Float(crate::decimal::spec_parse_f64(s)->0),
        )
    } else {
        SpecValue::String(s)
    }
}

/// Parses an argument's text into a value: integer first, then float, then
/// the text kept as a string.
pub fn parse_arg_value(s: &str) -> (r: Value)
    ensures
        r@ == arg_value_spec(s@),
{
    match crate::decimal::parse_i64_str(s) {
        Some(i) => Value::Number(crate::value::Number::Integer(i)),
        None => match crate::decimal::parse_f64_str(s) {
            Some(bits) => Value::Number(crate::value::Number::Float(bits)),
            None => Value::String(String::from_str(s)),
        },
    }
}

/// One script-filter invocation, ready to run: the script path, the filter's
/// name, and the evaluated arguments.
pub struct JsFilterRequest {
    pub path: String,
    pub name: String,
    pub args: Vec<Value>,
}

/// Prepares a script-filter invocation: demands a configured script path,
/// evaluates the filter's name and each argument against the variable set,
/// and parses each argument as a number where possible.
///
/// The engine then runs the planned call; `complete_jsfilter` turns its
/// outcome into the filter's result.
pub fn eval_jsfilter(
    name: &crate::ast::Template,
    args: &Vec<(crate::ast::Whitespace, crate::ast::Template)>,
    variables: &crate::variables::VariableSet,
    jsfilter_path: &Option<String>,
    source_info: crate::ast::SourceInfo,
    in_assert: bool,
) -> (r: Result<JsFilterRequest, crate::runner_error::RunnerError>)
    ensures
        jsfilter_path is None ==> {
            &&& r is Err
            &&& r->Err_0.kind == crate::runner_error::RunnerErrorKind::JsFilterNotConfigured
            &&& r->Err_0.source_info == source_info
            &&& r->Err_0.assert == in_assert
        },
        jsfilter_path is Some && r is Ok ==> {
            &&& r->Ok_0.path@ == jsfilter_path->0@
            &&& Some(r->Ok_0.name@) == crate::template::template_text(*name, variables)
            &&& r->Ok_0.args@.len() == args@.len()
            &&& forall|i: int|
                0 <= i < args@.len() ==> (crate::template::template_text(
                    #[trigger] args@[i].1,
                    variables,
                ) matches Some(txt) && r->Ok_0.args@[i]@ == arg_value_spec(txt))
        },
        jsfilter_path is Some ==> (r is Ok <==> (crate::template::template_text(*name, variables)
            is Some && forall|i: int|
            0 <= i < args@.len() ==> crate::template::template_text(
                #[trigger] args@[i].1,
                variables,
            ) is Some)),
{
    let path = match jsfilter_path {
        Some(p) => p,
        None => {
            return Err(
                crate::runner_error::RunnerError::new(
                    source_info,
                    crate::runner_error::RunnerErrorKind::JsFilterNotConfigured,
                    in_assert,
                ),
            );
        }
    };
    let name_str = match crate::template::eval_template(name, variables) {
        Ok(s) => s,
        Err(e) => {
            return Err(e);
        }
    };
    let mut evaluated: Vec<Value> = Vec::new();
    let n = args.len();
    let mut i: usize = 0;
    while i < n
        invariant
            jsfilter_path is Some,
            n == args@.len(),
            i <= n,
            evaluated@.len() == i,
            forall|j: int|
                0 <= j < i ==> (crate::template::template_text(#[trigger] args@[j].1, variables)
                    matches Some(txt) && evaluated@[j]@ == arg_value_spec(txt)),
        decreases n - i,
    {
        let arg_str = match crate::template::eval_template(&args[i].1, variables) {
            Ok(s) => s,
            Err(e) => {
                return Err(e);
            }
        };
        evaluated.push(parse_arg_value(arg_str.as_str()));
        i = i + 1;
    }
    Ok(JsFilterRequest { path: path.clone(), name: name_str, args: evaluated })
}

/// Finishes a script-filter invocation from the engine's outcome: the
/// session store is replaced from the script's client object, the result
/// marshaled back, and any fault mapped to an evaluation error — a missing
/// function reported under the filter's bare name.
pub fn complete_jsfilter(
    runtime: &mut JsRuntime,
    call: &JsCall,
    outcome: Result<(ScriptValue, ScriptValue), EngineFault>,
    source_info: crate::ast::SourceInfo,
    in_assert: bool,
) -> (r: Result<Option<Value>, crate::runner_error::RunnerError>)
    ensures
        final(runtime).loaded_path == old(runtime).loaded_path,
        outcome matches Ok((client_back, result)) ==> {
            &&& r is Ok
            &&& r->Ok_0 matches Some(v) && v@ == crate::script_value::to_value_spec(result@)
        },
        outcome matches Err(fault) ==> {
            &&& r is Err
            &&& r->Err_0.source_info == source_info
            &&& r->Err_0.assert == in_assert
            &&& (match fault {
                EngineFault::NotCallable => r->Err_0.kind
                    matches crate::runner_error::RunnerErrorKind::JsFilterFunctionNotFound {
                    name,
                } && name@ == call.bare_name@,
                EngineFault::Load { path, message } => r->Err_0.kind
                    matches crate::runner_error::RunnerErrorKind::JsFilterRuntimeError {
                    message: m,
                } && m@ == message@,
                EngineFault::Parse { message } => r->Err_0.kind
                    matches crate::runner_error::RunnerErrorKind::JsFilterRuntimeError {
                    message: m,
                } && m@ == message@,
                EngineFault::Runtime { message } => r->Err_0.kind
                    matches crate::runner_error::RunnerErrorKind::JsFilterRuntimeError {
                    message: m,
                } && m@ == message@,
                EngineFault::Conversion { message } => r->Err_0.kind
                    matches crate::runner_error::RunnerErrorKind::JsFilterRuntimeError {
                    message: m,
                } && m@ == message@,
            })
        },
{
    match runtime.complete_call(call, outcome) {
        Ok(v) => Ok(Some(v)),
        Err(e) => Err(js_error_to_runner_error(e, source_info, in_assert)),
    }
}

} // verus!
