//! The runtime value model: the single currency exchanged between the filter
//! evaluator, the coercion rules and the scripting bridge.

use vstd::prelude::*;

use crate::decimal::{i64_text, nat_text};
use crate::floats::float_text;

verus! {

broadcast use vstd::std_specs::vec::group_vec_axioms;

/// A runtime number: 64-bit signed integer, 64-bit float (held as its IEEE754
/// bit pattern), or an integer too large for 64 bits kept as decimal text.
#[derive(Clone, Debug, PartialEq)]
pub enum Number {
    Integer(i64),
    Float(u64),
    BigInteger(String),
}

/// A calendar timestamp in UTC, for values extracted from responses.
#[derive(Clone, Debug, PartialEq)]
pub struct DateValue {
    pub year: u64,
    pub month: u64,
    pub day: u64,
    pub hour: u64,
    pub minute: u64,
    pub second: u64,
    pub microsecond: u64,
}

/// A lossy projection of an HTTP response carried as a value: its status and
/// the redirect target, when there is one.
#[derive(Clone, Debug, PartialEq)]
pub struct HttpResponseData {
    pub status: u64,
    pub location: Option<String>,
}

/// One key/value pair of an object. Keys are not required to be unique;
/// the pairs keep their order.
#[derive(Debug, PartialEq)]
#[verifier::ext_equal]
pub struct ObjectEntry {
    pub key: String,
    pub value: Value,
}

/// The closed union of runtime value shapes.
#[derive(Debug, PartialEq)]
#[verifier::ext_equal]
pub enum Value {
    Bool(bool),
    Bytes(Vec<u8>),
    Date(DateValue),
    HttpResponse(HttpResponseData),
    List(Vec<Value>),
    Nodeset(usize),
    Null,
    Number(Number),
    Object(Vec<ObjectEntry>),
    Regex(String),
    String(String),
    Unit,
}

/// The mathematical model of a number.
#[verifier::ext_equal]
pub enum SpecNumber {
    Integer(int),
    Float(u64),
    BigInteger(Seq<char>),
}

/// The mathematical model of a value: sequences in place of vectors and
/// strings, one constructor per value shape.
#[verifier::ext_equal]
pub enum SpecValue {
    Bool(bool),
    Bytes(Seq<u8>),
    Date(DateValue),
    HttpResponse(u64, Option<Seq<char>>),
    List(Seq<SpecValue>),
    Nodeset(nat),
    Null,
    Number(SpecNumber),
    Object(Seq<(Seq<char>, SpecValue)>),
    Regex(Seq<char>),
    String(Seq<char>),
    Unit,
}

impl View for Number {
    type V = SpecNumber;

    open spec fn view(&self) -> SpecNumber {
        match self {
            Number::Integer(i) => SpecNumber::Integer(*i as int),
            Number::Float(bits) => SpecNumber::Float(*bits),
            Number::BigInteger(s) => SpecNumber::BigInteger(s@),
        }
    }
}

impl Value {
    /// The mathematical model of this value.
    pub open spec fn model(&self) -> SpecValue
        decreases *self,
        via Self::model_dec
    {
        match self {
            Value::Bool(b) => SpecValue::Bool(*b),
            Value::Bytes(b) => SpecValue::Bytes(b@),
            Value::Date(d) => SpecValue::Date(*d),
            Value::HttpResponse(h) => SpecValue::HttpResponse(
                h.status,
                match h.location {
                    Some(l) => Some(l@),
                    None => None,
                },
            ),
            Value::List(items) => SpecValue::List(value_models_of(items@)),
            Value::Nodeset(n) => SpecValue::Nodeset(*n as nat),
            Value::Null => SpecValue::Null,
            Value::Number(n) => SpecValue::Number(n@),
            Value::Object(pairs) => SpecValue::Object(entry_models_of(pairs@)),
            Value::Regex(p) => SpecValue::Regex(p@),
            Value::String(s) => SpecValue::String(s@),
            Value::Unit => SpecValue::Unit,
        }
    }

    #[via_fn]
    proof fn model_dec(&self) {
        match self {
            Value::List(items) => {
                assert(decreases_to!(*self => (*self)->List_0));
                assert(decreases_to!(*items => (*items)@));
            }
            Value::Object(pairs) => {
                assert(decreases_to!(*self => (*self)->Object_0));
                assert(decreases_to!(*pairs => (*pairs)@));
            }
            _ => {}
        }
    }
}

/// The models of a sequence of values, element by element.
pub open spec fn value_models_of(s: Seq<Value>) -> Seq<SpecValue>
    decreases s,
    via value_models_of_dec
{
    if s.len() == 0 {
        Seq::empty()
    } else {
        value_models_of(s.drop_last()).push(s.last().model())
    }
}

#[via_fn]
proof fn value_models_of_dec(s: Seq<Value>) {
    if s.len() > 0 {
        assert(decreases_to!(s => s[s.len() - 1]));
        assert(decreases_to!(s => s.subrange(0, s.len() - 1)));
    }
}

/// The models of a sequence of object entries, element by element.
pub open spec fn entry_models_of(s: Seq<ObjectEntry>) -> Seq<(Seq<char>, SpecValue)>
    decreases s,
    via entry_models_of_dec
{
    if s.len() == 0 {
        Seq::empty()
    } else {
        entry_models_of(s.drop_last()).push((s.last().key@, s.last().value.model()))
    }
}

#[via_fn]
proof fn entry_models_of_dec(s: Seq<ObjectEntry>) {
    if s.len() > 0 {
        assert(decreases_to!(s => s[s.len() - 1]));
        assert(decreases_to!(s[s.len() - 1] => s[s.len() - 1].value));
        assert(decreases_to!(s => s.subrange(0, s.len() - 1)));
    }
}

/// The model of a value sequence is its values' models, index by index.
pub broadcast proof fn lemma_value_models_of(s: Seq<Value>)
    ensures
        (#[trigger] value_models_of(s)).len() == s.len(),
        forall|i: int| 0 <= i < s.len() ==> value_models_of(s)[i] == s[i].model(),
    decreases s.len(),
{
    if s.len() > 0 {
        lemma_value_models_of(s.drop_last());
    }
}

/// The model of an entry sequence is its entries' models, index by index.
pub broadcast proof fn lemma_entry_models_of(s: Seq<ObjectEntry>)
    ensures
        (#[trigger] entry_models_of(s)).len() == s.len(),
        forall|i: int|
            0 <= i < s.len() ==> entry_models_of(s)[i] == (s[i].key@, s[i].value.model()),
    decreases s.len(),
{
    if s.len() > 0 {
        lemma_entry_models_of(s.drop_last());
    }
}

impl View for Value {
    type V = SpecValue;

    open spec fn view(&self) -> SpecValue {
        self.model()
    }
}

/// The display form of a number, used in diagnostics and when a value is
/// rendered into text.
pub open spec fn number_text_spec(n: SpecNumber) -> Seq<char> {
    match n {
        SpecNumber::Integer(i) => i64_text(i),
        SpecNumber::Float(bits) => float_text(bits),
        SpecNumber::BigInteger(s) => s,
    }
}

/// Renders a number as text.
pub fn number_text(n: &Number) -> (r: String)
    ensures
        r@ == number_text_spec(n@),
{
    match n {
        Number::Integer(i) => crate::decimal::i64_to_string(*i),
        Number::Float(bits) => crate::floats::float_to_text(*bits),
        Number::BigInteger(s) => s.clone(),
    }
}

/// The type-tagged representation of a value used in diagnostics, such as
/// `boolean <true>` or `string <abc>`.
pub open spec fn repr_spec(v: SpecValue) -> Seq<char> {
    match v {
        SpecValue::Bool(b) => "boolean <"@ + (if b {
            "true"@
        } else {
            "false"@
        }) + ">"@,
        SpecValue::Bytes(b) => "bytes <size "@ + nat_text(b.len()) + ">"@,
        SpecValue::Date(d) => "date"@,
        SpecValue::HttpResponse(status, location) => "http response <status "@ + nat_text(
            status as nat,
        ) + ">"@,
        SpecValue::List(items) => "list <size "@ + nat_text(items.len()) + ">"@,
        SpecValue::Nodeset(n) => "nodeset <size "@ + nat_text(n) + ">"@,
        SpecValue::Null => "null"@,
        SpecValue::Number(n) => "number <"@ + number_text_spec(n) + ">"@,
        SpecValue::Object(pairs) => "object <size "@ + nat_text(pairs.len()) + ">"@,
        SpecValue::Regex(p) => "regex <"@ + p + ">"@,
        SpecValue::String(s) => "string <"@ + s + ">"@,
        SpecValue::Unit => "unit"@,
    }
}

impl Value {
    /// The type-tagged representation used in diagnostics.
    pub fn repr(&self) -> (r: String)
        ensures
            r@ == repr_spec(self@),
    {
        match self {
            Value::Bool(b) => {
                let mut s = String::from_str("boolean <");
                if *b {
                    s.append("true");
                } else {
                    s.append("false");
                }
                s.append(">");
                s
            }
            Value::Bytes(b) => tagged_size("bytes <size ", b.len()),
            Value::Date(d) => String::from_str("date"),
            Value::HttpResponse(r) => {
                let mut s = String::from_str("http response <status ");
                let digits = crate::decimal::u64_to_string(r.status);
                s.append(digits.as_str());
                s.append(">");
                s
            }
            Value::List(items) => {
                proof {
                    lemma_value_models_of(items@);
                }
                tagged_size("list <size ", items.len())
            }
            Value::Nodeset(n) => tagged_size("nodeset <size ", *n),
            Value::Null => String::from_str("null"),
            Value::Number(n) => {
                let mut s = String::from_str("number <");
                let t = number_text(n);
                s.append(t.as_str());
                s.append(">");
                s
            }
            Value::Object(pairs) => {
                proof {
                    lemma_entry_models_of(pairs@);
                }
                tagged_size("object <size ", pairs.len())
            }
            Value::Regex(p) => {
                let mut s = String::from_str("regex <");
                s.append(p.as_str());
                s.append(">");
                s
            }
            Value::String(inner) => {
                let mut s = String::from_str("string <");
                s.append(inner.as_str());
                s.append(">");
                s
            }
            Value::Unit => String::from_str("unit"),
        }
    }
}

/// Copies a byte vector.
pub fn copy_bytes(b: &Vec<u8>) -> (r: Vec<u8>)
    ensures
        r@ == b@,
{
    let mut out: Vec<u8> = Vec::new();
    let mut i: usize = 0;
    while i < b.len()
        invariant
            i <= b@.len(),
            out@ == b@.take(i as int),
        decreases b@.len() - i,
    {
        out.push(b[i]);
        i = i + 1;
        proof {
            assert(out@ =~= b@.take(i as int));
        }
    }
    proof {
        assert(out@ =~= b@);
    }
    out
}

impl Value {
    /// A deep copy of the value.
    pub fn deep_copy(&self) -> (r: Value)
        ensures
            r@ == self@,
        decreases *self,
    {
        match self {
            Value::Bool(b) => Value::Bool(*b),
            Value::Bytes(b) => Value::Bytes(copy_bytes(b)),
            Value::Date(d) => Value::Date(
                DateValue {
                    year: d.year,
                    month: d.month,
                    day: d.day,
                    hour: d.hour,
                    minute: d.minute,
                    second: d.second,
                    microsecond: d.microsecond,
                },
            ),
            Value::HttpResponse(h) => Value::HttpResponse(
                HttpResponseData {
                    status: h.status,
                    location: match &h.location {
                        Some(l) => Some(l.clone()),
                        None => None,
                    },
                },
            ),
            Value::List(items) => {
                let mut out: Vec<Value> = Vec::new();
                let mut i: usize = 0;
                while i < items.len()
                    invariant
                        (*self) is List,
                        *items == (*self)->List_0,
                        i <= items@.len(),
                        out@.len() == i,
                        forall|j: int| 0 <= j < i ==> #[trigger] out@[j].model() == items@[j].model(),
                    decreases items@.len() - i,
                {
                    proof {
                        assert(decreases_to!(*self => (*self)->List_0));
                        assert(decreases_to!(*items => items[i as int]));
                    }
                    out.push(items[i].deep_copy());
                    i = i + 1;
                }
                proof {
                    lemma_value_models_of(out@);
                    lemma_value_models_of(items@);
                    assert(value_models_of(out@) =~= value_models_of(items@));
                }
                Value::List(out)
            }
            Value::Nodeset(n) => Value::Nodeset(*n),
            Value::Null => Value::Null,
            Value::Number(n) => Value::Number(
                match n {
                    Number::Integer(i) => Number::Integer(*i),
                    Number::Float(bits) => Number::Float(*bits),
                    Number::BigInteger(s) => Number::BigInteger(s.clone()),
                },
            ),
            Value::Object(pairs) => {
                let mut out: Vec<ObjectEntry> = Vec::new();
                let mut i: usize = 0;
                while i < pairs.len()
                    invariant
                        (*self) is Object,
                        *pairs == (*self)->Object_0,
                        i <= pairs@.len(),
                        out@.len() == i,
                        forall|j: int| 0 <= j < i ==> #[trigger] out@[j].key@ == pairs@[j].key@
                            && out@[j].value.model() == pairs@[j].value.model(),
                    decreases pairs@.len() - i,
                {
                    proof {
                        assert(decreases_to!(*self => (*self)->Object_0));
                        assert(decreases_to!(*pairs => pairs[i as int]));
                        assert(decreases_to!(pairs[i as int] => pairs[i as int].value));
                    }
                    let copied = ObjectEntry {
                        key: pairs[i].key.clone(),
                        value: pairs[i].value.deep_copy(),
                    };
                    out.push(copied);
                    i = i + 1;
                }
                proof {
                    lemma_entry_models_of(out@);
                    lemma_entry_models_of(pairs@);
                    assert(entry_models_of(out@) =~= entry_models_of(pairs@));
                }
                Value::Object(out)
            }
            Value::Regex(p) => Value::Regex(p.clone()),
            Value::String(s) => Value::String(s.clone()),
            Value::Unit => Value::Unit,
        }
    }
}

/// Builds `tag` followed by a decimal size and a closing bracket.
fn tagged_size(tag: &str, n: usize) -> (r: String)
    ensures
        r@ == tag@ + nat_text(n as nat) + ">"@,
{
    let mut s = String::from_str(tag);
    let digits = crate::decimal::u64_to_string(n as u64);
    s.append(digits.as_str());
    s.append(">");
    s
}

} // verus!
