//! The script-side value model and the conversion table in both directions.
//!
//! A script value is what the embedded engine can hold: undefined, null,
//! booleans, 64-bit float numbers (kept as bit patterns), strings, arrays,
//! byte arrays, and objects. The conversion table is total in both
//! directions, including its deliberate asymmetries: dates and regexes go out
//! as strings and come back as strings; undefined comes back as null; a
//! number that denotes an exact 64-bit integer comes back as an integer.

use vstd::prelude::*;

use crate::decimal::{nat_text, spec_parse_f64};
use crate::floats::{float_as_exact_i64, float_of_i64};
use crate::text::push_char;
use crate::value::{
    entry_models_of, lemma_entry_models_of, lemma_value_models_of, value_models_of, DateValue,
    Number, ObjectEntry, SpecNumber, SpecValue, Value,
};

verus! {

broadcast use vstd::std_specs::vec::group_vec_axioms;

/// One key/value pair of a script object, in insertion order.
#[derive(Debug, PartialEq)]
#[verifier::ext_equal]
pub struct ScriptEntry {
    pub key: String,
    pub value: ScriptValue,
}

/// A value as the script engine holds it.
#[derive(Debug, PartialEq)]
#[verifier::ext_equal]
pub enum ScriptValue {
    Array(Vec<ScriptValue>),
    Bool(bool),
    Bytes(Vec<u8>),
    Null,
    Number(u64),
    Object(Vec<ScriptEntry>),
    String(String),
    Undefined,
}

/// The mathematical model of a script value.
#[verifier::ext_equal]
pub enum SpecScript {
    Array(Seq<SpecScript>),
    Bool(bool),
    Bytes(Seq<u8>),
    Null,
    Number(u64),
    Object(Seq<(Seq<char>, SpecScript)>),
    String(Seq<char>),
    Undefined,
}

impl ScriptValue {
    /// The mathematical model of this script value.
    pub open spec fn model(&self) -> SpecScript
        decreases *self,
        via Self::model_dec
    {
        match self {
            ScriptValue::Array(items) => SpecScript::Array(script_models_of(items@)),
            ScriptValue::Bool(b) => SpecScript::Bool(*b),
            ScriptValue::Bytes(b) => SpecScript::Bytes(b@),
            ScriptValue::Null => SpecScript::Null,
            ScriptValue::Number(bits) => SpecScript::Number(*bits),
            ScriptValue::Object(pairs) => SpecScript::Object(script_entry_models_of(pairs@)),
            ScriptValue::String(s) => SpecScript::String(s@),
            ScriptValue::Undefined => SpecScript::Undefined,
        }
    }

    #[via_fn]
    proof fn model_dec(&self) {
        match self {
            ScriptValue::Array(items) => {
                assert(decreases_to!(*self => (*self)->Array_0));
                assert(decreases_to!(*items => (*items)@));
            }
            ScriptValue::Object(pairs) => {
                assert(decreases_to!(*self => (*self)->Object_0));
                assert(decreases_to!(*pairs => (*pairs)@));
            }
            _ => {}
        }
    }
}

impl View for ScriptValue {
    type V = SpecScript;

    open spec fn view(&self) -> SpecScript {
        self.model()
    }
}

/// The models of a sequence of script values, element by element.
pub open spec fn script_models_of(s: Seq<ScriptValue>) -> Seq<SpecScript>
    decreases s,
    via script_models_of_dec
{
    if s.len() == 0 {
        Seq::empty()
    } else {
        script_models_of(s.drop_last()).push(s.last().model())
    }
}

#[via_fn]
proof fn script_models_of_dec(s: Seq<ScriptValue>) {
    if s.len() > 0 {
        assert(decreases_to!(s => s[s.len() - 1]));
        assert(decreases_to!(s => s.subrange(0, s.len() - 1)));
    }
}

/// The models of a sequence of script entries, element by element.
pub open spec fn script_entry_models_of(s: Seq<ScriptEntry>) -> Seq<(Seq<char>, SpecScript)>
    decreases s,
    via script_entry_models_of_dec
{
    if s.len() == 0 {
        Seq::empty()
    } else {
        script_entry_models_of(s.drop_last()).push((s.last().key@, s.last().value.model()))
    }
}

#[via_fn]
proof fn script_entry_models_of_dec(s: Seq<ScriptEntry>) {
    if s.len() > 0 {
        assert(decreases_to!(s => s[s.len() - 1]));
        assert(decreases_to!(s[s.len() - 1] => s[s.len() - 1].value));
        assert(decreases_to!(s => s.subrange(0, s.len() - 1)));
    }
}

/// The model of a script value sequence, index by index.
pub proof fn lemma_script_models_of(s: Seq<ScriptValue>)
    ensures
        script_models_of(s).len() == s.len(),
        forall|i: int| 0 <= i < s.len() ==> script_models_of(s)[i] == s[i].model(),
    decreases s.len(),
{
    if s.len() > 0 {
        lemma_script_models_of(s.drop_last());
    }
}

/// The model of a script entry sequence, index by index.
pub proof fn lemma_script_entry_models_of(s: Seq<ScriptEntry>)
    ensures
        script_entry_models_of(s).len() == s.len(),
        forall|i: int|
            0 <= i < s.len() ==> script_entry_models_of(s)[i] == (
                s[i].key@,
                s[i].value.model(),
            ),
    decreases s.len(),
{
    if s.len() > 0 {
        lemma_script_entry_models_of(s.drop_last());
    }
}

/// Zero-padded decimal text, two digits wide.
pub open spec fn pad2_text(n: nat) -> Seq<char> {
    if n < 10 {
        "0"@ + nat_text(n)
    } else {
        nat_text(n)
    }
}

/// Zero-padded decimal text, four digits wide.
pub open spec fn pad4_text(n: nat) -> Seq<char> {
    if n < 10 {
        "000"@ + nat_text(n)
    } else if n < 100 {
        "00"@ + nat_text(n)
    } else if n < 1000 {
        "0"@ + nat_text(n)
    } else {
        nat_text(n)
    }
}

/// Zero-padded decimal text, six digits wide.
pub open spec fn pad6_text(n: nat) -> Seq<char> {
    if n < 10 {
        "00000"@ + nat_text(n)
    } else if n < 100 {
        "0000"@ + nat_text(n)
    } else if n < 1000 {
        "000"@ + nat_text(n)
    } else if n < 10000 {
        "00"@ + nat_text(n)
    } else if n < 100000 {
        "0"@ + nat_text(n)
    } else {
        nat_text(n)
    }
}

/// The ISO-8601 text of a timestamp, UTC offset spelled `+00:00`, with a
/// fractional part only when the microseconds are not zero.
pub open spec fn date_iso_text(d: DateValue) -> Seq<char> {
    pad4_text(d.year as nat) + "-"@ + pad2_text(d.month as nat) + "-"@ + pad2_text(d.day as nat)
        + "T"@ + pad2_text(d.hour as nat) + ":"@ + pad2_text(d.minute as nat) + ":"@ + pad2_text(
        d.second as nat,
    ) + (if d.microsecond > 0 {
        "."@ + pad6_text(d.microsecond as nat)
    } else {
        Seq::<char>::empty()
    }) + "+00:00"@
}

/// What a number becomes on the script side: integers as the nearest double,
/// oversized integer text as a double when it parses, else as a string.
pub open spec fn number_to_script_spec(n: SpecNumber) -> SpecScript {
    match n {
        SpecNumber::Integer(i) => SpecScript::Number(float_of_i64(i as i64)),
        SpecNumber::Float(bits) => SpecScript::Number(bits),
        SpecNumber::BigInteger(s) => match spec_parse_f64(s) {
            Some(bits) => SpecScript::Number(bits),
            None => SpecScript::String(s),
        },
    }
}

/// The host-to-script half of the conversion table.
pub open spec fn to_script_spec(v: SpecValue) -> SpecScript
    decreases v,
    via to_script_spec_dec
{
    match v {
        SpecValue::Bool(b) => SpecScript::Bool(b),
        SpecValue::Null => SpecScript::Null,
        SpecValue::Number(n) => number_to_script_spec(n),
        SpecValue::String(s) => SpecScript::String(s),
        SpecValue::List(items) => SpecScript::Array(to_script_list(items)),
        SpecValue::Object(pairs) => SpecScript::Object(to_script_entries(pairs)),
        SpecValue::Bytes(b) => SpecScript::Bytes(b),
        SpecValue::Date(d) => SpecScript::String(date_iso_text(d)),
        SpecValue::Unit => SpecScript::Undefined,
        SpecValue::Regex(p) => SpecScript::String(p),
        SpecValue::Nodeset(n) => SpecScript::Number(float_of_i64(n as i32 as i64)),
        SpecValue::HttpResponse(status, location) => SpecScript::Object(
            match location {
                Some(l) => seq![
                    ("status"@, SpecScript::Number(float_of_i64(status as i32 as i64))),
                    ("location"@, SpecScript::String(l)),
                ],
                None => seq![
                    ("status"@, SpecScript::Number(float_of_i64(status as i32 as i64))),
                ],
            },
        ),
    }
}

#[via_fn]
proof fn to_script_spec_dec(v: SpecValue) {
    match v {
        SpecValue::List(items) => {
            assert(decreases_to!(v => v->List_0));
        }
        SpecValue::Object(pairs) => {
            assert(decreases_to!(v => v->Object_0));
        }
        _ => {}
    }
}

/// The host-to-script conversion of a sequence of values.
pub open spec fn to_script_list(s: Seq<SpecValue>) -> Seq<SpecScript>
    decreases s,
    via to_script_list_dec
{
    if s.len() == 0 {
        Seq::empty()
    } else {
        to_script_list(s.drop_last()).push(to_script_spec(s.last()))
    }
}

#[via_fn]
proof fn to_script_list_dec(s: Seq<SpecValue>) {
    if s.len() > 0 {
        assert(decreases_to!(s => s[s.len() - 1]));
        assert(decreases_to!(s => s.subrange(0, s.len() - 1)));
    }
}

/// The host-to-script conversion of object entries, keys kept in order.
pub open spec fn to_script_entries(s: Seq<(Seq<char>, SpecValue)>) -> Seq<(Seq<char>, SpecScript)>
    decreases s,
    via to_script_entries_dec
{
    if s.len() == 0 {
        Seq::empty()
    } else {
        to_script_entries(s.drop_last()).push((s.last().0, to_script_spec(s.last().1)))
    }
}

#[via_fn]
proof fn to_script_entries_dec(s: Seq<(Seq<char>, SpecValue)>) {
    if s.len() > 0 {
        assert(decreases_to!(s => s[s.len() - 1]));
        assert(decreases_to!(s[s.len() - 1] => s[s.len() - 1].1));
        assert(decreases_to!(s => s.subrange(0, s.len() - 1)));
    }
}

/// What a script number becomes on the host side: an integer when it denotes
/// one exactly within the signed 64-bit range, else a float.
pub open spec fn script_number_to_value_spec(bits: u64) -> SpecValue {
    match float_as_exact_i64(bits) {
        Some(i) => SpecValue::Number(SpecNumber::Integer(i as int)),
        None => SpecValue::Number(SpecNumber::Float(bits)),
    }
}

/// The script-to-host half of the conversion table. Undefined and null both
/// come back as null; strings never reconstruct dates or regexes.
pub open spec fn to_value_spec(s: SpecScript) -> SpecValue
    decreases s,
    via to_value_spec_dec
{
    match s {
        SpecScript::Undefined => SpecValue::Null,
        SpecScript::Null => SpecValue::Null,
        SpecScript::Bool(b) => SpecValue::Bool(b),
        SpecScript::Number(bits) => script_number_to_value_spec(bits),
        SpecScript::String(t) => SpecValue::String(t),
        SpecScript::Array(items) => SpecValue::List(to_value_list(items)),
        SpecScript::Bytes(b) => SpecValue::Bytes(b),
        SpecScript::Object(pairs) => SpecValue::Object(to_value_entries(pairs)),
    }
}

#[via_fn]
proof fn to_value_spec_dec(s: SpecScript) {
    match s {
        SpecScript::Array(items) => {
            assert(decreases_to!(s => s->Array_0));
        }
        SpecScript::Object(pairs) => {
            assert(decreases_to!(s => s->Object_0));
        }
        _ => {}
    }
}

/// The script-to-host conversion of a sequence of script values.
pub open spec fn to_value_list(s: Seq<SpecScript>) -> Seq<SpecValue>
    decreases s,
    via to_value_list_dec
{
    if s.len() == 0 {
        Seq::empty()
    } else {
        to_value_list(s.drop_last()).push(to_value_spec(s.last()))
    }
}

#[via_fn]
proof fn to_value_list_dec(s: Seq<SpecScript>) {
    if s.len() > 0 {
        assert(decreases_to!(s => s[s.len() - 1]));
        assert(decreases_to!(s => s.subrange(0, s.len() - 1)));
    }
}

/// The script-to-host conversion of object entries, order kept.
pub open spec fn to_value_entries(s: Seq<(Seq<char>, SpecScript)>) -> Seq<(Seq<char>, SpecValue)>
    decreases s,
    via to_value_entries_dec
{
    if s.len() == 0 {
        Seq::empty()
    } else {
        to_value_entries(s.drop_last()).push((s.last().0, to_value_spec(s.last().1)))
    }
}

#[via_fn]
proof fn to_value_entries_dec(s: Seq<(Seq<char>, SpecScript)>) {
    if s.len() > 0 {
        assert(decreases_to!(s => s[s.len() - 1]));
        assert(decreases_to!(s[s.len() - 1] => s[s.len() - 1].1));
        assert(decreases_to!(s => s.subrange(0, s.len() - 1)));
    }
}

/// The host-to-script list conversion, index by index.
pub proof fn lemma_to_script_list(s: Seq<SpecValue>)
    ensures
        to_script_list(s).len() == s.len(),
        forall|i: int| 0 <= i < s.len() ==> to_script_list(s)[i] == to_script_spec(s[i]),
    decreases s.len(),
{
    if s.len() > 0 {
        lemma_to_script_list(s.drop_last());
    }
}

/// The host-to-script entry conversion, index by index.
pub proof fn lemma_to_script_entries(s: Seq<(Seq<char>, SpecValue)>)
    ensures
        to_script_entries(s).len() == s.len(),
        forall|i: int|
            0 <= i < s.len() ==> to_script_entries(s)[i] == (s[i].0, to_script_spec(s[i].1)),
    decreases s.len(),
{
    if s.len() > 0 {
        lemma_to_script_entries(s.drop_last());
    }
}

/// The script-to-host list conversion, index by index.
pub proof fn lemma_to_value_list(s: Seq<SpecScript>)
    ensures
        to_value_list(s).len() == s.len(),
        forall|i: int| 0 <= i < s.len() ==> to_value_list(s)[i] == to_value_spec(s[i]),
    decreases s.len(),
{
    if s.len() > 0 {
        lemma_to_value_list(s.drop_last());
    }
}

/// The script-to-host entry conversion, index by index.
pub proof fn lemma_to_value_entries(s: Seq<(Seq<char>, SpecScript)>)
    ensures
        to_value_entries(s).len() == s.len(),
        forall|i: int|
            0 <= i < s.len() ==> to_value_entries(s)[i] == (s[i].0, to_value_spec(s[i].1)),
    decreases s.len(),
{
    if s.len() > 0 {
        lemma_to_value_entries(s.drop_last());
    }
}

/// The float-integer exactness fact for one integer: within 2^53, converting
/// to the nearest double and back is exact. The conversion functions witness
/// this for every integer they touch, so their callers can rely on it.
pub open spec fn int_witness(i: int) -> bool {
    -0x20_0000_0000_0000 <= i <= 0x20_0000_0000_0000 ==> float_as_exact_i64(
        float_of_i64(i as i64),
    ) == Some(i as i64)
}

/// The exactness facts for every integer inside a value.
pub open spec fn int_facts(v: SpecValue) -> bool
    decreases v,
    via int_facts_dec
{
    match v {
        SpecValue::Number(n) => match n {
            SpecNumber::Integer(i) => int_witness(i),
            _ => true,
        },
        SpecValue::List(items) => int_facts_list(items),
        SpecValue::Object(pairs) => int_facts_entries(pairs),
        _ => true,
    }
}

#[via_fn]
proof fn int_facts_dec(v: SpecValue) {
    match v {
        SpecValue::List(items) => {
            assert(decreases_to!(v => v->List_0));
        }
        SpecValue::Object(pairs) => {
            assert(decreases_to!(v => v->Object_0));
        }
        _ => {}
    }
}

pub open spec fn int_facts_list(s: Seq<SpecValue>) -> bool
    decreases s,
    via int_facts_list_dec
{
    if s.len() == 0 {
        true
    } else {
        int_facts_list(s.drop_last()) && int_facts(s.last())
    }
}

#[via_fn]
proof fn int_facts_list_dec(s: Seq<SpecValue>) {
    if s.len() > 0 {
        assert(decreases_to!(s => s[s.len() - 1]));
        assert(decreases_to!(s => s.subrange(0, s.len() - 1)));
    }
}

pub open spec fn int_facts_entries(s: Seq<(Seq<char>, SpecValue)>) -> bool
    decreases s,
    via int_facts_entries_dec
{
    if s.len() == 0 {
        true
    } else {
        int_facts_entries(s.drop_last()) && int_facts(s.last().1)
    }
}

#[via_fn]
proof fn int_facts_entries_dec(s: Seq<(Seq<char>, SpecValue)>) {
    if s.len() > 0 {
        assert(decreases_to!(s => s[s.len() - 1]));
        assert(decreases_to!(s[s.len() - 1] => s[s.len() - 1].1));
        assert(decreases_to!(s => s.subrange(0, s.len() - 1)));
    }
}

/// The list facts hold exactly when they hold of each element.
pub proof fn lemma_int_facts_list(s: Seq<SpecValue>)
    ensures
        int_facts_list(s) <==> (forall|i: int| 0 <= i < s.len() ==> int_facts(#[trigger] s[i])),
    decreases s.len(),
{
    if s.len() > 0 {
        lemma_int_facts_list(s.drop_last());
        assert(forall|i: int| 0 <= i < s.len() - 1 ==> s.drop_last()[i] == #[trigger] s[i]);
    }
}

/// The entry facts hold exactly when they hold of each entry's value.
pub proof fn lemma_int_facts_entries(s: Seq<(Seq<char>, SpecValue)>)
    ensures
        int_facts_entries(s) <==> (forall|i: int|
            0 <= i < s.len() ==> int_facts(#[trigger] s[i].1)),
    decreases s.len(),
{
    if s.len() > 0 {
        lemma_int_facts_entries(s.drop_last());
        assert(forall|i: int| 0 <= i < s.len() - 1 ==> s.drop_last()[i] == #[trigger] s[i]);
    }
}

/// The values whose trip to the script side and back is exactly the
/// identity: booleans, null, integers within 2^53, floats that denote no
/// exact integer, strings, byte arrays, and lists of such values. Dates,
/// regexes, unit and the other shapes are deliberately lossy.
pub open spec fn round_trip_exact(v: SpecValue) -> bool
    decreases v,
    via round_trip_exact_dec
{
    match v {
        SpecValue::Bool(b) => true,
        SpecValue::Null => true,
        SpecValue::String(s) => true,
        SpecValue::Bytes(b) => true,
        SpecValue::Number(n) => match n {
            SpecNumber::Integer(i) => -0x20_0000_0000_0000 <= i <= 0x20_0000_0000_0000,
            SpecNumber::Float(bits) => float_as_exact_i64(bits) is None,
            SpecNumber::BigInteger(s) => false,
        },
        SpecValue::List(items) => round_trip_exact_list(items),
        _ => false,
    }
}

#[via_fn]
proof fn round_trip_exact_dec(v: SpecValue) {
    match v {
        SpecValue::List(items) => {
            assert(decreases_to!(v => v->List_0));
        }
        _ => {}
    }
}

pub open spec fn round_trip_exact_list(s: Seq<SpecValue>) -> bool
    decreases s,
    via round_trip_exact_list_dec
{
    if s.len() == 0 {
        true
    } else {
        round_trip_exact_list(s.drop_last()) && round_trip_exact(s.last())
    }
}

#[via_fn]
proof fn round_trip_exact_list_dec(s: Seq<SpecValue>) {
    if s.len() > 0 {
        assert(decreases_to!(s => s[s.len() - 1]));
        assert(decreases_to!(s => s.subrange(0, s.len() - 1)));
    }
}

/// Converting a round-trip-exact value to the script side and back is the
/// identity. The float-integer exactness facts are supplied by
/// `value_to_script`, which witnesses them for every integer it converts.
pub proof fn lemma_bridge_round_trip(v: SpecValue)
    requires
        round_trip_exact(v),
        int_facts(v),
    ensures
        to_value_spec(to_script_spec(v)) == v,
    decreases v,
{
    match v {
        SpecValue::List(items) => {
            assert(decreases_to!(v => v->List_0));
            lemma_bridge_round_trip_list(items);
            assert(to_value_list(to_script_list(items)) =~= items);
        }
        _ => {}
    }
}

pub proof fn lemma_bridge_round_trip_list(s: Seq<SpecValue>)
    requires
        round_trip_exact_list(s),
        int_facts_list(s),
    ensures
        to_value_list(to_script_list(s)) =~= s,
    decreases s,
{
    if s.len() > 0 {
        assert(decreases_to!(s => s.subrange(0, s.len() - 1)));
        assert(decreases_to!(s => s[s.len() - 1]));
        lemma_bridge_round_trip_list(s.drop_last());
        lemma_bridge_round_trip(s.last());
        let mapped = to_script_list(s);
        assert(mapped == to_script_list(s.drop_last()).push(to_script_spec(s.last())));
        assert(mapped.drop_last() =~= to_script_list(s.drop_last()));
        assert(mapped.last() == to_script_spec(s.last()));
        assert(mapped.len() > 0);
        assert(to_value_list(mapped) == to_value_list(mapped.drop_last()).push(
            to_value_spec(mapped.last()),
        ));
        assert(to_value_list(mapped) =~= s);
    } else {
        assert(to_value_list(to_script_list(s)) =~= s);
    }
}

/// A date is not identity-preserving: it comes back as its ISO-8601 string.
pub proof fn lemma_date_round_trip_is_text(d: DateValue)
    ensures
        to_value_spec(to_script_spec(SpecValue::Date(d))) == SpecValue::String(date_iso_text(d)),
{
}

/// A regex is not identity-preserving: it comes back as its pattern string.
pub proof fn lemma_regex_round_trip_is_text(p: Seq<char>)
    ensures
        to_value_spec(to_script_spec(SpecValue::Regex(p))) == SpecValue::String(p),
{
}

/// Unit goes out as undefined and comes back as null.
pub proof fn lemma_unit_round_trip_is_null()
    ensures
        to_value_spec(to_script_spec(SpecValue::Unit)) == SpecValue::Null,
{
}

/// Zero-pads to two digits.
fn pad2(n: u64) -> (r: String)
    ensures
        r@ == pad2_text(n as nat),
{
    if n < 10 {
        let mut s = String::from_str("0");
        let digits = crate::decimal::u64_to_string(n);
        s.append(digits.as_str());
        s
    } else {
        crate::decimal::u64_to_string(n)
    }
}

/// Zero-pads to four digits.
fn pad4(n: u64) -> (r: String)
    ensures
        r@ == pad4_text(n as nat),
{
    if n < 10 {
        let mut s = String::from_str("000");
        let digits = crate::decimal::u64_to_string(n);
        s.append(digits.as_str());
        s
    } else if n < 100 {
        let mut s = String::from_str("00");
        let digits = crate::decimal::u64_to_string(n);
        s.append(digits.as_str());
        s
    } else if n < 1000 {
        let mut s = String::from_str("0");
        let digits = crate::decimal::u64_to_string(n);
        s.append(digits.as_str());
        s
    } else {
        crate::decimal::u64_to_string(n)
    }
}

/// Zero-pads to six digits.
fn pad6(n: u64) -> (r: String)
    ensures
        r@ == pad6_text(n as nat),
{
    let digits = crate::decimal::u64_to_string(n);
    let mut s = if n < 10 {
        String::from_str("00000")
    } else if n < 100 {
        String::from_str("0000")
    } else if n < 1000 {
        String::from_str("000")
    } else if n < 10000 {
        String::from_str("00")
    } else if n < 100000 {
        String::from_str("0")
    } else {
        String::new()
    };
    s.append(digits.as_str());
    proof {
        if n >= 100000 {
            assert(s@ =~= pad6_text(n as nat));
        }
    }
    s
}

/// Renders a timestamp as ISO-8601 text.
pub fn date_iso(d: &DateValue) -> (r: String)
    ensures
        r@ == date_iso_text(*d),
{
    let mut s = pad4(d.year);
    s.append("-");
    let part = pad2(d.month);
    s.append(part.as_str());
    s.append("-");
    let part = pad2(d.day);
    s.append(part.as_str());
    s.append("T");
    let part = pad2(d.hour);
    s.append(part.as_str());
    s.append(":");
    let part = pad2(d.minute);
    s.append(part.as_str());
    s.append(":");
    let part = pad2(d.second);
    s.append(part.as_str());
    if d.microsecond > 0 {
        s.append(".");
        let part = pad6(d.microsecond);
        s.append(part.as_str());
    }
    s.append("+00:00");
    proof {
        assert(s@ =~= date_iso_text(*d));
    }
    s
}

/// Converts a number for the script side: integers become the nearest
/// double; an oversized integer text becomes a double when it parses as one,
/// else a string.
fn number_to_script(n: &Number) -> (r: ScriptValue)
    ensures
        r@ == number_to_script_spec(n@),
        n@ matches SpecNumber::Integer(i) ==> int_witness(i),
{
    match n {
        Number::Integer(i) => ScriptValue::Number(crate::floats::float_from_i64(*i)),
        Number::Float(bits) => ScriptValue::Number(*bits),
        Number::BigInteger(s) => match crate::decimal::parse_f64_str(s.as_str()) {
            Some(bits) => ScriptValue::Number(bits),
            None => ScriptValue::String(s.clone()),
        },
    }
}

/// The host-to-script conversion: total over every value shape, per the
/// table. Beside its result it witnesses, for every integer it converted,
/// that the double round-trips exactly when the integer is within 2^53.
pub fn value_to_script(v: &Value) -> (r: ScriptValue)
    ensures
        r@ == to_script_spec(v@),
        int_facts(v@),
    decreases *v,
{
    match v {
        Value::Bool(b) => ScriptValue::Bool(*b),
        Value::Null => ScriptValue::Null,
        Value::Number(n) => number_to_script(n),
        Value::String(s) => ScriptValue::String(s.clone()),
        Value::List(items) => {
            let mut out: Vec<ScriptValue> = Vec::new();
            let mut i: usize = 0;
            while i < items.len()
                invariant
                    (*v) is List,
                    *items == (*v)->List_0,
                    i <= items@.len(),
                    out@.len() == i,
                    forall|j: int|
                        0 <= j < i ==> #[trigger] out@[j].model() == to_script_spec(
                            items@[j].model(),
                        ),
                    forall|j: int| 0 <= j < i ==> int_facts(#[trigger] items@[j].model()),
                decreases items@.len() - i,
            {
                proof {
                    assert(decreases_to!(*v => (*v)->List_0));
                    assert(decreases_to!(*items => items[i as int]));
                }
                out.push(value_to_script(&items[i]));
                i = i + 1;
            }
            proof {
                lemma_value_models_of(items@);
                lemma_script_models_of(out@);
                lemma_to_script_list(value_models_of(items@));
                assert(script_models_of(out@) =~= to_script_list(value_models_of(items@)));
                lemma_int_facts_list(value_models_of(items@));
            }
            ScriptValue::Array(out)
        }
        Value::Object(pairs) => {
            let mut out: Vec<ScriptEntry> = Vec::new();
            let mut i: usize = 0;
            while i < pairs.len()
                invariant
                    (*v) is Object,
                    *pairs == (*v)->Object_0,
                    i <= pairs@.len(),
                    out@.len() == i,
                    forall|j: int|
                        0 <= j < i ==> #[trigger] out@[j].key@ == pairs@[j].key@
                            && out@[j].value.model() == to_script_spec(pairs@[j].value.model()),
                    forall|j: int| 0 <= j < i ==> int_facts(#[trigger] pairs@[j].value.model()),
                decreases pairs@.len() - i,
            {
                proof {
                    assert(decreases_to!(*v => (*v)->Object_0));
                    assert(decreases_to!(*pairs => pairs[i as int]));
                    assert(decreases_to!(pairs[i as int] => pairs[i as int].value));
                }
                let entry = ScriptEntry {
                    key: pairs[i].key.clone(),
                    value: value_to_script(&pairs[i].value),
                };
                out.push(entry);
                i = i + 1;
            }
            proof {
                lemma_entry_models_of(pairs@);
                lemma_script_entry_models_of(out@);
                lemma_to_script_entries(entry_models_of(pairs@));
                assert(script_entry_models_of(out@) =~= to_script_entries(
                    entry_models_of(pairs@),
                ));
                lemma_int_facts_entries(entry_models_of(pairs@));
            }
            ScriptValue::Object(out)
        }
        Value::Bytes(b) => ScriptValue::Bytes(crate::value::copy_bytes(b)),
        Value::Date(d) => ScriptValue::String(date_iso(d)),
        Value::Unit => ScriptValue::Undefined,
        Value::Regex(p) => ScriptValue::String(p.clone()),
        Value::Nodeset(n) => ScriptValue::Number(
            crate::floats::float_from_i64((#[verifier::truncate] (*n as i32)) as i64),
        ),
        Value::HttpResponse(h) => {
            let mut out: Vec<ScriptEntry> = Vec::new();
            out.push(
                ScriptEntry {
                    key: String::from_str("status"),
                    value: ScriptValue::Number(
                        crate::floats::float_from_i64(
                            (#[verifier::truncate] (h.status as i32)) as i64,
                        ),
                    ),
                },
            );
            match &h.location {
                Some(l) => {
                    out.push(
                        ScriptEntry {
                            key: String::from_str("location"),
                            value: ScriptValue::String(l.clone()),
                        },
                    );
                }
                None => {}
            }
            proof {
                lemma_script_entry_models_of(out@);
                assert(script_entry_models_of(out@) =~= to_script_spec(v@)->Object_0);
            }
            ScriptValue::Object(out)
        }
    }
}

/// The script-to-host conversion: total over every script value shape, per
/// the table.
pub fn script_to_value(s: &ScriptValue) -> (r: Value)
    ensures
        r@ == to_value_spec(s@),
    decreases *s,
{
    match s {
        ScriptValue::Undefined => Value::Null,
        ScriptValue::Null => Value::Null,
        ScriptValue::Bool(b) => Value::Bool(*b),
        ScriptValue::Number(bits) => match crate::floats::float_to_exact_i64(*bits) {
            Some(i) => Value::Number(Number::Integer(i)),
            None => Value::Number(Number::Float(*bits)),
        },
        ScriptValue::String(t) => Value::String(t.clone()),
        ScriptValue::Bytes(b) => Value::Bytes(crate::value::copy_bytes(b)),
        ScriptValue::Array(items) => {
            let mut out: Vec<Value> = Vec::new();
            let mut i: usize = 0;
            while i < items.len()
                invariant
                    (*s) is Array,
                    *items == (*s)->Array_0,
                    i <= items@.len(),
                    out@.len() == i,
                    forall|j: int|
                        0 <= j < i ==> #[trigger] out@[j].model() == to_value_spec(
                            items@[j].model(),
                        ),
                decreases items@.len() - i,
            {
                proof {
                    assert(decreases_to!(*s => (*s)->Array_0));
                    assert(decreases_to!(*items => items[i as int]));
                }
                out.push(script_to_value(&items[i]));
                i = i + 1;
            }
            proof {
                lemma_script_models_of(items@);
                lemma_value_models_of(out@);
                lemma_to_value_list(script_models_of(items@));
                assert(value_models_of(out@) =~= to_value_list(script_models_of(items@)));
            }
            Value::List(out)
        }
        ScriptValue::Object(pairs) => {
            let mut out: Vec<ObjectEntry> = Vec::new();
            let mut i: usize = 0;
            while i < pairs.len()
                invariant
                    (*s) is Object,
                    *pairs == (*s)->Object_0,
                    i <= pairs@.len(),
                    out@.len() == i,
                    forall|j: int|
                        0 <= j < i ==> #[trigger] out@[j].key@ == pairs@[j].key@
                            && out@[j].value.model() == to_value_spec(pairs@[j].value.model()),
                decreases pairs@.len() - i,
            {
                proof {
                    assert(decreases_to!(*s => (*s)->Object_0));
                    assert(decreases_to!(*pairs => pairs[i as int]));
                    assert(decreases_to!(pairs[i as int] => pairs[i as int].value));
                }
                let entry = ObjectEntry {
                    key: pairs[i].key.clone(),
                    value: script_to_value(&pairs[i].value),
                };
                out.push(entry);
                i = i + 1;
            }
            proof {
                lemma_script_entry_models_of(pairs@);
                lemma_entry_models_of(out@);
                lemma_to_value_entries(script_entry_models_of(pairs@));
                assert(entry_models_of(out@) =~= to_value_entries(
                    script_entry_models_of(pairs@),
                ));
            }
            Value::Object(out)
        }
    }
}

} // verus!
