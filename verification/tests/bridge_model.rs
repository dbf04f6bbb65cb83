use hurl_filters::bridge::JsResponse;
use hurl_filters::script_value::{script_to_value, value_to_script, ScriptEntry, ScriptValue};
use hurl_filters::value::{DateValue, Number, ObjectEntry, Value};

fn round_trip(v: &Value) -> Value {
    script_to_value(&value_to_script(v))
}

#[test]
fn test_value_to_script_primitives() {
    assert_eq!(value_to_script(&Value::Bool(true)), ScriptValue::Bool(true));
    assert_eq!(value_to_script(&Value::Null), ScriptValue::Null);
    assert_eq!(
        value_to_script(&Value::Number(Number::Integer(42))),
        ScriptValue::Number((42.0f64).to_bits())
    );
    assert_eq!(
        value_to_script(&Value::Number(Number::Float((3.14f64).to_bits()))),
        ScriptValue::Number((3.14f64).to_bits())
    );
    assert_eq!(
        value_to_script(&Value::String("hello".to_string())),
        ScriptValue::String("hello".to_string())
    );
    assert_eq!(value_to_script(&Value::Unit), ScriptValue::Undefined);
}

#[test]
fn test_script_to_value_primitives() {
    assert_eq!(script_to_value(&ScriptValue::Bool(true)), Value::Bool(true));
    assert_eq!(script_to_value(&ScriptValue::Null), Value::Null);
    assert_eq!(script_to_value(&ScriptValue::Undefined), Value::Null);
    assert_eq!(
        script_to_value(&ScriptValue::Number((42.0f64).to_bits())),
        Value::Number(Number::Integer(42))
    );
    assert_eq!(
        script_to_value(&ScriptValue::Number((3.14f64).to_bits())),
        Value::Number(Number::Float((3.14f64).to_bits()))
    );
    assert_eq!(
        script_to_value(&ScriptValue::String("hello".to_string())),
        Value::String("hello".to_string())
    );
}

#[test]
fn test_round_trip_identity() {
    assert_eq!(round_trip(&Value::Bool(false)), Value::Bool(false));
    assert_eq!(round_trip(&Value::Null), Value::Null);
    assert_eq!(
        round_trip(&Value::Number(Number::Integer(123456789))),
        Value::Number(Number::Integer(123456789))
    );
    assert_eq!(
        round_trip(&Value::Number(Number::Float((10.5f64).to_bits()))),
        Value::Number(Number::Float((10.5f64).to_bits()))
    );
    assert_eq!(
        round_trip(&Value::String("text".to_string())),
        Value::String("text".to_string())
    );
    assert_eq!(
        round_trip(&Value::Bytes(vec![1, 2, 3])),
        Value::Bytes(vec![1, 2, 3])
    );
    let list = Value::List(vec![
        Value::Bool(true),
        Value::Number(Number::Integer(7)),
        Value::List(vec![Value::String("nested".to_string())]),
    ]);
    let expected = Value::List(vec![
        Value::Bool(true),
        Value::Number(Number::Integer(7)),
        Value::List(vec![Value::String("nested".to_string())]),
    ]);
    assert_eq!(round_trip(&list), expected);
}

#[test]
fn test_round_trip_integral_float_becomes_integer() {
    // A float with no fractional part comes back as an integer: identity
    // does not hold for it.
    assert_eq!(
        round_trip(&Value::Number(Number::Float((5.0f64).to_bits()))),
        Value::Number(Number::Integer(5))
    );
}

#[test]
fn test_round_trip_date_is_lossy() {
    let date = DateValue {
        year: 2024,
        month: 3,
        day: 9,
        hour: 7,
        minute: 5,
        second: 30,
        microsecond: 0,
    };
    assert_eq!(
        round_trip(&Value::Date(date)),
        Value::String("2024-03-09T07:05:30+00:00".to_string())
    );
}

#[test]
fn test_round_trip_regex_is_lossy() {
    assert_eq!(
        round_trip(&Value::Regex("a+b".to_string())),
        Value::String("a+b".to_string())
    );
}

#[test]
fn test_round_trip_object() {
    let obj = Value::Object(vec![ObjectEntry {
        key: "k".to_string(),
        value: Value::Number(Number::Integer(1)),
    }]);
    let expected = Value::Object(vec![ObjectEntry {
        key: "k".to_string(),
        value: Value::Number(Number::Integer(1)),
    }]);
    assert_eq!(round_trip(&obj), expected);
}

#[test]
fn test_large_integer_round_trip_rounds() {
    // Above 2^53 a 64-bit float cannot hold every integer, so the round trip
    // may land on a neighbour.
    let big: i64 = (1 << 60) + 1;
    let back = round_trip(&Value::Number(Number::Integer(big)));
    match back {
        Value::Number(Number::Integer(i)) => {
            assert_ne!(i, big);
            assert_eq!(i, (((1u64 << 60) + 1) as f64) as i64);
        }
        other => panic!("expected an integer, got {other:?}"),
    }
}

#[test]
fn test_nodeset_is_its_size() {
    assert_eq!(
        value_to_script(&Value::Nodeset(4)),
        ScriptValue::Number((4.0f64).to_bits())
    );
}

#[test]
fn test_http_response_is_lossy_projection() {
    let v = Value::HttpResponse(hurl_filters::value::HttpResponseData {
        status: 302,
        location: Some("https://example.com/next".to_string()),
    });
    match value_to_script(&v) {
        ScriptValue::Object(entries) => {
            assert_eq!(entries.len(), 2);
            assert_eq!(entries[0].key, "status".to_string());
            assert_eq!(entries[0].value, ScriptValue::Number((302.0f64).to_bits()));
            assert_eq!(entries[1].key, "location".to_string());
            assert_eq!(
                entries[1].value,
                ScriptValue::String("https://example.com/next".to_string())
            );
        }
        other => panic!("expected an object, got {other:?}"),
    }
}

#[test]
fn test_client_to_script_object() {
    let client = hurl_filters::bridge::JsClient {
        global: vec![
            ("counter".to_string(), Value::Number(Number::Integer(42))),
            ("name".to_string(), Value::String("test".to_string())),
        ],
    };
    match client.to_script_object() {
        ScriptValue::Object(outer) => {
            assert_eq!(outer.len(), 1);
            assert_eq!(outer[0].key, "global".to_string());
            match &outer[0].value {
                ScriptValue::Object(entries) => {
                    assert_eq!(entries[0].key, "counter".to_string());
                    assert_eq!(entries[0].value, ScriptValue::Number((42.0f64).to_bits()));
                    assert_eq!(entries[1].key, "name".to_string());
                    assert_eq!(entries[1].value, ScriptValue::String("test".to_string()));
                }
                other => panic!("expected the store object, got {other:?}"),
            }
        }
        other => panic!("expected the client object, got {other:?}"),
    }
}

#[test]
fn test_response_to_script_object() {
    let response = JsResponse {
        status: 200,
        headers: vec![
            ("Content-Type".to_string(), "application/json".to_string()),
            ("X-Custom".to_string(), "value1".to_string()),
            ("X-Custom".to_string(), "value2".to_string()),
        ],
        body: b"hello".to_vec(),
        content_type: Some("application/json".to_string()),
        url: "http://example.com".to_string(),
    };
    match response.to_script_object() {
        ScriptValue::Object(entries) => {
            assert_eq!(entries[0].key, "status".to_string());
            assert_eq!(entries[0].value, ScriptValue::Number((200.0f64).to_bits()));
            assert_eq!(entries[1].key, "url".to_string());
            assert_eq!(
                entries[1].value,
                ScriptValue::String("http://example.com".to_string())
            );
            assert_eq!(entries[2].key, "contentType".to_string());
            assert_eq!(
                entries[2].value,
                ScriptValue::String("application/json".to_string())
            );
            assert_eq!(entries[3].key, "headers".to_string());
            match &entries[3].value {
                ScriptValue::Object(headers) => {
                    assert_eq!(headers.len(), 2);
                    assert_eq!(headers[0].key, "Content-Type".to_string());
                    assert_eq!(
                        headers[0].value,
                        ScriptValue::Array(vec![ScriptValue::String(
                            "application/json".to_string()
                        )])
                    );
                    // Repeated header names accumulate into an ordered list.
                    assert_eq!(headers[1].key, "X-Custom".to_string());
                    assert_eq!(
                        headers[1].value,
                        ScriptValue::Array(vec![
                            ScriptValue::String("value1".to_string()),
                            ScriptValue::String("value2".to_string()),
                        ])
                    );
                }
                other => panic!("expected a headers object, got {other:?}"),
            }
            assert_eq!(entries[4].key, "body".to_string());
            assert_eq!(entries[4].value, ScriptValue::String("hello".to_string()));
        }
        other => panic!("expected a response object, got {other:?}"),
    }
}

#[test]
fn test_response_from_http_response() {
    let input = hurl_filters::bridge::HttpResponseInput {
        status: 404,
        headers: vec![("content-type".to_string(), "text/plain".to_string())],
        body: vec![0xff, 0x00],
        url: "http://example.com/missing".to_string(),
    };
    let response = JsResponse::from_http_response(&input);
    assert_eq!(response.status, 404);
    // The content type is found case-insensitively.
    assert_eq!(response.content_type, Some("text/plain".to_string()));
    assert_eq!(response.body, vec![0xff, 0x00]);
    assert_eq!(response.url, "http://example.com/missing".to_string());
}

#[test]
fn test_response_empty() {
    let response = JsResponse::empty();
    assert_eq!(response.status, 0);
    assert_eq!(response.headers.len(), 0);
    assert_eq!(response.body.len(), 0);
    assert_eq!(response.content_type, None);
    assert_eq!(response.url, String::new());
}

#[test]
fn test_date_with_microseconds() {
    let date = DateValue {
        year: 987,
        month: 12,
        day: 31,
        hour: 23,
        minute: 59,
        second: 59,
        microsecond: 250,
    };
    assert_eq!(
        value_to_script(&Value::Date(date)),
        ScriptValue::String("0987-12-31T23:59:59.000250+00:00".to_string())
    );
}

#[test]
fn test_repr_forms() {
    assert_eq!(Value::Bool(true).repr(), "boolean <true>".to_string());
    assert_eq!(
        Value::String("abc".to_string()).repr(),
        "string <abc>".to_string()
    );
    assert_eq!(
        Value::Number(Number::Integer(-15)).repr(),
        "number <-15>".to_string()
    );
    assert_eq!(Value::Null.repr(), "null".to_string());
    assert_eq!(Value::Unit.repr(), "unit".to_string());
    assert_eq!(
        Value::List(vec![Value::Null, Value::Null]).repr(),
        "list <size 2>".to_string()
    );
}

#[test]
fn test_big_integer_with_unparsable_text_becomes_nan() {
    let converted = value_to_script(&Value::Number(Number::BigInteger("12x".to_string())));
    // An integer text that is no number at all survives as a string.
    assert_eq!(converted, ScriptValue::String("12x".to_string()));
    let parsed = value_to_script(&Value::Number(Number::BigInteger(
        "123456789012345678901234567890".to_string(),
    )));
    assert_eq!(
        parsed,
        ScriptValue::Number((123456789012345678901234567890.0f64).to_bits())
    );
}

#[test]
fn test_engine_entry_helper() {
    let entries = vec![
        ScriptEntry {
            key: "a".to_string(),
            value: ScriptValue::Bool(true),
        },
        ScriptEntry {
            key: "b".to_string(),
            value: ScriptValue::Null,
        },
    ];
    assert_eq!(
        hurl_filters::bridge::script_entries_get(&entries, "b"),
        Some(&ScriptValue::Null)
    );
    assert_eq!(hurl_filters::bridge::script_entries_get(&entries, "c"), None);
}

#[test]
fn test_float_rendering() {
    let shown = Value::Number(Number::Float((3.25f64).to_bits())).repr();
    assert_eq!(shown, "number <3.25>".to_string());
}

#[test]
fn test_edge_double_comes_back_as_float() {
    // 2^63 is just past the largest signed 64-bit integer, so the table
    // sends it back as a float rather than saturating.
    let bits = (9223372036854775808.0f64).to_bits();
    assert_eq!(
        script_to_value(&ScriptValue::Number(bits)),
        Value::Number(Number::Float(bits))
    );
}
