use hurl_filters::ast::{SourceInfo, Template, TemplateElement, Whitespace};
use hurl_filters::bridge::{
    complete_jsfilter, eval_jsfilter, parse_arg_value, EngineFault, JsError, JsRuntime,
};
use hurl_filters::reader::Pos;
use hurl_filters::runner_error::RunnerErrorKind;
use hurl_filters::script_value::ScriptValue;
use hurl_filters::value::{Number, Value};
use hurl_filters::variables::VariableSet;

fn whitespace() -> Whitespace {
    Whitespace {
        value: String::new(),
        source_info: SourceInfo::new(Pos::new(0, 0), Pos::new(0, 0)),
    }
}

fn literal_template(text: &str) -> Template {
    Template {
        delimiter: None,
        elements: vec![TemplateElement::Text {
            value: text.to_string(),
            source: text.to_string(),
        }],
        source_info: SourceInfo::new(Pos::new(1, 1), Pos::new(1, 1)),
    }
}

#[test]
fn test_parse_arg_value_integer() {
    assert_eq!(parse_arg_value("42"), Value::Number(Number::Integer(42)));
    assert_eq!(parse_arg_value("-10"), Value::Number(Number::Integer(-10)));
}

#[test]
fn test_parse_arg_value_float() {
    assert_eq!(
        parse_arg_value("3.14"),
        Value::Number(Number::Float((3.14f64).to_bits()))
    );
}

#[test]
fn test_parse_arg_value_string() {
    assert_eq!(parse_arg_value("hello"), Value::String("hello".to_string()));
}

#[test]
fn test_jsfilter_not_configured() {
    let variables = VariableSet::new();
    let source_info = SourceInfo::new(Pos::new(1, 1), Pos::new(1, 1));
    let err = eval_jsfilter(
        &literal_template("upper"),
        &Vec::new(),
        &variables,
        &None,
        source_info,
        false,
    )
    .err()
    .unwrap();
    assert_eq!(err.kind, RunnerErrorKind::JsFilterNotConfigured);
}

#[test]
fn test_jsfilter_request_evaluation() {
    let mut variables = VariableSet::new();
    variables.insert("who".to_string(), Value::String("world".to_string()));
    let source_info = SourceInfo::new(Pos::new(1, 1), Pos::new(1, 1));
    let args = vec![
        (whitespace(), literal_template("41")),
        (whitespace(), literal_template("2.5")),
        (whitespace(), literal_template("plain")),
    ];
    let request = eval_jsfilter(
        &literal_template("concat"),
        &args,
        &variables,
        &Some("filters.js".to_string()),
        source_info,
        false,
    )
    .unwrap();
    assert_eq!(request.path, "filters.js".to_string());
    assert_eq!(request.name, "concat".to_string());
    assert_eq!(request.args.len(), 3);
    assert_eq!(request.args[0], Value::Number(Number::Integer(41)));
    assert_eq!(request.args[1], Value::Number(Number::Float((2.5f64).to_bits())));
    assert_eq!(request.args[2], Value::String("plain".to_string()));
}

#[test]
fn test_filter_not_found_names_bare_name() {
    let mut runtime = JsRuntime::new();
    let reloaded = runtime.ensure_loaded("filters.js");
    assert!(reloaded);
    let call = runtime.plan_call("nonexistent", &Value::Number(Number::Integer(10)), &Vec::new());
    assert_eq!(call.function_name, "filter_nonexistent".to_string());
    let source_info = SourceInfo::new(Pos::new(1, 1), Pos::new(1, 1));
    let err = complete_jsfilter(
        &mut runtime,
        &call,
        Err(EngineFault::NotCallable),
        source_info,
        false,
    )
    .err()
    .unwrap();
    assert_eq!(
        err.kind,
        RunnerErrorKind::JsFilterFunctionNotFound {
            name: "nonexistent".to_string()
        }
    );
}

#[test]
fn test_engine_runtime_fault_maps_to_runtime_error() {
    let mut runtime = JsRuntime::new();
    runtime.ensure_loaded("filters.js");
    let call = runtime.plan_call("boom", &Value::Null, &Vec::new());
    let source_info = SourceInfo::new(Pos::new(1, 1), Pos::new(1, 1));
    let err = complete_jsfilter(
        &mut runtime,
        &call,
        Err(EngineFault::Runtime {
            message: "thrown".to_string(),
        }),
        source_info,
        true,
    )
    .err()
    .unwrap();
    assert_eq!(
        err.kind,
        RunnerErrorKind::JsFilterRuntimeError {
            message: "thrown".to_string()
        }
    );
    assert!(err.assert);
}

fn object_with_global(counter: f64) -> ScriptValue {
    ScriptValue::Object(vec![hurl_filters::script_value::ScriptEntry {
        key: "global".to_string(),
        value: ScriptValue::Object(vec![hurl_filters::script_value::ScriptEntry {
            key: "counter".to_string(),
            value: ScriptValue::Number(counter.to_bits()),
        }]),
    }])
}

#[test]
fn test_client_persistence() {
    let mut runtime = JsRuntime::new();

    // First call on a freshly loaded script: the store starts empty.
    assert!(runtime.ensure_loaded("filters.js"));
    assert_eq!(runtime.client().global.len(), 0);
    let call = runtime.plan_call("increment", &Value::Number(Number::Integer(100)), &Vec::new());
    let source_info = SourceInfo::new(Pos::new(1, 1), Pos::new(1, 1));
    // The script increments client.global.counter and echoes input + counter.
    let result1 = complete_jsfilter(
        &mut runtime,
        &call,
        Ok((object_with_global(1.0), ScriptValue::Number((101.0f64).to_bits()))),
        source_info,
        false,
    )
    .unwrap()
    .unwrap();
    assert_eq!(result1, Value::Number(Number::Integer(101)));
    assert_eq!(runtime.client().global.len(), 1);
    assert_eq!(
        runtime.client().global[0],
        ("counter".to_string(), Value::Number(Number::Integer(1)))
    );

    // Second call on the same loaded path: the counter survives.
    assert!(!runtime.ensure_loaded("filters.js"));
    assert_eq!(
        runtime.client().global[0],
        ("counter".to_string(), Value::Number(Number::Integer(1)))
    );
    let call = runtime.plan_call("increment", &Value::Number(Number::Integer(100)), &Vec::new());
    let result2 = complete_jsfilter(
        &mut runtime,
        &call,
        Ok((object_with_global(2.0), ScriptValue::Number((102.0f64).to_bits()))),
        source_info,
        false,
    )
    .unwrap()
    .unwrap();
    assert_eq!(result2, Value::Number(Number::Integer(102)));

    // Switching to a different script path drops the session state.
    assert!(runtime.ensure_loaded("other.js"));
    assert_eq!(runtime.client().global.len(), 0);
}

#[test]
fn test_store_replaced_wholesale_not_merged() {
    let mut runtime = JsRuntime::new();
    runtime.ensure_loaded("filters.js");
    let call = runtime.plan_call("set", &Value::Null, &Vec::new());
    let source_info = SourceInfo::new(Pos::new(1, 1), Pos::new(1, 1));
    // First outcome stores two keys.
    let back = ScriptValue::Object(vec![hurl_filters::script_value::ScriptEntry {
        key: "global".to_string(),
        value: ScriptValue::Object(vec![
            hurl_filters::script_value::ScriptEntry {
                key: "a".to_string(),
                value: ScriptValue::String("1".to_string()),
            },
            hurl_filters::script_value::ScriptEntry {
                key: "b".to_string(),
                value: ScriptValue::String("2".to_string()),
            },
        ]),
    }]);
    complete_jsfilter(&mut runtime, &call, Ok((back, ScriptValue::Null)), source_info, false)
        .unwrap();
    assert_eq!(runtime.client().global.len(), 2);

    // The next outcome keeps only one key: the other is dropped, not merged.
    let call = runtime.plan_call("set", &Value::Null, &Vec::new());
    let back = object_with_global(9.0);
    complete_jsfilter(&mut runtime, &call, Ok((back, ScriptValue::Null)), source_info, false)
        .unwrap();
    assert_eq!(runtime.client().global.len(), 1);
    assert_eq!(runtime.client().global[0].0, "counter".to_string());
}

#[test]
fn test_planned_call_carries_session_and_response() {
    let mut runtime = JsRuntime::new();
    runtime.ensure_loaded("filters.js");
    runtime.set_response(hurl_filters::bridge::JsResponse {
        status: 200,
        headers: vec![("Content-Type".to_string(), "application/json".to_string())],
        body: b"test body".to_vec(),
        content_type: Some("application/json".to_string()),
        url: "http://example.com".to_string(),
    });
    let call = runtime.plan_call("with_status", &Value::String("result".to_string()), &Vec::new());
    match &call.response_object {
        ScriptValue::Object(entries) => {
            assert_eq!(entries[0].key, "status".to_string());
            assert_eq!(entries[0].value, ScriptValue::Number((200.0f64).to_bits()));
            assert_eq!(entries[4].key, "body".to_string());
            assert_eq!(
                entries[4].value,
                ScriptValue::String("test body".to_string())
            );
        }
        other => panic!("expected a response object, got {other:?}"),
    }
    match &call.input {
        ScriptValue::String(s) => assert_eq!(s, &"result".to_string()),
        other => panic!("expected a marshaled string, got {other:?}"),
    }
}

#[test]
fn test_unrenderable_argument() {
    let mut variables = VariableSet::new();
    variables.insert("xs".to_string(), Value::List(Vec::new()));
    let source_info = SourceInfo::new(Pos::new(1, 1), Pos::new(1, 1));
    let arg = Template {
        delimiter: None,
        elements: vec![TemplateElement::Placeholder(hurl_filters::ast::Placeholder {
            space0: whitespace(),
            expr: hurl_filters::ast::Expr {
                name: "xs".to_string(),
                source_info: SourceInfo::new(Pos::new(1, 1), Pos::new(1, 1)),
            },
            space1: whitespace(),
            source_info: SourceInfo::new(Pos::new(1, 1), Pos::new(1, 1)),
        })],
        source_info: SourceInfo::new(Pos::new(1, 1), Pos::new(1, 1)),
    };
    let err = eval_jsfilter(
        &literal_template("f"),
        &vec![(whitespace(), arg)],
        &variables,
        &Some("filters.js".to_string()),
        source_info,
        false,
    )
    .err()
    .unwrap();
    assert_eq!(
        err.kind,
        RunnerErrorKind::UnrenderableExpression {
            value: "list <size 0>".to_string()
        }
    );
}

#[test]
fn test_load_and_parse_faults_map_to_runtime_error() {
    let source_info = SourceInfo::new(Pos::new(1, 1), Pos::new(1, 1));
    for (fault, message) in [
        (
            EngineFault::Load {
                path: "filters.js".to_string(),
                message: "no such file".to_string(),
            },
            "no such file",
        ),
        (
            EngineFault::Parse {
                message: "unexpected token".to_string(),
            },
            "unexpected token",
        ),
        (
            EngineFault::Conversion {
                message: "bad value".to_string(),
            },
            "bad value",
        ),
    ] {
        let mut runtime = JsRuntime::new();
        runtime.ensure_loaded("filters.js");
        let call = runtime.plan_call("f", &Value::Null, &Vec::new());
        let err = complete_jsfilter(&mut runtime, &call, Err(fault), source_info, false)
            .err()
            .unwrap();
        assert_eq!(
            err.kind,
            RunnerErrorKind::JsFilterRuntimeError {
                message: message.to_string()
            }
        );
    }
}

#[test]
fn test_js_error_messages() {
    assert_eq!(
        JsError::FunctionNotFound {
            name: "upper".to_string()
        }
        .message(),
        "JavaScript filter function 'filter_upper' not found".to_string()
    );
    assert_eq!(
        JsError::FileLoadError {
            path: "a.js".to_string(),
            message: "denied".to_string()
        }
        .message(),
        "Failed to load JavaScript file 'a.js': denied".to_string()
    );
    assert_eq!(
        JsError::ParseError {
            message: "oops".to_string()
        }
        .message(),
        "JavaScript parse error: oops".to_string()
    );
}
