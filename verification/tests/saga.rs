use agentgateway::json::{JsonNumber, JsonValue};
use agentgateway::saga::{
    advance_saga, resolve_path, start_saga, InputBinding, OutputBinding, PathBinding, Saga, SagaAction, SagaError,
    SagaResult, SagaStatus, SagaStep, ToolCall,
};

fn s(x: &str) -> JsonValue {
    JsonValue::String(x.to_string())
}

fn obj(members: Vec<(&str, JsonValue)>) -> JsonValue {
    JsonValue::Object(members.into_iter().map(|(k, v)| (k.to_string(), v)).collect())
}

fn call(name: &str) -> ToolCall {
    ToolCall { name: name.to_string(), arguments: JsonValue::Null }
}

fn step(id: &str, action: &str, compensate: Option<&str>) -> SagaStep {
    SagaStep { id: id.to_string(), name: id.to_string(), action: call(action), compensate: compensate.map(call), input: None }
}

/// Drives a saga; `respond` answers each tool call by name. Returns the result and
/// the tools called, in order.
fn drive(
    saga: &Saga,
    input: &JsonValue,
    respond: &dyn Fn(&str) -> Result<JsonValue, String>,
) -> (Result<SagaResult, SagaError>, Vec<(String, JsonValue)>) {
    let mut calls = Vec::new();
    let (mut run, mut action) = start_saga(saga, input);
    loop {
        let tool = match &action {
            SagaAction::RunStep { step, input } => {
                calls.push((saga.steps[*step].action.name.clone(), input.duplicate()));
                saga.steps[*step].action.name.clone()
            },
            SagaAction::Compensate { step, input } => {
                let t = saga.steps[*step].compensate.as_ref().unwrap().name.clone();
                calls.push((t.clone(), input.duplicate()));
                t
            },
            SagaAction::Finish(_) => break,
        };
        let outcome = respond(&tool);
        let next = advance_saga(saga, input, run, outcome);
        run = next.0;
        action = next.1;
    }
    match action {
        SagaAction::Finish(r) => (r, calls),
        _ => unreachable!(),
    }
}

fn names(calls: &[(String, JsonValue)]) -> Vec<&str> {
    calls.iter().map(|(n, _)| n.as_str()).collect()
}

#[test]
fn saga_happy_path_records_every_step() {
    let saga = Saga {
        steps: vec![step("flight", "airline.book", Some("airline.cancel")), step("hotel", "hotel.reserve", Some("hotel.cancel"))],
        timeout: None,
        output: None,
    };
    let respond = |t: &str| match t {
        "airline.book" => Ok(obj(vec![("confirmationNumber", s("FL123"))])),
        "hotel.reserve" => Ok(obj(vec![("confirmationNumber", s("HT456"))])),
        _ => Ok(JsonValue::Null),
    };
    let (r, calls) = drive(&saga, &JsonValue::Null, &respond);
    let r = r.unwrap();
    assert_eq!(r.status, SagaStatus::Completed);
    assert_eq!(r.step_results.len(), 2);
    assert_eq!(names(&calls), vec!["airline.book", "hotel.reserve"]);
    assert_eq!(
        r.output.get("flight").unwrap().get("confirmationNumber"),
        Some(&s("FL123"))
    );
}

#[test]
fn saga_compensates_completed_steps_in_reverse_order() {
    let saga = Saga {
        steps: vec![
            step("step1", "tool1", Some("cancel1")),
            step("step2", "tool2", Some("cancel2")),
            step("step3", "tool3", Some("cancel3")),
        ],
        timeout: None,
        output: None,
    };
    let respond = |t: &str| if t == "tool3" { Err("Step 3 failed".to_string()) } else { Ok(JsonValue::Null) };
    let (r, calls) = drive(&saga, &JsonValue::Null, &respond);
    let r = r.unwrap();
    assert_eq!(names(&calls), vec!["tool1", "tool2", "tool3", "cancel2", "cancel1"]);
    match r.status {
        SagaStatus::Failed { step, error } => {
            assert_eq!(step, "step3");
            assert!(error.contains("Step 3 failed"));
        },
        other => panic!("unexpected status {:?}", other),
    }
    assert_eq!(r.output, JsonValue::Null);
}

#[test]
fn saga_skips_steps_without_compensation() {
    let saga = Saga {
        steps: vec![step("a", "tool_a", Some("undo_a")), step("b", "tool_b", None), step("c", "tool_c", None)],
        timeout: None,
        output: None,
    };
    let respond = |t: &str| if t == "tool_c" { Err("boom".to_string()) } else { Ok(JsonValue::Null) };
    let (r, calls) = drive(&saga, &JsonValue::Null, &respond);
    assert_eq!(names(&calls), vec!["tool_a", "tool_b", "tool_c", "undo_a"]);
    assert!(matches!(r.unwrap().status, SagaStatus::Failed { .. }));
}

#[test]
fn saga_reports_failed_compensations() {
    let saga = Saga {
        steps: vec![step("a", "tool_a", Some("undo_a")), step("b", "tool_b", Some("undo_b")), step("c", "tool_c", None)],
        timeout: None,
        output: None,
    };
    let respond = |t: &str| match t {
        "tool_c" => Err("boom".to_string()),
        "undo_b" => Err("cannot undo".to_string()),
        _ => Ok(JsonValue::Null),
    };
    let (r, calls) = drive(&saga, &JsonValue::Null, &respond);
    assert_eq!(names(&calls), vec!["tool_a", "tool_b", "tool_c", "undo_b", "undo_a"]);
    assert_eq!(
        r.unwrap().status,
        SagaStatus::CompensationFailed {
            original_error: "boom".to_string(),
            compensation_errors: vec!["Compensation failed for b: cannot undo".to_string()],
        }
    );
}

#[test]
fn saga_step_bindings_read_input_and_earlier_results() {
    let mut car = step("car", "car.rent", None);
    car.input = Some(InputBinding::Object(vec![
        ("flightArrival".to_string(), InputBinding::Path { path: "$.steps.flight.arrival".to_string() }),
        ("hotelAddress".to_string(), InputBinding::Path { path: "$.steps.hotel.address".to_string() }),
        ("city".to_string(), InputBinding::Path { path: "$.input.city".to_string() }),
        ("fixed".to_string(), InputBinding::Literal(JsonValue::Number(JsonNumber::PosInt(7)))),
    ]));
    let saga = Saga {
        steps: vec![step("flight", "airline.book", None), step("hotel", "hotel.reserve", None), car],
        timeout: None,
        output: None,
    };
    let respond = |t: &str| match t {
        "airline.book" => Ok(obj(vec![("arrival", s("14:00"))])),
        "hotel.reserve" => Ok(obj(vec![("address", s("123 Main St"))])),
        _ => Ok(JsonValue::Null),
    };
    let input = obj(vec![("city", s("Paris"))]);
    let (r, calls) = drive(&saga, &input, &respond);
    assert_eq!(r.unwrap().status, SagaStatus::Completed);
    let car_input = &calls[2].1;
    assert_eq!(car_input.get("flightArrival"), Some(&s("14:00")));
    assert_eq!(car_input.get("hotelAddress"), Some(&s("123 Main St")));
    assert_eq!(car_input.get("city"), Some(&s("Paris")));
    assert_eq!(car_input.get("fixed"), Some(&JsonValue::Number(JsonNumber::PosInt(7))));
}

#[test]
fn saga_output_binding() {
    let saga = Saga {
        steps: vec![step("flight", "airline.book", None), step("hotel", "hotel.reserve", None)],
        timeout: None,
        output: Some(OutputBinding {
            fields: vec![
                ("flightConfirmation".to_string(), PathBinding { path: "$.steps.flight.confirmationNumber".to_string() }),
                ("hotelConfirmation".to_string(), PathBinding { path: "$.steps.hotel.confirmationNumber".to_string() }),
            ],
        }),
    };
    let respond = |t: &str| match t {
        "airline.book" => Ok(obj(vec![("confirmationNumber", s("FL123"))])),
        _ => Ok(obj(vec![("confirmationNumber", s("HT456"))])),
    };
    let (r, _) = drive(&saga, &JsonValue::Null, &respond);
    let r = r.unwrap();
    assert_eq!(r.status, SagaStatus::Completed);
    assert_eq!(r.output.get("flightConfirmation"), Some(&s("FL123")));
    assert_eq!(r.output.get("hotelConfirmation"), Some(&s("HT456")));
}

#[test]
fn saga_bad_input_binding_is_an_error() {
    let mut first = step("a", "tool_a", None);
    first.input = Some(InputBinding::Path { path: "$.nowhere".to_string() });
    let saga = Saga { steps: vec![first], timeout: None, output: None };
    let (r, calls) = drive(&saga, &JsonValue::Null, &|_| Ok(JsonValue::Null));
    assert!(calls.is_empty());
    assert_eq!(r.unwrap_err(), SagaError::InvalidPath("Unknown root 'nowhere' in path: $.nowhere".to_string()));
}

#[test]
fn saga_unresolvable_compensation_input_is_recorded() {
    // Step "r" runs twice; the second run's result replaces the first, so the
    // binding that fed the second run no longer resolves when it is compensated.
    let first = step("r", "tool_first", None);
    let mut second = step("r", "tool_second", Some("undo_second"));
    second.input = Some(InputBinding::Path { path: "$.steps.r.x".to_string() });
    let saga = Saga { steps: vec![first, second, step("c", "tool_c", None)], timeout: None, output: None };
    let respond = |t: &str| match t {
        "tool_first" => Ok(obj(vec![("x", s("1"))])),
        "tool_second" => Ok(obj(vec![])),
        _ => Err("boom".to_string()),
    };
    let (r, calls) = drive(&saga, &JsonValue::Null, &respond);
    assert_eq!(names(&calls), vec!["tool_first", "tool_second", "tool_c"]);
    assert_eq!(
        r.unwrap().status,
        SagaStatus::CompensationFailed {
            original_error: "boom".to_string(),
            compensation_errors: vec![
                "Failed to resolve compensation input for r: invalid path binding: Key 'x' not found in path: $.steps.r.x"
                    .to_string()
            ],
        }
    );
}

#[test]
fn resolve_path_errors() {
    let results = vec![("flight".to_string(), obj(vec![("n", s("1"))]))];
    let input = obj(vec![("a", obj(vec![("b", s("deep"))]))]);
    assert_eq!(resolve_path("$.input.a.b", &input, &results), Ok(s("deep")));
    assert_eq!(resolve_path("$.steps.flight.n", &input, &results), Ok(s("1")));
    assert_eq!(resolve_path("$.steps.flight", &input, &results), Ok(obj(vec![("n", s("1"))])));
    assert_eq!(
        resolve_path("input.a", &input, &results),
        Err(SagaError::InvalidPath("Path must start with $: input.a".to_string()))
    );
    assert_eq!(resolve_path("$", &input, &results), Err(SagaError::InvalidPath("Path too short: $".to_string())));
    assert_eq!(
        resolve_path("$.steps", &input, &results),
        Err(SagaError::InvalidPath("$.steps requires step id: $.steps".to_string()))
    );
    assert_eq!(
        resolve_path("$.steps.hotel.n", &input, &results),
        Err(SagaError::InvalidPath("Step hotel not found".to_string()))
    );
    assert_eq!(
        resolve_path("$.input.a.c", &input, &results),
        Err(SagaError::InvalidPath("Key 'c' not found in path: $.input.a.c".to_string()))
    );
}
