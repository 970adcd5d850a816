use helloworldstate::store::{get_data, increment_counter, put, AttrValue, Record, Store, StoreKey};
use helloworldstate::types::{
    GenerateAgreementAsPDFRequest, HandlerError, HelloWorldClause, MyRequest, RequestType,
    ResponseType,
};
use helloworldstate::ops::{
    add_data_to_database, add_state_to_database, function_handler, generate_agreement_as_pdf,
    handle_my_request, new,
};

fn alice() -> HelloWorldClause {
    HelloWorldClause {
        _class: String::from("HelloWorldClause"),
        name: String::from("Alice"),
        clause_id: String::from("c1"),
        _identifier: String::from("id1"),
    }
}

fn my_request(input: &str) -> MyRequest {
    MyRequest {
        _class: String::from("MyRequest"),
        input: String::from(input),
        _timestamp: String::from("2024-01-01T00:00:00Z"),
    }
}

#[test]
fn construct_then_invoke_greets_with_counter_one() {
    let mut store = Store::new();
    let echoed = new(&mut store, alice()).unwrap();
    assert_eq!(echoed.name, "Alice");
    assert_eq!(echoed.clause_id, "c1");
    assert_eq!(echoed._identifier, "id1");
    assert_eq!(echoed._class, "HelloWorldClause");

    let resp = handle_my_request(&mut store, &my_request("there"), "t0").unwrap();
    assert_eq!(resp.output, "Hello Alice - there - counter: 1");
    assert_eq!(resp._class, "MyRequest");
    assert_eq!(resp._timestamp, "t0");
}

#[test]
fn second_invoke_sees_counter_two() {
    let mut store = Store::new();
    new(&mut store, alice()).unwrap();
    let first = handle_my_request(&mut store, &my_request("there"), "t0").unwrap();
    let second = handle_my_request(&mut store, &my_request("there"), "t1").unwrap();
    assert_eq!(first.output, "Hello Alice - there - counter: 1");
    assert_eq!(second.output, "Hello Alice - there - counter: 2");
}

#[test]
fn invoke_output_contains_constructed_name() {
    let mut store = Store::new();
    let mut clause = alice();
    clause.name = String::from("Bob \"the\\builder\"");
    new(&mut store, clause).unwrap();
    let resp = handle_my_request(&mut store, &my_request("hi"), "t0").unwrap();
    assert!(resp.output.contains("Bob \"the\\builder\""));
}

#[test]
fn invoke_on_never_constructed_fails_not_constructed() {
    let mut store = Store::new();
    let err = handle_my_request(&mut store, &my_request("x"), "t0").unwrap_err();
    assert_eq!(err, HandlerError::NotConstructed);
}

#[test]
fn failed_invoke_still_consumes_a_counter_value() {
    // a state record exists but the data record is missing: the
    // increment happens first and is kept even though the read fails
    let mut store = Store::new();
    add_state_to_database(&mut store, &alice());
    let err = handle_my_request(&mut store, &my_request("x"), "t0").unwrap_err();
    assert_eq!(err, HandlerError::NotConstructed);
    add_data_to_database(&mut store, &alice());
    let resp = handle_my_request(&mut store, &my_request("x"), "t0").unwrap();
    assert_eq!(resp.output, "Hello Alice - x - counter: 2");
}

#[test]
fn increment_counter_returns_consecutive_values() {
    let mut store = Store::new();
    add_state_to_database(&mut store, &alice());
    assert_eq!(increment_counter(&mut store).unwrap(), 1);
    assert_eq!(increment_counter(&mut store).unwrap(), 2);
    assert_eq!(increment_counter(&mut store).unwrap(), 3);
}

#[test]
fn increment_counter_without_state_record_is_field_missing() {
    let mut store = Store::new();
    assert_eq!(increment_counter(&mut store).unwrap_err(), HandlerError::FieldMissing);
}

#[test]
fn increment_counter_without_counter_attribute_is_field_missing() {
    let mut store = Store::new();
    let mut rec = Record::empty();
    rec.push_attr("_identifier", AttrValue::S(String::from("id1")));
    put(&mut store, StoreKey::State, rec);
    assert_eq!(increment_counter(&mut store).unwrap_err(), HandlerError::FieldMissing);
}

#[test]
fn increment_counter_with_text_counter_is_type_mismatch() {
    let mut store = Store::new();
    let mut rec = Record::empty();
    rec.push_attr("counter", AttrValue::S(String::from("zero")));
    put(&mut store, StoreKey::State, rec);
    assert_eq!(increment_counter(&mut store).unwrap_err(), HandlerError::TypeMismatch);

    let mut rec2 = Record::empty();
    rec2.push_attr("counter", AttrValue::N(String::from("zero")));
    put(&mut store, StoreKey::State, rec2);
    assert_eq!(increment_counter(&mut store).unwrap_err(), HandlerError::TypeMismatch);
}

#[test]
fn increment_counter_at_type_limit_is_type_mismatch() {
    let mut store = Store::new();
    let mut rec = Record::empty();
    rec.push_attr("counter", AttrValue::N(String::from("9223372036854775807")));
    put(&mut store, StoreKey::State, rec);
    assert_eq!(increment_counter(&mut store).unwrap_err(), HandlerError::TypeMismatch);
}

#[test]
fn invoke_with_name_attribute_missing_is_malformed_data() {
    let mut store = Store::new();
    add_state_to_database(&mut store, &alice());
    let mut rec = Record::empty();
    rec.push_attr("_class", AttrValue::S(String::from("HelloWorldClause")));
    put(&mut store, StoreKey::Data, rec);
    let err = handle_my_request(&mut store, &my_request("x"), "t0").unwrap_err();
    assert_eq!(err, HandlerError::MalformedData);
}

#[test]
fn store_get_returns_what_was_put() {
    let mut store = Store::new();
    assert!(get_data(&store, StoreKey::Data).is_none());
    add_data_to_database(&mut store, &alice());
    let rec = get_data(&store, StoreKey::Data).unwrap();
    match rec.get("name") {
        Some(AttrValue::S(s)) => assert_eq!(s, "Alice"),
        _ => panic!("name attribute missing"),
    }
    assert!(get_data(&store, StoreKey::State).is_none());
}

#[test]
fn render_on_never_constructed_fails_not_constructed() {
    let store = Store::new();
    let req = GenerateAgreementAsPDFRequest { notify_to: String::from("a@b.c") };
    let err = generate_agreement_as_pdf(&store, &req, "template1").unwrap_err();
    assert_eq!(err, HandlerError::NotConstructed);
}

#[test]
fn render_builds_one_body_carrying_the_clause() {
    let mut store = Store::new();
    new(&mut store, alice()).unwrap();
    let req = GenerateAgreementAsPDFRequest { notify_to: String::from("a@b.c") };
    let (resp, body) = generate_agreement_as_pdf(&store, &req, "template1").unwrap();
    assert_eq!(resp.message, "Agreement has been sent to a@b.c");
    assert_eq!(
        body,
        "{\"data\":{\"$class\":\"HelloWorldClause\",\"$identifier\":\"id1\",\
         \"clauseId\":\"c1\",\"name\":\"Alice\"},\"notifyTo\":\"a@b.c\",\
         \"template\":\"template1\",\"options\":{}}"
    );
}

#[test]
fn render_skips_attributes_the_record_lacks() {
    let mut store = Store::new();
    let mut rec = Record::empty();
    rec.push_attr("name", AttrValue::S(String::from("Alice")));
    put(&mut store, StoreKey::Data, rec);
    let req = GenerateAgreementAsPDFRequest { notify_to: String::from("x@y.z") };
    let (_, body) = generate_agreement_as_pdf(&store, &req, "t").unwrap();
    assert_eq!(
        body,
        "{\"data\":{\"name\":\"Alice\"},\"notifyTo\":\"x@y.z\",\"template\":\"t\",\"options\":{}}"
    );
}

#[test]
fn handler_routes_each_request_to_its_response_variant() {
    let mut store = Store::new();
    let (resp, body) =
        function_handler(&mut store, RequestType::HelloWorldClause(alice()), "t").unwrap();
    assert!(body.is_none());
    match resp {
        ResponseType::HelloWorldClause(c) => assert_eq!(c.name, "Alice"),
        _ => panic!("wrong response variant"),
    }

    let (resp, body) =
        function_handler(&mut store, RequestType::MyRequest(my_request("there")), "t").unwrap();
    assert!(body.is_none());
    match resp {
        ResponseType::MyResponse(m) => {
            assert_eq!(m.output, "Hello Alice - there - counter: 1")
        },
        _ => panic!("wrong response variant"),
    }

    let pdf = GenerateAgreementAsPDFRequest { notify_to: String::from("a@b.c") };
    let (resp, body) = function_handler(
        &mut store,
        RequestType::GenerateAgreementAsPDFRequest(pdf),
        "t",
    )
    .unwrap();
    assert!(body.is_some());
    match resp {
        ResponseType::GenerateAgreementAsPDFResponse(g) => {
            assert_eq!(g.message, "Agreement has been sent to a@b.c")
        },
        _ => panic!("wrong response variant"),
    }
}

#[test]
fn handler_propagates_operation_errors() {
    let mut store = Store::new();
    let err =
        function_handler(&mut store, RequestType::MyRequest(my_request("x")), "t").unwrap_err();
    assert_eq!(err, HandlerError::NotConstructed);
}
