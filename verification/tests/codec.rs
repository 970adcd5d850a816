use helloworldstate::codec::{decode_request, decode_response, encode_response};
use helloworldstate::num::{i64_to_string, parse_i64, u64_to_string};
use helloworldstate::types::{
    GenerateAgreementAsPDFResponse, HandlerError, HelloWorldClause, MyResponse, RequestType,
    ResponseType,
};

#[test]
fn encode_invoke_response_exactly() {
    let resp = ResponseType::MyResponse(MyResponse {
        _class: String::from("MyResponse"),
        output: String::from("Hello Alice - there - counter: 1"),
        _timestamp: String::from("2024-01-01T00:00:00Z"),
    });
    assert_eq!(
        encode_response(&resp),
        "{\"MyResponse\":{\"$class\":\"MyResponse\",\
         \"output\":\"Hello Alice - there - counter: 1\",\
         \"$timestamp\":\"2024-01-01T00:00:00Z\"}}"
    );
}

#[test]
fn encode_escapes_quotes_backslashes_and_newlines() {
    let resp = ResponseType::GenerateAgreementAsPDFResponse(GenerateAgreementAsPDFResponse {
        message: String::from("a\"b\\c\nd\te\rf"),
    });
    assert_eq!(
        encode_response(&resp),
        "{\"GenerateAgreementAsPDFResponse\":{\"message\":\"a\\\"b\\\\c\\nd\\te\\rf\"}}"
    );
}

#[test]
fn response_round_trips_for_each_variant() {
    let cases = vec![
        ResponseType::MyResponse(MyResponse {
            _class: String::from("MyResponse"),
            output: String::from("Hello \"X\" - \\ - counter: 7"),
            _timestamp: String::from("t"),
        }),
        ResponseType::HelloWorldClause(HelloWorldClause {
            _class: String::from("HelloWorldClause"),
            name: String::from("Alice\nNewline"),
            clause_id: String::from("c1"),
            _identifier: String::from("id1"),
        }),
        ResponseType::GenerateAgreementAsPDFResponse(GenerateAgreementAsPDFResponse {
            message: String::from(""),
        }),
    ];
    for case in cases {
        let text = encode_response(&case);
        let back = decode_response(text.as_str()).unwrap();
        match (&case, &back) {
            (ResponseType::MyResponse(a), ResponseType::MyResponse(b)) => {
                assert_eq!(a._class, b._class);
                assert_eq!(a.output, b.output);
                assert_eq!(a._timestamp, b._timestamp);
            },
            (ResponseType::HelloWorldClause(a), ResponseType::HelloWorldClause(b)) => {
                assert_eq!(a._class, b._class);
                assert_eq!(a.name, b.name);
                assert_eq!(a.clause_id, b.clause_id);
                assert_eq!(a._identifier, b._identifier);
            },
            (
                ResponseType::GenerateAgreementAsPDFResponse(a),
                ResponseType::GenerateAgreementAsPDFResponse(b),
            ) => {
                assert_eq!(a.message, b.message);
            },
            _ => panic!("variant changed in the round trip"),
        }
    }
}

#[test]
fn decode_request_reads_the_invoke_envelope() {
    let text = "{\"request\":{\"MyRequest\":{\"$class\":\"MyRequest\",\
                \"input\":\"there\",\"$timestamp\":\"2024-01-01T00:00:00Z\"}}}";
    match decode_request(text).unwrap() {
        RequestType::MyRequest(m) => {
            assert_eq!(m._class, "MyRequest");
            assert_eq!(m.input, "there");
            assert_eq!(m._timestamp, "2024-01-01T00:00:00Z");
        },
        _ => panic!("wrong variant"),
    }
}

#[test]
fn decode_request_tolerates_whitespace_and_field_order() {
    let text = " {\n \"request\" : { \"HelloWorldClause\" : {\n\
                \t\"name\" : \"Alice\" ,\n\
                \t\"$identifier\" : \"id1\" ,\n\
                \t\"clauseId\" : \"c1\" ,\n\
                \t\"$class\" : \"org.accordproject.helloworldstate.HelloWorldClause\"\n\
                } } }\n";
    match decode_request(text).unwrap() {
        RequestType::HelloWorldClause(c) => {
            assert_eq!(c.name, "Alice");
            assert_eq!(c.clause_id, "c1");
            assert_eq!(c._identifier, "id1");
            assert_eq!(c._class, "org.accordproject.helloworldstate.HelloWorldClause");
        },
        _ => panic!("wrong variant"),
    }
}

#[test]
fn decode_request_reads_the_render_envelope() {
    let text = "{\"request\":{\"GenerateAgreementAsPDFRequest\":{\"notify_to\":\"a@b.c\"}}}";
    match decode_request(text).unwrap() {
        RequestType::GenerateAgreementAsPDFRequest(r) => assert_eq!(r.notify_to, "a@b.c"),
        _ => panic!("wrong variant"),
    }
}

#[test]
fn decode_unknown_tag_is_unknown_operation() {
    let text = "{\"request\":{\"SomethingElse\":{\"a\":\"b\"}}}";
    assert_eq!(decode_request(text).unwrap_err(), HandlerError::UnknownOperation);
}

#[test]
fn decode_malformed_text_is_decode_error() {
    for text in [
        "",
        "{",
        "nonsense",
        "{\"request\":{\"MyRequest\":{\"$class\":\"x\"}}}",
        "{\"request\":{\"MyRequest\":{\"$class\":\"x\",\"input\":\"y\",\"$timestamp\":\"t\"}}} junk",
        "{\"other\":{\"MyRequest\":{\"$class\":\"x\",\"input\":\"y\",\"$timestamp\":\"t\"}}}",
        "{\"request\":{\"MyRequest\":{\"$class\":7,\"input\":\"y\",\"$timestamp\":\"t\"}}}",
    ] {
        assert_eq!(decode_request(text).unwrap_err(), HandlerError::DecodeError, "{}", text);
    }
}

#[test]
fn decoder_accepts_simple_escapes() {
    let text = "{\"request\":{\"GenerateAgreementAsPDFRequest\":\
                {\"notify_to\":\"a\\\"b\\\\c\\nd\\/e\\b\\f\\r\\t\"}}}";
    match decode_request(text).unwrap() {
        RequestType::GenerateAgreementAsPDFRequest(r) => {
            assert_eq!(r.notify_to, "a\"b\\c\nd/e\u{8}\u{c}\r\t")
        },
        _ => panic!("wrong variant"),
    }
}

#[test]
fn decoder_rejects_unicode_escapes() {
    let text = "{\"request\":{\"GenerateAgreementAsPDFRequest\":{\"notify_to\":\"\\u0041\"}}}";
    assert_eq!(decode_request(text).unwrap_err(), HandlerError::DecodeError);
}

#[test]
fn formats_unsigned_numbers() {
    assert_eq!(u64_to_string(0), "0");
    assert_eq!(u64_to_string(7), "7");
    assert_eq!(u64_to_string(1234567890), "1234567890");
    assert_eq!(u64_to_string(u64::MAX), "18446744073709551615");
}

#[test]
fn formats_signed_numbers() {
    assert_eq!(i64_to_string(0), "0");
    assert_eq!(i64_to_string(42), "42");
    assert_eq!(i64_to_string(-42), "-42");
    assert_eq!(i64_to_string(i64::MAX), "9223372036854775807");
    assert_eq!(i64_to_string(i64::MIN), "-9223372036854775808");
}

#[test]
fn parses_signed_numbers() {
    assert_eq!(parse_i64("0"), Some(0));
    assert_eq!(parse_i64("007"), Some(7));
    assert_eq!(parse_i64("-42"), Some(-42));
    assert_eq!(parse_i64("9223372036854775807"), Some(i64::MAX));
    assert_eq!(parse_i64("-9223372036854775808"), Some(i64::MIN));
    assert_eq!(parse_i64(""), None);
    assert_eq!(parse_i64("-"), None);
    assert_eq!(parse_i64("1.5"), None);
    assert_eq!(parse_i64("12a"), None);
    assert_eq!(parse_i64("9223372036854775808"), None);
    assert_eq!(parse_i64("-9223372036854775809"), None);
    assert_eq!(parse_i64("99999999999999999999999999"), None);
}
