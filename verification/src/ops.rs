//! The three clause operations and the dispatcher. A clause instance
//! passes from Uninitialized to Active when `new` writes its `data`
//! and `state` records; `handle_my_request` then invokes the clause,
//! bumping the shared counter, and `generate_agreement_as_pdf`
//! prepares the outbound document request.

use vstd::prelude::*;
use vstd::string::StringExecFns;
use crate::types::{
    HandlerError, MyRequest, MyResponse, MyResponseV, HelloWorldClause, HelloWorldClauseV,
    GenerateAgreementAsPDFRequest, GenerateAgreementAsPDFResponse, RequestType, RequestV,
    ResponseType,
};
use crate::store::{
    AttrValue, AttrV, Record, RecordV, Store, StoreV, StoreKey, rv_get, get_data, put,
    counter_of, incremented, increment_counter,
};
use crate::num::{dec_of_int, i64_to_string};
use crate::codec::{enc_jstr, append_jstr, members_txt, append_members};
use crate::text::push_char;

verus! {

/// The view of a `Result` whose payload has a view.
pub open spec fn res_view<T: View>(r: Result<T, HandlerError>) -> Result<T::V, HandlerError> {
    match r {
        Ok(v) => Ok(v@),
        Err(e) => Err(e),
    }
}

/// The `data` record that construction writes: the clause's immutable
/// configuration.
pub open spec fn data_record_v(c: HelloWorldClauseV) -> RecordV {
    seq![
        ("_identifier"@, AttrV::S(c.identifier)),
        ("clause_id"@, AttrV::S(c.clause_id)),
        ("_class"@, AttrV::S(c.class)),
        ("name"@, AttrV::S(c.name)),
    ]
}

/// The `state` record that construction writes: the counter at zero.
pub open spec fn state_record_v(c: HelloWorldClauseV) -> RecordV {
    seq![
        ("_identifier"@, AttrV::S(c.identifier)),
        ("counter"@, AttrV::N("0"@)),
        ("_class"@, AttrV::S(c.class)),
    ]
}

/// Writes the clause's `data` record, leaving `state` alone.
pub fn add_data_to_database(store: &mut Store, hello_world_clause: &HelloWorldClause)
    ensures
        final(store)@.data == Some(data_record_v(hello_world_clause@)),
        final(store)@.state == old(store)@.state,
{
    let mut rec = Record::empty();
    rec.push_attr("_identifier", AttrValue::S(hello_world_clause._identifier.clone()));
    rec.push_attr("clause_id", AttrValue::S(hello_world_clause.clause_id.clone()));
    rec.push_attr("_class", AttrValue::S(hello_world_clause._class.clone()));
    rec.push_attr("name", AttrValue::S(hello_world_clause.name.clone()));
    proof {
        assert(rec@ =~= data_record_v(hello_world_clause@));
    }
    put(store, StoreKey::Data, rec);
}

/// Writes the clause's `state` record with the counter at zero,
/// leaving `data` alone.
pub fn add_state_to_database(store: &mut Store, hello_world_clause: &HelloWorldClause)
    ensures
        final(store)@.state == Some(state_record_v(hello_world_clause@)),
        final(store)@.data == old(store)@.data,
{
    let mut rec = Record::empty();
    rec.push_attr("_identifier", AttrValue::S(hello_world_clause._identifier.clone()));
    rec.push_attr("counter", AttrValue::N(String::from_str("0")));
    rec.push_attr("_class", AttrValue::S(hello_world_clause._class.clone()));
    proof {
        assert(rec@ =~= state_record_v(hello_world_clause@));
    }
    put(store, StoreKey::State, rec);
}

/// What construction leaves behind and returns. Construction is
/// last-write-wins: running it again overwrites both records and so
/// resets the counter to zero — a deliberate, documented policy.
pub open spec fn construct_post(
    s0: StoreV,
    s1: StoreV,
    c: HelloWorldClauseV,
    out: Result<HelloWorldClauseV, HandlerError>,
) -> bool {
    &&& s1.data == Some(data_record_v(c))
    &&& s1.state == Some(state_record_v(c))
    &&& out == Ok::<HelloWorldClauseV, HandlerError>(c)
}

/// The constructor: writes the `data` record, then the `state` record,
/// and returns the persisted configuration as confirmation.
pub fn new(store: &mut Store, hello_world_clause: HelloWorldClause) -> (r: Result<
    HelloWorldClause,
    HandlerError,
>)
    ensures
        construct_post(old(store)@, final(store)@, hello_world_clause@, res_view(r)),
{
    add_data_to_database(store, &hello_world_clause);
    add_state_to_database(store, &hello_world_clause);
    Ok(hello_world_clause)
}

/// The name the `data` record holds, or the error reading it raises:
/// `NotConstructed` when the record is absent, `MalformedData` when
/// the `name` attribute is absent or not a string.
pub open spec fn data_name_of(s: StoreV) -> Result<Seq<char>, HandlerError> {
    match s.data {
        None => Err(HandlerError::NotConstructed),
        Some(rec) => match rv_get(rec, "name"@) {
            Some(AttrV::S(nm)) => Ok(nm),
            _ => Err(HandlerError::MalformedData),
        },
    }
}

/// The deterministic output line of one invocation.
pub open spec fn invoke_output(name: Seq<char>, input: Seq<char>, counter: int) -> Seq<char> {
    "Hello "@ + name + " - "@ + input + " - counter: "@ + dec_of_int(counter)
}

/// Everything one invocation determines: how the store moves and what
/// comes back. The counter is consumed first, unconditionally, so a
/// failed read still advances it; an increment that fails because the
/// state record or its counter is absent means the clause was never
/// constructed, and is surfaced as `NotConstructed`. The response
/// timestamp is the caller's and is not constrained here.
pub open spec fn invoke_post(
    s0: StoreV,
    s1: StoreV,
    class: Seq<char>,
    input: Seq<char>,
    out: Result<MyResponseV, HandlerError>,
) -> bool {
    match counter_of(s0) {
        Err(e) => {
            &&& s1 == s0
            &&& out == Err::<MyResponseV, HandlerError>(
                if e == HandlerError::FieldMissing {
                    HandlerError::NotConstructed
                } else {
                    e
                },
            )
        },
        Ok(v) => if v < i64::MAX as int {
            &&& s1 == incremented(s0)
            &&& match data_name_of(s0) {
                Err(e2) => out == Err::<MyResponseV, HandlerError>(e2),
                Ok(nm) => match out {
                    Ok(resp) => {
                        &&& resp.class == class
                        &&& resp.output == invoke_output(nm, input, v + 1)
                    },
                    Err(_) => false,
                },
            }
        } else {
            &&& s1 == s0
            &&& out == Err::<MyResponseV, HandlerError>(HandlerError::TypeMismatch)
        },
    }
}

/// Composes the invocation response once a counter value has been
/// consumed: reads the configuration from the store and builds the
/// greeting line for that counter value.
pub fn compose_invoke_response(
    store: &Store,
    my_request: &MyRequest,
    counter: i64,
    now: &str,
) -> (r: Result<MyResponse, HandlerError>)
    ensures
        match data_name_of(store@) {
            Err(e) => r == Err::<MyResponse, HandlerError>(e),
            Ok(nm) => match r {
                Ok(resp) => {
                    &&& resp@.class == my_request@.class
                    &&& resp@.output == invoke_output(nm, my_request@.input, counter as int)
                    &&& resp@.timestamp == now@
                },
                Err(_) => false,
            },
        },
{
    match get_data(store, StoreKey::Data) {
        None => Err(HandlerError::NotConstructed),
        Some(rec) => match rec.get("name") {
            Some(AttrValue::S(name)) => {
                let mut out = String::from_str("Hello ");
                out.append(name.as_str());
                out.append(" - ");
                out.append(my_request.input.as_str());
                out.append(" - counter: ");
                let ctext = i64_to_string(counter);
                out.append(ctext.as_str());
                proof {
                    assert(out@ =~= invoke_output(name@, my_request@.input, counter as int));
                }
                Ok(MyResponse {
                    _class: my_request._class.clone(),
                    output: out,
                    _timestamp: String::from_str(now),
                })
            },
            _ => Err(HandlerError::MalformedData),
        },
    }
}

/// Invokes the clause: bumps the counter, reads the configuration and
/// composes the output line, stamping the response with the caller's
/// timestamp.
pub fn handle_my_request(store: &mut Store, my_request: &MyRequest, now: &str) -> (r: Result<
    MyResponse,
    HandlerError,
>)
    ensures
        invoke_post(old(store)@, final(store)@, my_request@.class, my_request@.input, res_view(r)),
        r matches Ok(resp) ==> resp@.timestamp == now@,
{
    let counter = match increment_counter(store) {
        Ok(c) => c,
        Err(e) => {
            if e == HandlerError::FieldMissing {
                return Err(HandlerError::NotConstructed);
            }
            return Err(e);
        },
    };
    proof {
        assert(final(store)@.data == old(store)@.data);
    }
    compose_invoke_response(store, my_request, counter, now)
}

/// The key/value pairs the document payload carries: each of the four
/// configuration attributes that is present on the record as a string,
/// under its outward name.
pub open spec fn data_pairs(rec: RecordV) -> Seq<(Seq<char>, Seq<char>)> {
    (match rv_get(rec, "_class"@) {
        Some(AttrV::S(v)) => seq![("$class"@, v)],
        _ => Seq::empty(),
    }) + (match rv_get(rec, "_identifier"@) {
        Some(AttrV::S(v)) => seq![("$identifier"@, v)],
        _ => Seq::empty(),
    }) + (match rv_get(rec, "clause_id"@) {
        Some(AttrV::S(v)) => seq![("clauseId"@, v)],
        _ => Seq::empty(),
    }) + (match rv_get(rec, "name"@) {
        Some(AttrV::S(v)) => seq![("name"@, v)],
        _ => Seq::empty(),
    })
}

/// The JSON object for the clause configuration.
pub open spec fn data_json(rec: RecordV) -> Seq<char> {
    seq!['{'] + members_txt(data_pairs(rec)) + seq!['}']
}

/// The whole outbound document-request body.
pub open spec fn render_body(rec: RecordV, notify: Seq<char>, template: Seq<char>) -> Seq<char> {
    "{\"data\":"@ + data_json(rec) + ",\"notifyTo\":"@ + enc_jstr(notify) + ",\"template\":"@
        + enc_jstr(template) + ",\"options\":{}}"@
}

/// What rendering determines: the confirmation message and the single
/// outbound body, or `NotConstructed` when the clause has no `data`
/// record. Rendering never changes the store.
pub open spec fn render_post(
    s: StoreV,
    notify: Seq<char>,
    template: Seq<char>,
    out: Result<(Seq<char>, Seq<char>), HandlerError>,
) -> bool {
    match s.data {
        None => out == Err::<(Seq<char>, Seq<char>), HandlerError>(HandlerError::NotConstructed),
        Some(rec) => match out {
            Ok((msg, body)) => {
                &&& msg == "Agreement has been sent to "@ + notify
                &&& body == render_body(rec, notify, template)
            },
            Err(_) => false,
        },
    }
}

/// Prepares the document request: reads the configuration, builds the
/// outbound body carrying it, and the confirmation to hand back once
/// the document service has accepted the call. The caller makes the
/// one outbound call with the body and returns the confirmation only
/// on success.
pub fn generate_agreement_as_pdf(
    store: &Store,
    request: &GenerateAgreementAsPDFRequest,
    template: &str,
) -> (r: Result<(GenerateAgreementAsPDFResponse, String), HandlerError>)
    ensures
        render_post(
            store@,
            request@,
            template@,
            match r {
                Ok((resp, body)) => Ok((resp@, body@)),
                Err(e) => Err(e),
            },
        ),
{
    let rec = match get_data(store, StoreKey::Data) {
        None => {
            return Err(HandlerError::NotConstructed);
        },
        Some(rec) => rec,
    };
    let ghost rv = rec@;

    let mut pairs: Vec<(String, String)> = Vec::new();
    match rec.get("_class") {
        Some(AttrValue::S(v)) => {
            pairs.push((String::from_str("$class"), v.clone()));
        },
        _ => {},
    }
    match rec.get("_identifier") {
        Some(AttrValue::S(v)) => {
            pairs.push((String::from_str("$identifier"), v.clone()));
        },
        _ => {},
    }
    match rec.get("clause_id") {
        Some(AttrValue::S(v)) => {
            pairs.push((String::from_str("clauseId"), v.clone()));
        },
        _ => {},
    }
    match rec.get("name") {
        Some(AttrValue::S(v)) => {
            pairs.push((String::from_str("name"), v.clone()));
        },
        _ => {},
    }
    proof {
        assert(pairs@.map_values(|p: (String, String)| (p.0@, p.1@)) =~= data_pairs(rv));
    }

    let mut body = String::from_str("{\"data\":");
    push_char(&mut body, '{');
    append_members(&mut body, &pairs);
    push_char(&mut body, '}');
    body.append(",\"notifyTo\":");
    append_jstr(&mut body, request.notify_to.as_str());
    body.append(",\"template\":");
    append_jstr(&mut body, template);
    body.append(",\"options\":{}}");
    proof {
        assert(body@ =~= render_body(rv, request@, template@));
    }

    let mut msg = String::from_str("Agreement has been sent to ");
    msg.append(request.notify_to.as_str());
    Ok((GenerateAgreementAsPDFResponse { message: msg }, body))
}

/// Relies on chrono's `Utc::now` and `DateTime::to_rfc3339`: the
/// current time as an RFC 3339 timestamp. The value depends on the
/// clock, so nothing is promised of it.
#[verifier::external_body]
fn now_rfc3339() -> (s: String) {
    chrono::Utc::now().to_rfc3339()
}

/// Routes one decoded request to its operation and wraps the outcome
/// in the matching response variant — each request variant maps to
/// exactly one response variant, and operation errors propagate
/// unchanged. For the document request, the returned body must be
/// posted to the document service before the response is delivered;
/// the other variants carry no outbound call.
pub fn function_handler(store: &mut Store, request: RequestType, template: &str) -> (r: Result<
    (ResponseType, Option<String>),
    HandlerError,
>)
    ensures
        match request@ {
            RequestV::Invoke(mq) => match r {
                Ok((resp, body)) => {
                    &&& body is None
                    &&& match resp {
                        ResponseType::MyResponse(m) => invoke_post(
                            old(store)@,
                            final(store)@,
                            mq.class,
                            mq.input,
                            Ok(m@),
                        ),
                        _ => false,
                    }
                },
                Err(e) => invoke_post(old(store)@, final(store)@, mq.class, mq.input, Err(e)),
            },
            RequestV::Construct(c) => match r {
                Ok((resp, body)) => {
                    &&& body is None
                    &&& match resp {
                        ResponseType::HelloWorldClause(cl) => construct_post(
                            old(store)@,
                            final(store)@,
                            c,
                            Ok(cl@),
                        ),
                        _ => false,
                    }
                },
                Err(e) => construct_post(old(store)@, final(store)@, c, Err(e)),
            },
            RequestV::Render(notify) => {
                &&& final(store)@ == old(store)@
                &&& match r {
                    Ok((resp, body)) => {
                        &&& body is Some
                        &&& match resp {
                            ResponseType::GenerateAgreementAsPDFResponse(g) => render_post(
                                old(store)@,
                                notify,
                                template@,
                                Ok((g@, body->Some_0@)),
                            ),
                            _ => false,
                        }
                    },
                    Err(e) => render_post(old(store)@, notify, template@, Err(e)),
                }
            },
        },
{
    match request {
        RequestType::MyRequest(my_request) => {
            let now = now_rfc3339();
            match handle_my_request(store, &my_request, now.as_str()) {
                Ok(resp) => Ok((ResponseType::MyResponse(resp), None)),
                Err(e) => Err(e),
            }
        },
        RequestType::HelloWorldClause(hello_world_clause) => {
            match new(store, hello_world_clause) {
                Ok(cl) => Ok((ResponseType::HelloWorldClause(cl), None)),
                Err(e) => Err(e),
            }
        },
        RequestType::GenerateAgreementAsPDFRequest(request) => {
            match generate_agreement_as_pdf(store, &request, template) {
                Ok((resp, body)) => Ok((
                    ResponseType::GenerateAgreementAsPDFResponse(resp),
                    Some(body),
                )),
                Err(e) => Err(e),
            }
        },
    }
}

} // verus!
