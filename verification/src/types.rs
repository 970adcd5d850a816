//! Typed request/response envelopes of the clause protocol, the clause
//! data/state entities, and the closed set of handler error kinds.

use vstd::prelude::*;

verus! {

/// Error kinds surfaced to the caller of the handler. Every failure of
/// an operation is one of these; none is silently recovered from.
#[derive(Clone, Copy, Debug, PartialEq, Eq, Structural)]
pub enum HandlerError {
    /// The inbound envelope could not be parsed into a known variant's shape.
    DecodeError,
    /// The envelope's discriminator matches no known operation.
    UnknownOperation,
    /// An operation ran against a clause whose `data` record does not exist.
    NotConstructed,
    /// A record was read but a required field is absent.
    MalformedData,
    /// A backing-store call failed.
    StoreUnavailable,
    /// The counter field is absent on the state record.
    FieldMissing,
    /// The stored counter value is not a representable number.
    TypeMismatch,
    /// The outbound document-service call failed.
    TransportError,
    /// A required configuration value is absent.
    ConfigMissing,
}

/// Invocation request: the caller's input for one clause invocation.
#[derive(Debug)]
pub struct MyRequest {
    pub _class: String,
    pub input: String,
    pub _timestamp: String,
}

/// Spec-level value of a [`MyRequest`].
pub struct MyRequestV {
    pub class: Seq<char>,
    pub input: Seq<char>,
    pub timestamp: Seq<char>,
}

impl View for MyRequest {
    type V = MyRequestV;

    open spec fn view(&self) -> MyRequestV {
        MyRequestV { class: self._class@, input: self.input@, timestamp: self._timestamp@ }
    }
}

/// Invocation response: the composed output for one clause invocation.
#[derive(Debug)]
pub struct MyResponse {
    pub _class: String,
    pub output: String,
    pub _timestamp: String,
}

/// Spec-level value of a [`MyResponse`].
pub struct MyResponseV {
    pub class: Seq<char>,
    pub output: Seq<char>,
    pub timestamp: Seq<char>,
}

impl View for MyResponse {
    type V = MyResponseV;

    open spec fn view(&self) -> MyResponseV {
        MyResponseV { class: self._class@, output: self.output@, timestamp: self._timestamp@ }
    }
}

/// Mutable runtime state of a clause instance: the shared counter.
#[derive(Debug)]
pub struct HelloWorldState {
    pub _class: String,
    pub counter: i64,
    pub _identifier: String,
}

/// Spec-level value of a [`HelloWorldState`].
pub struct HelloWorldStateV {
    pub class: Seq<char>,
    pub counter: int,
    pub identifier: Seq<char>,
}

impl View for HelloWorldState {
    type V = HelloWorldStateV;

    open spec fn view(&self) -> HelloWorldStateV {
        HelloWorldStateV {
            class: self._class@,
            counter: self.counter as int,
            identifier: self._identifier@,
        }
    }
}

/// Immutable configuration of a clause instance, written once at
/// construction time and read thereafter.
#[derive(Debug)]
pub struct HelloWorldClause {
    pub _class: String,
    pub name: String,
    pub clause_id: String,
    pub _identifier: String,
}

/// Spec-level value of a [`HelloWorldClause`].
pub struct HelloWorldClauseV {
    pub class: Seq<char>,
    pub name: Seq<char>,
    pub clause_id: Seq<char>,
    pub identifier: Seq<char>,
}

impl View for HelloWorldClause {
    type V = HelloWorldClauseV;

    open spec fn view(&self) -> HelloWorldClauseV {
        HelloWorldClauseV {
            class: self._class@,
            name: self.name@,
            clause_id: self.clause_id@,
            identifier: self._identifier@,
        }
    }
}

/// Request to generate the agreement document and notify an address.
#[derive(Debug)]
pub struct GenerateAgreementAsPDFRequest {
    pub notify_to: String,
}

impl View for GenerateAgreementAsPDFRequest {
    type V = Seq<char>;

    open spec fn view(&self) -> Seq<char> {
        self.notify_to@
    }
}

/// Confirmation that the agreement document was sent.
#[derive(Debug)]
pub struct GenerateAgreementAsPDFResponse {
    pub message: String,
}

impl View for GenerateAgreementAsPDFResponse {
    type V = Seq<char>;

    open spec fn view(&self) -> Seq<char> {
        self.message@
    }
}

/// The closed set of operation variants a request envelope can carry.
#[derive(Debug)]
pub enum RequestType {
    MyRequest(MyRequest),
    HelloWorldClause(HelloWorldClause),
    GenerateAgreementAsPDFRequest(GenerateAgreementAsPDFRequest),
}

/// Spec-level value of a [`RequestType`].
pub enum RequestV {
    Invoke(MyRequestV),
    Construct(HelloWorldClauseV),
    Render(Seq<char>),
}

impl View for RequestType {
    type V = RequestV;

    open spec fn view(&self) -> RequestV {
        match self {
            RequestType::MyRequest(r) => RequestV::Invoke(r@),
            RequestType::HelloWorldClause(c) => RequestV::Construct(c@),
            RequestType::GenerateAgreementAsPDFRequest(r) => RequestV::Render(r@),
        }
    }
}

/// The closed set of response variants, one per request variant.
#[derive(Debug)]
pub enum ResponseType {
    MyResponse(MyResponse),
    HelloWorldClause(HelloWorldClause),
    GenerateAgreementAsPDFResponse(GenerateAgreementAsPDFResponse),
}

/// Spec-level value of a [`ResponseType`].
pub enum ResponseV {
    Invoke(MyResponseV),
    Construct(HelloWorldClauseV),
    Render(Seq<char>),
}

impl View for ResponseType {
    type V = ResponseV;

    open spec fn view(&self) -> ResponseV {
        match self {
            ResponseType::MyResponse(r) => ResponseV::Invoke(r@),
            ResponseType::HelloWorldClause(c) => ResponseV::Construct(c@),
            ResponseType::GenerateAgreementAsPDFResponse(r) => ResponseV::Render(r@),
        }
    }
}

} // verus!
