//! The gateway client's part that computes: what is sent for a payload, and
//! what a reply means. Sending is left to the caller.

use crate::amount::{spelling, Amount, Decimal};
use crate::caller::{
    account_envelope, corporation_envelope, individual_envelope, payment_envelope,
    payment_envelope_of, AccountEntity, AccountView, CorporationEntity, CorporationView,
    IndividualEntity, IndividualView,
};
use crate::json::{
    json_doc, json_number, json_parsed, json_rendered, member_of, number_text_of, number_value,
    parse_value, render_value, text_of, JsonDoc,
};
use crate::signed::{signed_decimal_of, SignedAmount, SignedDecimal};
use vstd::prelude::*;
use vstd::string::StringExecFns;

verus! {

/// The collection of the platform that a request goes to.
#[derive(Clone, Copy, Debug, PartialEq, Eq, Structural)]
pub enum Resource {
    Entities,
    Accounts,
    Payments,
}

/// One object to create on the platform.
#[derive(Debug)]
pub enum RequestPayload {
    Individual(IndividualEntity),
    Corporation(CorporationEntity),
    /// A checking account or a loan, for the entity that holds it.
    Account { account: AccountEntity, holder_id: String },
    /// A payment from one account into another.
    Payment { amount: Amount, source: String, destination: String },
}

/// A payload, as the contracts see one.
pub enum PayloadView {
    Individual(IndividualView),
    Corporation(CorporationView),
    Account { account: AccountView, holder_id: Seq<char> },
    Payment { amount: Decimal, source: Seq<char>, destination: Seq<char> },
}

impl View for RequestPayload {
    type V = PayloadView;

    open spec fn view(&self) -> PayloadView {
        match self {
            RequestPayload::Individual(individual) => PayloadView::Individual(individual@),
            RequestPayload::Corporation(corporation) => PayloadView::Corporation(corporation@),
            RequestPayload::Account { account, holder_id } => PayloadView::Account {
                account: account@,
                holder_id: holder_id@,
            },
            RequestPayload::Payment { amount, source, destination } => PayloadView::Payment {
                amount: amount@,
                source: source@,
                destination: destination@,
            },
        }
    }
}

impl PayloadView {
    /// Where a payload goes: persons and corporations to the entities,
    /// accounts and loans to the accounts, payments to the payments.
    pub open spec fn resource(self) -> Resource {
        match self {
            PayloadView::Individual(_) => Resource::Entities,
            PayloadView::Corporation(_) => Resource::Entities,
            PayloadView::Account { .. } => Resource::Accounts,
            PayloadView::Payment { .. } => Resource::Payments,
        }
    }

    /// The request for this payload, as a document. A payment's amount
    /// travels as the number that `serde_json` reads from the canonical
    /// spelling of the amount; where it reads none, there is no request.
    pub open spec fn request(self) -> Option<JsonDoc> {
        match self {
            PayloadView::Individual(individual) => Some(individual_envelope(individual)),
            PayloadView::Corporation(corporation) => Some(corporation_envelope(corporation)),
            PayloadView::Account { account, holder_id } => Some(
                account_envelope(account, holder_id),
            ),
            PayloadView::Payment { amount, source, destination } => match json_number(
                spelling(amount),
            ) {
                Some(number) => Some(payment_envelope(number, source, destination)),
                None => None,
            },
        }
    }

    /// The JSON text of the request for this payload: what `serde_json`
    /// writes for the request, where there is one.
    pub open spec fn body(self) -> Option<Seq<char>> {
        match self.request() {
            Some(request) => Some(json_rendered(request)),
            None => None,
        }
    }
}

/// Why a call did not yield a result.
#[derive(Clone, Copy, Debug, PartialEq, Eq, Structural)]
pub enum GatewayError {
    /// The request could not be written.
    Encoding,
    /// No reply came back.
    Transport,
    /// The reply's status was not one of success; it is given.
    Status(u16),
    /// The reply's body was not JSON.
    Unparseable,
}

/// What is to be sent for one payload.
#[derive(Debug)]
pub struct GatewayRequest {
    pub resource: Resource,
    pub body: String,
}

/// One header of a request.
#[derive(Debug)]
pub struct Header {
    pub name: String,
    pub value: String,
}

/// What came back from a call, before anything is made of it.
#[derive(Debug)]
pub enum Reply {
    /// The call failed on the way.
    Unreachable,
    /// The platform answered.
    Answered { status: u16, body: String },
}

/// A reply that was understood: the document, and what the batch reads in it.
#[derive(Debug)]
pub struct Receipt {
    /// The member `id`, where it is a string.
    pub id: Option<String>,
    /// The member `amount`, where it is a number.
    pub amount: Option<SignedAmount>,
    /// The reply as it came.
    pub document: serde_json::Value,
}

/// The result of one call.
#[derive(Debug)]
pub enum GatewayResult {
    Success(Receipt),
    Failure(GatewayError),
}

impl Receipt {
    /// The identifier, as the contracts see it.
    pub open spec fn id_view(self) -> Option<Seq<char>> {
        match self.id {
            Some(id) => Some(id@),
            None => None,
        }
    }

    /// The amount, as the contracts see it.
    pub open spec fn amount_view(self) -> Option<SignedDecimal> {
        match self.amount {
            Some(amount) => Some(amount@),
            None => None,
        }
    }

    /// Whether the receipt holds what `doc` holds.
    pub open spec fn reads(self, doc: JsonDoc) -> bool {
        &&& json_doc(self.document) == doc
        &&& self.id_view() == identifier_in(doc)
        &&& self.amount_view() == amount_in(doc)
    }
}

/// The identifier in a document: its member `id`, where that is a string.
pub open spec fn identifier_in(doc: JsonDoc) -> Option<Seq<char>> {
    match doc.member("id"@) {
        Some(JsonDoc::Text(id)) => Some(id),
        _ => None,
    }
}

/// The amount in a document: its member `amount`, where that is a number,
/// read exactly, with its sign and its power of ten.
pub open spec fn amount_in(doc: JsonDoc) -> Option<SignedDecimal> {
    match doc.member("amount"@) {
        Some(JsonDoc::Number(text)) => signed_decimal_of(text),
        _ => None,
    }
}

/// Whether a status is one of success.
pub open spec fn is_success(status: u16) -> bool {
    200 <= status <= 299
}

/// The base address of the platform.
pub fn base_url() -> (url: &'static str)
    ensures
        url@ == "https://production.methodfi.com"@,
{
    "https://production.methodfi.com"
}

/// The version of the platform's interface that every request names.
pub fn api_version() -> (version: &'static str)
    ensures
        version@ == "2024-04-04"@,
{
    "2024-04-04"
}

impl Resource {
    /// The path of the collection below the base address.
    pub fn path(&self) -> (path: &'static str)
        ensures
            path@ == match *self {
                Resource::Entities => "/entities"@,
                Resource::Accounts => "/accounts"@,
                Resource::Payments => "/payments"@,
            },
    {
        match self {
            Resource::Entities => "/entities",
            Resource::Accounts => "/accounts",
            Resource::Payments => "/payments",
        }
    }

    /// The address that requests for the collection are posted to.
    pub fn url(&self) -> (url: String)
        ensures
            url@ == "https://production.methodfi.com"@ + match *self {
                Resource::Entities => "/entities"@,
                Resource::Accounts => "/accounts"@,
                Resource::Payments => "/payments"@,
            },
    {
        let mut url = String::from_str(base_url());
        url.append(self.path());
        url
    }
}

/// The headers that every request carries: the interface version, the
/// bearer credential, and the JSON content type, in this order.
pub fn headers(token: &str) -> (list: Vec<Header>)
    ensures
        list@.len() == 3,
        list@[0].name@ == "Method-Version"@,
        list@[0].value@ == "2024-04-04"@,
        list@[1].name@ == "Authorization"@,
        list@[1].value@ == "Bearer "@ + token@,
        list@[2].name@ == "Content-Type"@,
        list@[2].value@ == "application/json"@,
{
    let mut credential = String::from_str("Bearer ");
    credential.append(token);
    let mut list: Vec<Header> = Vec::new();
    list.push(
        Header { name: String::from_str("Method-Version"), value: String::from_str(api_version()) },
    );
    list.push(Header { name: String::from_str("Authorization"), value: credential });
    list.push(
        Header {
            name: String::from_str("Content-Type"),
            value: String::from_str("application/json"),
        },
    );
    list
}

impl RequestPayload {
    /// Where the payload goes.
    pub fn resource(&self) -> (resource: Resource)
        ensures
            resource == self@.resource(),
    {
        match self {
            RequestPayload::Individual(_) => Resource::Entities,
            RequestPayload::Corporation(_) => Resource::Entities,
            RequestPayload::Account { .. } => Resource::Accounts,
            RequestPayload::Payment { .. } => Resource::Payments,
        }
    }

    /// The request for the payload, as a document; none for a payment whose
    /// amount `serde_json` does not read as a number.
    pub fn envelope(&self) -> (r: Option<serde_json::Value>)
        ensures
            match r {
                Some(value) => self@.request() == Some(json_doc(value)),
                None => self@.request() is None,
            },
    {
        match self {
            RequestPayload::Individual(individual) => Some(individual.envelope()),
            RequestPayload::Corporation(corporation) => Some(corporation.envelope()),
            RequestPayload::Account { account, holder_id } => Some(
                account.envelope(holder_id.as_str()),
            ),
            RequestPayload::Payment { amount, source, destination } => {
                let spelling = amount.to_text();
                match number_value(spelling.as_str()) {
                    Some(number) => Some(
                        payment_envelope_of(number, source.as_str(), destination.as_str()),
                    ),
                    None => None,
                }
            },
        }
    }

    /// What is to be sent for the payload: where it goes, and the JSON text
    /// of its request. It fails, with `Encoding`, exactly where there is no
    /// request for the payload: for a payment whose amount `serde_json` does
    /// not read as a number.
    pub fn prepare(&self) -> (r: Result<GatewayRequest, GatewayError>)
        ensures
            match r {
                Ok(request) => {
                    &&& request.resource == self@.resource()
                    &&& self@.body() == Some(request.body@)
                },
                Err(error) => error == GatewayError::Encoding && self@.body() is None,
            },
    {
        match self.envelope() {
            Some(envelope) => package(self.resource(), render_value(&envelope)),
            None => Err(GatewayError::Encoding),
        }
    }
}

/// What is to be sent, once the request has been through the JSON writer:
/// the text that was written, for the collection it goes to; an `Encoding`
/// failure where none was.
pub fn package(resource: Resource, written: Result<String, serde_json::Error>) -> (r: Result<
    GatewayRequest,
    GatewayError,
>)
    ensures
        match written {
            Ok(body) => r matches Ok(request) && request.resource == resource && request.body
                == body,
            Err(_) => r matches Err(error) && error == GatewayError::Encoding,
        },
{
    match written {
        Ok(body) => Ok(GatewayRequest { resource, body }),
        Err(_) => Err(GatewayError::Encoding),
    }
}

/// Reads what the batch needs from a reply's document.
pub fn read_receipt(document: serde_json::Value) -> (receipt: Receipt)
    ensures
        receipt.document == document,
        receipt.reads(json_doc(document)),
{
    let id = match member_of(&document, "id") {
        Some(member) => match text_of(member) {
            Some(text) => Some(String::from_str(text)),
            None => None,
        },
        None => None,
    };
    let amount = match member_of(&document, "amount") {
        Some(member) => match number_text_of(member) {
            Some(spelling) => SignedAmount::parse(spelling.as_str()),
            None => None,
        },
        None => None,
    };
    Receipt { id, amount, document }
}

/// What a reply means, once its body has been through the JSON parser:
/// a status that is not one of success is a failure that names it; a body
/// that did not parse is unparseable; any other reply is a success.
pub fn interpret(status: u16, parsed: Result<serde_json::Value, serde_json::Error>) -> (result:
    GatewayResult)
    ensures
        !is_success(status) ==> result == GatewayResult::Failure(GatewayError::Status(status)),
        is_success(status) && parsed is Err ==> result == GatewayResult::Failure(
            GatewayError::Unparseable,
        ),
        is_success(status) && parsed is Ok ==> result is Success && result->Success_0.document
            == parsed->Ok_0 && result->Success_0.reads(json_doc(parsed->Ok_0)),
{
    if status < 200 || status > 299 {
        return GatewayResult::Failure(GatewayError::Status(status));
    }
    match parsed {
        Ok(document) => GatewayResult::Success(read_receipt(document)),
        Err(_) => GatewayResult::Failure(GatewayError::Unparseable),
    }
}

/// What a reply means: a call that failed on the way is a transport
/// failure; a status that is not one of success is a failure that names it;
/// a body that `serde_json` does not read is unparseable; any other reply is
/// a success that holds the document read.
pub fn classify(reply: &Reply) -> (result: GatewayResult)
    ensures
        match *reply {
            Reply::Unreachable => result == GatewayResult::Failure(GatewayError::Transport),
            Reply::Answered { status, body } => if !is_success(status) {
                result == GatewayResult::Failure(GatewayError::Status(status))
            } else {
                match json_parsed(body@) {
                    Some(doc) => result is Success && result->Success_0.reads(doc),
                    None => result == GatewayResult::Failure(GatewayError::Unparseable),
                }
            },
        },
{
    match reply {
        Reply::Unreachable => GatewayResult::Failure(GatewayError::Transport),
        Reply::Answered { status, body } => {
            if *status < 200 || *status > 299 {
                GatewayResult::Failure(GatewayError::Status(*status))
            } else {
                interpret(*status, parse_value(body.as_str()))
            }
        },
    }
}

} // verus!
