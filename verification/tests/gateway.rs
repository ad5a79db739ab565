use ifdohtem::amount::Amount;
use ifdohtem::caller::{
    payment_envelope_of, AccountEntity, Address, CorporationEntity, IndividualEntity,
};
use ifdohtem::gateway::{
    api_version, base_url, classify, headers, interpret, package, read_receipt, GatewayError,
    GatewayResult, Reply, RequestPayload, Resource,
};
use serde_json::Value;

fn parse(text: &str) -> Value {
    serde_json::from_str(text).unwrap()
}

fn ada() -> IndividualEntity {
    IndividualEntity {
        id: "EMP-1".to_string(),
        branch_id: "BRC-9".to_string(),
        first_name: "Ada".to_string(),
        last_name: "Lovelace".to_string(),
        phone: "+15125550100".to_string(),
        email: None,
        dob: "12-10-1815".to_string(),
        address: None,
    }
}

fn hayes() -> Address {
    Address {
        line1: "999 Hayes Lights".to_string(),
        line2: String::new(),
        city: "Kerlukemouth".to_string(),
        state: "IA".to_string(),
        zip: "67485".to_string(),
    }
}

fn dunkin() -> CorporationEntity {
    CorporationEntity {
        id: "CORP-7".to_string(),
        name: "Dunkin' Donuts LLC".to_string(),
        dba: "Dunkin' Donuts".to_string(),
        ein: "32120240".to_string(),
        owners: None,
        address: hayes(),
    }
}

fn answered(status: u16, body: &str) -> Reply {
    Reply::Answered { status, body: body.to_string() }
}

fn success(result: GatewayResult) -> ifdohtem::gateway::Receipt {
    match result {
        GatewayResult::Success(receipt) => receipt,
        GatewayResult::Failure(error) => panic!("failed with {:?}", error),
    }
}

fn failure(result: GatewayResult) -> GatewayError {
    match result {
        GatewayResult::Failure(error) => error,
        GatewayResult::Success(receipt) => panic!("succeeded with {:?}", receipt),
    }
}

#[test]
fn test_json_maker() {
    let v: CorporationEntity = Default::default();
    let text = v.to_api_request_json().unwrap();
    assert_eq!(
        parse(&text),
        parse(
            r#"{"type":"corporation",
                "corporation":{"id":"","name":"","dba":"","ein":"","owners":null},
                "address":{"line1":"","line2":"","city":"","state":"","zip":""}}"#
        )
    );

    let v: AccountEntity = Default::default();
    let holder = uuid::Uuid::new_v4().to_string();
    let text = v.to_api_request_json(&holder).unwrap();
    let document = parse(&text);
    assert_eq!(document["holder_id"], Value::String(holder));
    assert_eq!(
        document["liability"],
        parse(r#"{"type":"","abarouting":"","account_number":""}"#)
    );
    assert!(document.get("ach").is_none());
}

#[test]
fn individual_envelope_names_its_kind() {
    let text = ada().to_api_request_json().unwrap();
    assert_eq!(
        parse(&text),
        parse(
            r#"{"type":"individual",
                "individual":{"id":"EMP-1","branch_id":"BRC-9","first_name":"Ada",
                              "last_name":"Lovelace","phone":"+15125550100","email":null,
                              "dob":"12-10-1815"},
                "address":null}"#
        )
    );
}

#[test]
fn individual_envelope_carries_email_and_address_where_given() {
    let mut individual = ada();
    individual.email = Some("ada@example.org".to_string());
    individual.address = Some(hayes());
    let document = parse(&individual.to_api_request_json().unwrap());
    assert_eq!(document["individual"]["email"], Value::String("ada@example.org".to_string()));
    assert!(document["individual"].get("address").is_none());
    assert_eq!(
        document["address"],
        parse(
            r#"{"line1":"999 Hayes Lights","line2":"","city":"Kerlukemouth","state":"IA",
                "zip":"67485"}"#
        )
    );
}

#[test]
fn corporation_envelope_carries_the_address_beside_it() {
    let document = parse(&dunkin().to_api_request_json().unwrap());
    assert_eq!(document["type"], Value::String("corporation".to_string()));
    assert_eq!(
        document["corporation"],
        parse(
            r#"{"id":"CORP-7","name":"Dunkin' Donuts LLC","dba":"Dunkin' Donuts",
                "ein":"32120240","owners":null}"#
        )
    );
    assert_eq!(document["address"]["line1"], Value::String("999 Hayes Lights".to_string()));
    assert_eq!(document["address"]["line2"], Value::String(String::new()));
}

#[test]
fn corporation_envelope_lists_its_owners_in_order() {
    let mut second = ada();
    second.id = "EMP-2".to_string();
    let mut corporation = dunkin();
    corporation.owners = Some(vec![ada(), second]);
    let document = parse(&corporation.to_api_request_json().unwrap());
    let owners = document["corporation"]["owners"].as_array().unwrap();
    assert_eq!(owners.len(), 2);
    assert_eq!(owners[0]["id"], Value::String("EMP-1".to_string()));
    assert_eq!(owners[1]["id"], Value::String("EMP-2".to_string()));
    assert_eq!(owners[0], parse(&ada().to_api_request_json().unwrap())["individual"]);
}

#[test]
fn account_with_routing_travels_as_ach() {
    let account = AccountEntity {
        account_type: "checking".to_string(),
        abarouting: "148386123".to_string(),
        account_number: "12719660".to_string(),
    };
    assert_eq!(
        parse(&account.to_api_request_json("C1").unwrap()),
        parse(
            r#"{"holder_id":"C1",
                "ach":{"type":"checking","abarouting":"148386123","account_number":"12719660"}}"#
        )
    );
}

#[test]
fn account_without_routing_travels_as_liability() {
    let loan = AccountEntity {
        account_type: "loan".to_string(),
        abarouting: String::new(),
        account_number: "91400799".to_string(),
    };
    assert_eq!(
        parse(&loan.to_api_request_json("I1").unwrap()),
        parse(
            r#"{"holder_id":"I1",
                "liability":{"type":"loan","abarouting":"","account_number":"91400799"}}"#
        )
    );
}

#[test]
fn texts_are_escaped_by_the_writer() {
    let mut individual = ada();
    individual.first_name = "A \"quoted\" \\ name\n".to_string();
    let text = individual.to_api_request_json().unwrap();
    assert_eq!(
        parse(&text)["individual"]["first_name"],
        Value::String("A \"quoted\" \\ name\n".to_string())
    );
}

#[test]
fn payment_envelope_holds_amount_source_and_destination() {
    let amount = parse("123.45");
    let document = payment_envelope_of(amount, "A1", "L1");
    assert_eq!(
        document,
        parse(r#"{"amount":123.45,"source":"A1","destination":"L1","description":""}"#)
    );
}

#[test]
fn payment_is_prepared_with_its_amount_as_a_number() {
    let payload = RequestPayload::Payment {
        amount: Amount::parse("123.45").unwrap(),
        source: "A1".to_string(),
        destination: "L1".to_string(),
    };
    let request = payload.prepare().unwrap();
    assert_eq!(request.resource, Resource::Payments);
    let document = parse(&request.body);
    assert_eq!(document["amount"].as_f64(), Some(123.45));
    assert_eq!(document["source"], Value::String("A1".to_string()));
    assert_eq!(document["destination"], Value::String("L1".to_string()));
    assert_eq!(document["description"], Value::String(String::new()));
}

#[test]
fn payment_of_a_whole_amount_is_an_integer() {
    let payload = RequestPayload::Payment {
        amount: Amount::parse("5000").unwrap(),
        source: "A1".to_string(),
        destination: "L1".to_string(),
    };
    let document = payload.envelope().unwrap();
    assert_eq!(document["amount"].as_u64(), Some(5000));
}

#[test]
fn payloads_go_to_their_collections() {
    assert_eq!(RequestPayload::Individual(ada()).resource(), Resource::Entities);
    assert_eq!(RequestPayload::Corporation(dunkin()).resource(), Resource::Entities);
    let account = RequestPayload::Account {
        account: AccountEntity::default(),
        holder_id: "C1".to_string(),
    };
    assert_eq!(account.resource(), Resource::Accounts);
    let request = RequestPayload::Individual(ada()).prepare().unwrap();
    assert_eq!(request.resource, Resource::Entities);
    assert_eq!(parse(&request.body), parse(&ada().to_api_request_json().unwrap()));
    let request = account.prepare().unwrap();
    assert_eq!(request.resource, Resource::Accounts);
    assert_eq!(parse(&request.body)["holder_id"], Value::String("C1".to_string()));
}

#[test]
fn collections_have_their_addresses() {
    assert_eq!(base_url(), "https://production.methodfi.com");
    assert_eq!(Resource::Entities.path(), "/entities");
    assert_eq!(Resource::Accounts.path(), "/accounts");
    assert_eq!(Resource::Payments.path(), "/payments");
    assert_eq!(Resource::Entities.url(), "https://production.methodfi.com/entities");
    assert_eq!(Resource::Accounts.url(), "https://production.methodfi.com/accounts");
    assert_eq!(Resource::Payments.url(), "https://production.methodfi.com/payments");
}

#[test]
fn every_request_carries_three_headers() {
    assert_eq!(api_version(), "2024-04-04");
    let list = headers("sk_test");
    assert_eq!(list.len(), 3);
    assert_eq!((list[0].name.as_str(), list[0].value.as_str()), ("Method-Version", "2024-04-04"));
    assert_eq!((list[1].name.as_str(), list[1].value.as_str()), ("Authorization", "Bearer sk_test"));
    assert_eq!(
        (list[2].name.as_str(), list[2].value.as_str()),
        ("Content-Type", "application/json")
    );
}

#[test]
fn a_call_that_never_came_back_is_a_transport_failure() {
    assert_eq!(failure(classify(&Reply::Unreachable)), GatewayError::Transport);
}

#[test]
fn a_status_outside_success_is_a_failure_that_names_it() {
    for status in [0u16, 100, 199, 300, 404, 500, 65535] {
        assert_eq!(
            failure(classify(&answered(status, r#"{"id":"X"}"#))),
            GatewayError::Status(status)
        );
    }
}

#[test]
fn every_status_of_success_is_taken() {
    for status in [200u16, 201, 204, 299] {
        let receipt = success(classify(&answered(status, r#"{"id":"X"}"#)));
        assert_eq!(receipt.id.as_deref(), Some("X"));
    }
}

#[test]
fn a_body_that_is_no_json_is_unparseable() {
    for body in ["", "not json", "{", r#"{"id":"#, r#"{"id":"X"} trailing"#] {
        assert_eq!(failure(classify(&answered(200, body))), GatewayError::Unparseable, "{:?}", body);
    }
}

#[test]
fn a_reply_is_read_for_its_identifier_and_amount() {
    let receipt = success(classify(&answered(200, r#"{"id":"P1","amount":123.45}"#)));
    assert_eq!(receipt.id.as_deref(), Some("P1"));
    assert_eq!(receipt.amount.as_ref().map(|amount| amount.to_text()), Some("123.45".to_string()));
    assert_eq!(receipt.document, parse(r#"{"id":"P1","amount":123.45}"#));
}

#[test]
fn an_identifier_must_be_a_string() {
    for body in [r#"{}"#, r#"{"id":null}"#, r#"{"id":17}"#, r#"{"id":{"v":"X"}}"#, r#"["id"]"#, r#""id""#, "null"] {
        let receipt = success(classify(&answered(200, body)));
        assert!(receipt.id.is_none(), "{:?}", body);
        assert_eq!(receipt.document, parse(body));
    }
}

#[test]
fn an_amount_must_be_a_number() {
    for body in [r#"{}"#, r#"{"amount":"123.45"}"#, r#"{"amount":null}"#, r#"{"amount":true}"#, r#"{"amount":[5]}"#] {
        let receipt = success(classify(&answered(200, body)));
        assert!(receipt.amount.is_none(), "{:?}", body);
    }
}

#[test]
fn every_number_is_read_as_an_amount() {
    let cases = [
        (r#"{"amount":5000}"#, "5000"),
        (r#"{"amount":123.45}"#, "123.45"),
        (r#"{"amount":1.2345e2}"#, "123.45"),
        (r#"{"amount":-5}"#, "-5"),
        (r#"{"amount":-0.75}"#, "-0.75"),
        (r#"{"amount":0}"#, "0"),
        (r#"{"amount":1e30}"#, "1000000000000000000000000000000"),
        (r#"{"amount":-2.5e20}"#, "-250000000000000000000"),
        (r#"{"amount":1.5e-7}"#, "0.00000015"),
        (r#"{"amount":18446744073709551615}"#, "18446744073709551615"),
        (r#"{"amount":-9223372036854775808}"#, "-9223372036854775808"),
    ];
    for (body, written) in cases {
        let receipt = success(classify(&answered(200, body)));
        assert_eq!(receipt.amount.map(|amount| amount.to_text()), Some(written.to_string()), "{}", body);
    }
}

#[test]
fn a_receipt_keeps_the_document_it_was_read_from() {
    let document = parse(r#"{"id":"A1","nested":{"id":"inner"},"list":[1,2,3]}"#);
    let receipt = read_receipt(document.clone());
    assert_eq!(receipt.id.as_deref(), Some("A1"));
    assert!(receipt.amount.is_none());
    assert_eq!(receipt.document, document);
}

#[test]
fn a_parsed_reply_is_interpreted_by_its_status_first() {
    let parsed = serde_json::from_str::<Value>(r#"{"id":"X"}"#);
    assert_eq!(failure(interpret(503, parsed)), GatewayError::Status(503));
    let parsed = serde_json::from_str::<Value>("oops");
    assert_eq!(failure(interpret(200, parsed)), GatewayError::Unparseable);
    let parsed = serde_json::from_str::<Value>("oops");
    assert_eq!(failure(interpret(404, parsed)), GatewayError::Status(404));
    let parsed = serde_json::from_str::<Value>(r#"{"id":"X"}"#);
    assert_eq!(success(interpret(200, parsed)).id.as_deref(), Some("X"));
}

#[test]
fn an_amount_too_large_for_a_json_number_cannot_be_sent() {
    let huge = format!("1{}", "0".repeat(400));
    let payload = RequestPayload::Payment {
        amount: Amount::parse(&huge).unwrap(),
        source: "A1".to_string(),
        destination: "L1".to_string(),
    };
    assert!(payload.envelope().is_none());
    assert_eq!(payload.prepare().unwrap_err(), GatewayError::Encoding);
}

#[test]
fn a_request_is_packaged_as_it_was_written() {
    let request = package(Resource::Accounts, Ok("{\"holder_id\":\"C1\"}".to_string())).unwrap();
    assert_eq!(request.resource, Resource::Accounts);
    assert_eq!(request.body, "{\"holder_id\":\"C1\"}");
    let unwritten = serde_json::from_str::<Value>("no document").unwrap_err();
    assert_eq!(
        package(Resource::Accounts, Err(unwritten)).unwrap_err(),
        GatewayError::Encoding
    );
}

#[test]
fn a_payment_amount_travels_in_its_canonical_spelling() {
    for (amount, written) in [("0007.50", "7.5"), ("12", "12"), (".25", "0.25"), ("3.", "3")] {
        let payload = RequestPayload::Payment {
            amount: Amount::parse(amount).unwrap(),
            source: "A1".to_string(),
            destination: "L1".to_string(),
        };
        let document = payload.envelope().unwrap();
        assert_eq!(document["amount"].to_string(), written, "{}", amount);
    }
}
