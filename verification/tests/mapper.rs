use ifdohtem::caller::{
    row_to_account_entity, row_to_amount, row_to_corporation_entity, row_to_individual_entity,
    row_to_liability_entity, AccountEntity, CorporationEntity, IndividualEntity, MappingError,
};
use ifdohtem::xml_parser::{Address, Employee, Payee, Payor, Root, Row};

fn sample(amount: &str) -> Row {
    Row {
        employee: Employee {
            dunkin_id: "EMP-1".to_string(),
            dunkin_branch: "BRC-9".to_string(),
            first_name: "Ada".to_string(),
            last_name: "Lovelace".to_string(),
            dob: "12-10-1815".to_string(),
            phone_number: "+15125550100".to_string(),
        },
        payor: Payor {
            dunkin_id: "CORP-7".to_string(),
            abarouting: "148386123".to_string(),
            account_number: "12719660".to_string(),
            name: "Dunkin' Donuts LLC".to_string(),
            dba: "Dunkin' Donuts".to_string(),
            ein: "32120240".to_string(),
            address: Address {
                line1: "999 Hayes Lights".to_string(),
                city: "Kerlukemouth".to_string(),
                state: "IA".to_string(),
                zip: "67485".to_string(),
            },
        },
        payee: Payee { plaid_id: "ins_116944".to_string(), account_number: "91400799".to_string() },
        amount: amount.to_string(),
    }
}

#[test]
fn individual_copies_the_employee() {
    let individual: IndividualEntity = row_to_individual_entity(&sample("$1.00")).unwrap();
    assert_eq!(individual.id, "EMP-1");
    assert_eq!(individual.branch_id, "BRC-9");
    assert_eq!(individual.first_name, "Ada");
    assert_eq!(individual.last_name, "Lovelace");
    assert_eq!(individual.dob, "12-10-1815");
    assert_eq!(individual.phone, "+15125550100");
    assert!(individual.email.is_none());
    assert!(individual.address.is_none());
}

#[test]
fn corporation_copies_the_payor() {
    let corporation: CorporationEntity = row_to_corporation_entity(&sample("$1.00")).unwrap();
    assert_eq!(corporation.id, "CORP-7");
    assert_eq!(corporation.name, "Dunkin' Donuts LLC");
    assert_eq!(corporation.dba, "Dunkin' Donuts");
    assert_eq!(corporation.ein, "32120240");
    assert!(corporation.owners.is_none());
    assert_eq!(corporation.address.line1, "999 Hayes Lights");
    assert_eq!(corporation.address.line2, "");
    assert_eq!(corporation.address.city, "Kerlukemouth");
    assert_eq!(corporation.address.state, "IA");
    assert_eq!(corporation.address.zip, "67485");
}

#[test]
fn account_is_the_payors_checking_account() {
    let account: AccountEntity = row_to_account_entity(&sample("$1.00")).unwrap();
    assert_eq!(account.account_type, "checking");
    assert_eq!(account.abarouting, "148386123");
    assert_eq!(account.account_number, "12719660");
}

#[test]
fn liability_is_the_payees_loan_without_routing() {
    let liability: AccountEntity = row_to_liability_entity(&sample("$1.00")).unwrap();
    assert_eq!(liability.account_type, "loan");
    assert_eq!(liability.abarouting, "");
    assert_eq!(liability.account_number, "91400799");
}

#[test]
fn payloads_do_not_depend_on_the_amount() {
    let row = sample("not an amount");
    assert!(row_to_individual_entity(&row).is_ok());
    assert!(row_to_corporation_entity(&row).is_ok());
    assert!(row_to_account_entity(&row).is_ok());
    assert!(row_to_liability_entity(&row).is_ok());
    assert_eq!(row_to_amount(&row).unwrap_err(), MappingError::MalformedAmount);
}

#[test]
fn amount_is_the_decimal_behind_the_first_character() {
    assert_eq!(row_to_amount(&sample("+123.45")).unwrap().to_text(), "123.45");
    assert_eq!(row_to_amount(&sample("$6.50")).unwrap().to_text(), "6.50");
    assert_eq!(row_to_amount(&sample("-10")).unwrap().to_text(), "10");
    assert_eq!(row_to_amount(&sample("x.5")).unwrap().to_text(), "0.5");
}

#[test]
fn amount_equals_the_float_the_text_writes() {
    let text = row_to_amount(&sample("+123.45")).unwrap().to_text();
    assert_eq!(text.parse::<f64>().unwrap(), 123.45);
}

#[test]
fn first_character_is_dropped_whatever_it_is() {
    assert_eq!(row_to_amount(&sample("€20.00")).unwrap().to_text(), "20.00");
    assert_eq!(row_to_amount(&sample("912")).unwrap().to_text(), "12");
}

#[test]
fn amount_without_a_decimal_is_malformed() {
    for amount in ["", "$", "$ ", "$.", "$1.2.3", "$$5", "$+5", "$1e3", "$12 ", "$abc"] {
        assert_eq!(
            row_to_amount(&sample(amount)).unwrap_err(),
            MappingError::MalformedAmount,
            "{:?}",
            amount
        );
    }
}

#[test]
fn a_batch_keeps_its_records_in_order() {
    let root = Root { row: vec![sample("$1"), sample("$2")] };
    assert_eq!(root.row.len(), 2);
    assert_eq!(root.row[0].amount, "$1");
    assert_eq!(root.row[1].amount, "$2");
    let copy = root.clone();
    assert_eq!(copy.row[1].payee.plaid_id, "ins_116944");
}
