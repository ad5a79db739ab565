//! What the payments platform is asked to create for one record: the typed
//! payloads, and the mapping from a record to each of them.

use crate::amount::{decimal_of, Amount, Decimal};
use crate::json::{
    is_written, json_doc, list_value, new_members, null_value, object_value, put_member,
    render_value, text_value, JsonDoc,
};
use crate::xml_parser::Row;
use vstd::prelude::*;

verus! {

/// Why a record could not be mapped.
#[derive(Clone, Copy, Debug, PartialEq, Eq, Structural)]
pub enum MappingError {
    /// The amount is not a marker followed by a decimal.
    MalformedAmount,
}

/// A postal address as the platform takes it.
#[derive(Debug, Clone)]
pub struct Address {
    pub line1: String,
    pub line2: String,
    pub city: String,
    pub state: String,
    pub zip: String,
}

/// A person to be created on the platform.
#[derive(Debug, Clone)]
pub struct IndividualEntity {
    pub id: String,
    pub branch_id: String,
    pub first_name: String,
    pub last_name: String,
    pub phone: String,
    pub email: Option<String>,
    pub dob: String,
    pub address: Option<Address>,
}

/// A corporation to be created on the platform.
#[derive(Debug, Clone)]
pub struct CorporationEntity {
    pub id: String,
    pub name: String,
    pub dba: String,
    pub ein: String,
    pub owners: Option<Vec<IndividualEntity>>,
    pub address: Address,
}

/// A bank account or a loan to be created on the platform. One without a
/// routing number is a liability.
#[derive(Debug, Clone)]
pub struct AccountEntity {
    pub account_type: String,
    pub abarouting: String,
    pub account_number: String,
}

/// An address, as the contracts see it.
pub struct AddressView {
    pub line1: Seq<char>,
    pub line2: Seq<char>,
    pub city: Seq<char>,
    pub state: Seq<char>,
    pub zip: Seq<char>,
}

/// A person, as the contracts see one.
pub struct IndividualView {
    pub id: Seq<char>,
    pub branch_id: Seq<char>,
    pub first_name: Seq<char>,
    pub last_name: Seq<char>,
    pub phone: Seq<char>,
    pub email: Option<Seq<char>>,
    pub dob: Seq<char>,
    pub address: Option<AddressView>,
}

/// A corporation, as the contracts see one.
pub struct CorporationView {
    pub id: Seq<char>,
    pub name: Seq<char>,
    pub dba: Seq<char>,
    pub ein: Seq<char>,
    pub owners: Option<Seq<IndividualView>>,
    pub address: AddressView,
}

/// An account, as the contracts see one.
pub struct AccountView {
    pub account_type: Seq<char>,
    pub abarouting: Seq<char>,
    pub account_number: Seq<char>,
}

impl View for Address {
    type V = AddressView;

    open spec fn view(&self) -> AddressView {
        AddressView {
            line1: self.line1@,
            line2: self.line2@,
            city: self.city@,
            state: self.state@,
            zip: self.zip@,
        }
    }
}

impl View for IndividualEntity {
    type V = IndividualView;

    open spec fn view(&self) -> IndividualView {
        IndividualView {
            id: self.id@,
            branch_id: self.branch_id@,
            first_name: self.first_name@,
            last_name: self.last_name@,
            phone: self.phone@,
            email: match self.email {
                Some(email) => Some(email@),
                None => None,
            },
            dob: self.dob@,
            address: match self.address {
                Some(address) => Some(address@),
                None => None,
            },
        }
    }
}

impl View for CorporationEntity {
    type V = CorporationView;

    open spec fn view(&self) -> CorporationView {
        CorporationView {
            id: self.id@,
            name: self.name@,
            dba: self.dba@,
            ein: self.ein@,
            owners: match self.owners {
                Some(owners) => Some(owners@.map_values(|owner: IndividualEntity| owner@)),
                None => None,
            },
            address: self.address@,
        }
    }
}

impl View for AccountEntity {
    type V = AccountView;

    open spec fn view(&self) -> AccountView {
        AccountView {
            account_type: self.account_type@,
            abarouting: self.abarouting@,
            account_number: self.account_number@,
        }
    }
}

impl Default for Address {
    /// The address with every line empty.
    fn default() -> (address: Address)
        ensures
            address@ == (AddressView {
                line1: Seq::empty(),
                line2: Seq::empty(),
                city: Seq::empty(),
                state: Seq::empty(),
                zip: Seq::empty(),
            }),
    {
        Address {
            line1: String::new(),
            line2: String::new(),
            city: String::new(),
            state: String::new(),
            zip: String::new(),
        }
    }
}

impl Default for IndividualEntity {
    /// The person with every text empty, no e-mail address and no address.
    fn default() -> (individual: IndividualEntity)
        ensures
            individual@ == (IndividualView {
                id: Seq::empty(),
                branch_id: Seq::empty(),
                first_name: Seq::empty(),
                last_name: Seq::empty(),
                phone: Seq::empty(),
                email: None,
                dob: Seq::empty(),
                address: None,
            }),
    {
        IndividualEntity {
            id: String::new(),
            branch_id: String::new(),
            first_name: String::new(),
            last_name: String::new(),
            phone: String::new(),
            email: None,
            dob: String::new(),
            address: None,
        }
    }
}

impl Default for CorporationEntity {
    /// The corporation with every text empty, no owners and an empty address.
    fn default() -> (corporation: CorporationEntity)
        ensures
            corporation@ == (CorporationView {
                id: Seq::empty(),
                name: Seq::empty(),
                dba: Seq::empty(),
                ein: Seq::empty(),
                owners: None,
                address: AddressView {
                    line1: Seq::empty(),
                    line2: Seq::empty(),
                    city: Seq::empty(),
                    state: Seq::empty(),
                    zip: Seq::empty(),
                },
            }),
    {
        CorporationEntity {
            id: String::new(),
            name: String::new(),
            dba: String::new(),
            ein: String::new(),
            owners: None,
            address: Address::default(),
        }
    }
}

impl Default for AccountEntity {
    /// The account with every text empty: a liability without a kind.
    fn default() -> (account: AccountEntity)
        ensures
            account@ == (AccountView {
                account_type: Seq::empty(),
                abarouting: Seq::empty(),
                account_number: Seq::empty(),
            }),
    {
        AccountEntity {
            account_type: String::new(),
            abarouting: String::new(),
            account_number: String::new(),
        }
    }
}

/// The person that a record names: the employee's identity, copied field by
/// field, without an e-mail address and without a postal address.
pub open spec fn individual_of(row: Row) -> IndividualView {
    IndividualView {
        id: row.employee.dunkin_id@,
        branch_id: row.employee.dunkin_branch@,
        first_name: row.employee.first_name@,
        last_name: row.employee.last_name@,
        phone: row.employee.phone_number@,
        email: None,
        dob: row.employee.dob@,
        address: None,
    }
}

/// The corporation that a record names: the payor's identity and tax
/// fields, its address with an empty second line, and no owners.
pub open spec fn corporation_of(row: Row) -> CorporationView {
    CorporationView {
        id: row.payor.dunkin_id@,
        name: row.payor.name@,
        dba: row.payor.dba@,
        ein: row.payor.ein@,
        owners: None,
        address: AddressView {
            line1: row.payor.address.line1@,
            line2: Seq::empty(),
            city: row.payor.address.city@,
            state: row.payor.address.state@,
            zip: row.payor.address.zip@,
        },
    }
}

/// The checking account that a record pays from.
pub open spec fn account_of(row: Row) -> AccountView {
    AccountView {
        account_type: "checking"@,
        abarouting: row.payor.abarouting@,
        account_number: row.payor.account_number@,
    }
}

/// The loan that a record pays into. It has no routing number.
pub open spec fn liability_of(row: Row) -> AccountView {
    AccountView {
        account_type: "loan"@,
        abarouting: Seq::empty(),
        account_number: row.payee.account_number@,
    }
}

/// The amount that a record pays: the decimal that its amount text writes
/// behind the first character. A text without a first character, or with
/// anything but a decimal behind it, names no amount.
pub open spec fn amount_of(row: Row) -> Option<Decimal> {
    if row.amount@.len() == 0 {
        None
    } else {
        decimal_of(row.amount@.skip(1))
    }
}

/// Maps a record to the person to create.
pub fn row_to_individual_entity(row: &Row) -> (r: Result<IndividualEntity, MappingError>)
    ensures
        r matches Ok(individual) && individual@ == individual_of(*row),
{
    Ok(
        IndividualEntity {
            id: row.employee.dunkin_id.clone(),
            branch_id: row.employee.dunkin_branch.clone(),
            first_name: row.employee.first_name.clone(),
            last_name: row.employee.last_name.clone(),
            phone: row.employee.phone_number.clone(),
            email: None,
            dob: row.employee.dob.clone(),
            address: None,
        },
    )
}

/// Maps a record to the corporation to create.
pub fn row_to_corporation_entity(row: &Row) -> (r: Result<CorporationEntity, MappingError>)
    ensures
        r matches Ok(corporation) && corporation@ == corporation_of(*row),
{
    Ok(
        CorporationEntity {
            id: row.payor.dunkin_id.clone(),
            name: row.payor.name.clone(),
            dba: row.payor.dba.clone(),
            ein: row.payor.ein.clone(),
            owners: None,
            address: Address {
                line1: row.payor.address.line1.clone(),
                line2: String::new(),
                city: row.payor.address.city.clone(),
                state: row.payor.address.state.clone(),
                zip: row.payor.address.zip.clone(),
            },
        },
    )
}

/// Maps a record to the checking account to create.
pub fn row_to_account_entity(row: &Row) -> (r: Result<AccountEntity, MappingError>)
    ensures
        r matches Ok(account) && account@ == account_of(*row),
{
    Ok(
        AccountEntity {
            account_type: "checking".to_owned(),
            abarouting: row.payor.abarouting.clone(),
            account_number: row.payor.account_number.clone(),
        },
    )
}

/// Maps a record to the loan to create.
pub fn row_to_liability_entity(row: &Row) -> (r: Result<AccountEntity, MappingError>)
    ensures
        r matches Ok(liability) && liability@ == liability_of(*row),
{
    Ok(
        AccountEntity {
            account_type: "loan".to_owned(),
            abarouting: String::new(),
            account_number: row.payee.account_number.clone(),
        },
    )
}

/// Reads the amount that a record pays.
pub fn row_to_amount(row: &Row) -> (r: Result<Amount, MappingError>)
    ensures
        match r {
            Ok(amount) => amount_of(*row) == Some(amount@),
            Err(error) => amount_of(*row) is None && error == MappingError::MalformedAmount,
        },
{
    let text = row.amount.as_str();
    let length = text.unicode_len();
    if length == 0 {
        return Err(MappingError::MalformedAmount);
    }
    let decimal = text.substring_char(1, length);
    assert(decimal@ =~= text@.skip(1));
    match Amount::parse(decimal) {
        Some(amount) => Ok(amount),
        None => Err(MappingError::MalformedAmount),
    }
}

/// The mapper covers every record: it names one person, one corporation, one
/// checking account and one loan, whatever the amount text is, and it names
/// an amount exactly where the amount text is one character followed by a
/// decimal; that amount is the decimal.
pub proof fn law_mapper_covers_record(row: Row)
    ensures
        amount_of(row) is Some <==> row.amount@.len() >= 1 && decimal_of(row.amount@.skip(1))
            is Some,
        amount_of(row) is Some ==> amount_of(row) == decimal_of(row.amount@.skip(1)),
        individual_of(row).id == row.employee.dunkin_id@,
        corporation_of(row).id == row.payor.dunkin_id@,
        account_of(row).account_number == row.payor.account_number@,
        liability_of(row).account_number == row.payee.account_number@,
{
}

/// The document of an address.
pub open spec fn address_doc(address: AddressView) -> JsonDoc {
    JsonDoc::Object(
        map![
            "line1"@ => JsonDoc::Text(address.line1),
            "line2"@ => JsonDoc::Text(address.line2),
            "city"@ => JsonDoc::Text(address.city),
            "state"@ => JsonDoc::Text(address.state),
            "zip"@ => JsonDoc::Text(address.zip),
        ],
    )
}

/// The document of a text that may be missing: the text, or null.
pub open spec fn optional_text_doc(text: Option<Seq<char>>) -> JsonDoc {
    match text {
        Some(text) => JsonDoc::Text(text),
        None => JsonDoc::Null,
    }
}

/// The document of a person. The postal address is not part of it.
pub open spec fn individual_doc(individual: IndividualView) -> JsonDoc {
    JsonDoc::Object(
        map![
            "id"@ => JsonDoc::Text(individual.id),
            "branch_id"@ => JsonDoc::Text(individual.branch_id),
            "first_name"@ => JsonDoc::Text(individual.first_name),
            "last_name"@ => JsonDoc::Text(individual.last_name),
            "phone"@ => JsonDoc::Text(individual.phone),
            "email"@ => optional_text_doc(individual.email),
            "dob"@ => JsonDoc::Text(individual.dob),
        ],
    )
}

/// The request to create a person: the discriminant `individual`, the
/// person under that key, and beside it the address, or null without one.
pub open spec fn individual_envelope(individual: IndividualView) -> JsonDoc {
    JsonDoc::Object(
        map![
            "type"@ => JsonDoc::Text("individual"@),
            "individual"@ => individual_doc(individual),
            "address"@ => match individual.address {
                Some(address) => address_doc(address),
                None => JsonDoc::Null,
            },
        ],
    )
}

/// The document of a corporation's owners: the list of their documents, or
/// null where none are given.
pub open spec fn owners_doc(owners: Option<Seq<IndividualView>>) -> JsonDoc {
    match owners {
        Some(owners) => JsonDoc::List(owners.map_values(|owner: IndividualView| individual_doc(owner))),
        None => JsonDoc::Null,
    }
}

/// The document of a corporation. The postal address is not part of it.
pub open spec fn corporation_doc(corporation: CorporationView) -> JsonDoc {
    JsonDoc::Object(
        map![
            "id"@ => JsonDoc::Text(corporation.id),
            "name"@ => JsonDoc::Text(corporation.name),
            "dba"@ => JsonDoc::Text(corporation.dba),
            "ein"@ => JsonDoc::Text(corporation.ein),
            "owners"@ => owners_doc(corporation.owners),
        ],
    )
}

/// The request to create a corporation: the discriminant `corporation`, the
/// corporation under that key, and beside it the address.
pub open spec fn corporation_envelope(corporation: CorporationView) -> JsonDoc {
    JsonDoc::Object(
        map![
            "type"@ => JsonDoc::Text("corporation"@),
            "corporation"@ => corporation_doc(corporation),
            "address"@ => address_doc(corporation.address),
        ],
    )
}

/// The document of an account.
pub open spec fn account_doc(account: AccountView) -> JsonDoc {
    JsonDoc::Object(
        map![
            "type"@ => JsonDoc::Text(account.account_type),
            "abarouting"@ => JsonDoc::Text(account.abarouting),
            "account_number"@ => JsonDoc::Text(account.account_number),
        ],
    )
}

/// The key under which an account travels: `ach` with a routing number,
/// `liability` without one.
pub open spec fn account_key(account: AccountView) -> Seq<char> {
    if account.abarouting.len() == 0 {
        "liability"@
    } else {
        "ach"@
    }
}

/// The request to create an account for the entity `holder_id`.
pub open spec fn account_envelope(account: AccountView, holder_id: Seq<char>) -> JsonDoc {
    JsonDoc::Object(
        map![
            "holder_id"@ => JsonDoc::Text(holder_id),
            account_key(account) => account_doc(account),
        ],
    )
}

/// The request to pay `amount`, a number, from the account `source` into the
/// account `destination`.
pub open spec fn payment_envelope(
    amount: JsonDoc,
    source: Seq<char>,
    destination: Seq<char>,
) -> JsonDoc {
    JsonDoc::Object(
        map![
            "amount"@ => amount,
            "source"@ => JsonDoc::Text(source),
            "destination"@ => JsonDoc::Text(destination),
            "description"@ => JsonDoc::Text(Seq::empty()),
        ],
    )
}

impl Address {
    /// The address as a document.
    pub fn to_value(&self) -> (value: serde_json::Value)
        ensures
            json_doc(value) == address_doc(self@),
    {
        let mut members = new_members();
        put_member(&mut members, "line1", text_value(self.line1.as_str()));
        put_member(&mut members, "line2", text_value(self.line2.as_str()));
        put_member(&mut members, "city", text_value(self.city.as_str()));
        put_member(&mut members, "state", text_value(self.state.as_str()));
        put_member(&mut members, "zip", text_value(self.zip.as_str()));
        object_value(members)
    }
}

impl IndividualEntity {
    /// The person as a document.
    pub fn to_value(&self) -> (value: serde_json::Value)
        ensures
            json_doc(value) == individual_doc(self@),
    {
        let mut members = new_members();
        put_member(&mut members, "id", text_value(self.id.as_str()));
        put_member(&mut members, "branch_id", text_value(self.branch_id.as_str()));
        put_member(&mut members, "first_name", text_value(self.first_name.as_str()));
        put_member(&mut members, "last_name", text_value(self.last_name.as_str()));
        put_member(&mut members, "phone", text_value(self.phone.as_str()));
        let email = match &self.email {
            Some(email) => text_value(email.as_str()),
            None => null_value(),
        };
        put_member(&mut members, "email", email);
        put_member(&mut members, "dob", text_value(self.dob.as_str()));
        object_value(members)
    }

    /// The request that creates the person, as a document.
    pub fn envelope(&self) -> (value: serde_json::Value)
        ensures
            json_doc(value) == individual_envelope(self@),
    {
        let mut members = new_members();
        put_member(&mut members, "type", text_value("individual"));
        put_member(&mut members, "individual", self.to_value());
        let address = match &self.address {
            Some(address) => address.to_value(),
            None => null_value(),
        };
        put_member(&mut members, "address", address);
        object_value(members)
    }

    /// The request that creates the person, as the JSON text that `serde_json`
    /// writes for it. The result is always `Ok`.
    pub fn to_api_request_json(&self) -> (r: Result<String, serde_json::Error>)
        ensures
            is_written(r, individual_envelope(self@)),
    {
        let envelope = self.envelope();
        render_value(&envelope)
    }
}

impl CorporationEntity {
    /// The corporation as a document.
    pub fn to_value(&self) -> (value: serde_json::Value)
        ensures
            json_doc(value) == corporation_doc(self@),
    {
        let mut members = new_members();
        put_member(&mut members, "id", text_value(self.id.as_str()));
        put_member(&mut members, "name", text_value(self.name.as_str()));
        put_member(&mut members, "dba", text_value(self.dba.as_str()));
        put_member(&mut members, "ein", text_value(self.ein.as_str()));
        let owners = match &self.owners {
            Some(owners) => {
                let mut items: Vec<serde_json::Value> = Vec::new();
                let mut i: usize = 0;
                while i < owners.len()
                    invariant
                        i <= owners.len(),
                        items@.len() == i,
                        forall|k: int|
                            0 <= k < i ==> json_doc(#[trigger] items@[k]) == individual_doc(
                                owners@[k]@,
                            ),
                    decreases owners.len() - i,
                {
                    items.push(owners[i].to_value());
                    i = i + 1;
                }
                assert(items@.map_values(|item: serde_json::Value| json_doc(item))
                    =~= owners@.map_values(|owner: IndividualEntity| owner@).map_values(
                    |owner: IndividualView| individual_doc(owner),
                ));
                list_value(items)
            },
            None => null_value(),
        };
        put_member(&mut members, "owners", owners);
        object_value(members)
    }

    /// The request that creates the corporation, as a document.
    pub fn envelope(&self) -> (value: serde_json::Value)
        ensures
            json_doc(value) == corporation_envelope(self@),
    {
        let mut members = new_members();
        put_member(&mut members, "type", text_value("corporation"));
        put_member(&mut members, "corporation", self.to_value());
        put_member(&mut members, "address", self.address.to_value());
        object_value(members)
    }

    /// The request that creates the corporation, as the JSON text that
    /// `serde_json` writes for it. The result is always `Ok`.
    pub fn to_api_request_json(&self) -> (r: Result<String, serde_json::Error>)
        ensures
            is_written(r, corporation_envelope(self@)),
    {
        let envelope = self.envelope();
        render_value(&envelope)
    }
}

impl AccountEntity {
    /// The account as a document.
    pub fn to_value(&self) -> (value: serde_json::Value)
        ensures
            json_doc(value) == account_doc(self@),
    {
        let mut members = new_members();
        put_member(&mut members, "type", text_value(self.account_type.as_str()));
        put_member(&mut members, "abarouting", text_value(self.abarouting.as_str()));
        put_member(&mut members, "account_number", text_value(self.account_number.as_str()));
        object_value(members)
    }

    /// The request that creates the account for `holder_id`, as a document.
    pub fn envelope(&self, holder_id: &str) -> (value: serde_json::Value)
        ensures
            json_doc(value) == account_envelope(self@, holder_id@),
    {
        let mut members = new_members();
        put_member(&mut members, "holder_id", text_value(holder_id));
        if self.abarouting.as_str().is_empty() {
            put_member(&mut members, "liability", self.to_value());
        } else {
            put_member(&mut members, "ach", self.to_value());
        }
        object_value(members)
    }

    /// The request that creates the account for `holder_id`, as the JSON text
    /// that `serde_json` writes for it. The result is always `Ok`.
    pub fn to_api_request_json(&self, holder_id: &str) -> (r: Result<String, serde_json::Error>)
        ensures
            is_written(r, account_envelope(self@, holder_id@)),
    {
        let envelope = self.envelope(holder_id);
        render_value(&envelope)
    }
}

/// The request that pays `amount`, a document that is a number, from
/// `source` into `destination`.
pub fn payment_envelope_of(amount: serde_json::Value, source: &str, destination: &str) -> (value:
    serde_json::Value)
    ensures
        json_doc(value) == payment_envelope(json_doc(amount), source@, destination@),
{
    let mut members = new_members();
    put_member(&mut members, "amount", amount);
    put_member(&mut members, "source", text_value(source));
    put_member(&mut members, "destination", text_value(destination));
    put_member(&mut members, "description", text_value(""));
    proof {
        reveal_strlit("");
        assert(""@ =~= Seq::<char>::empty());
    }
    object_value(members)
}

} // verus!
