//! The records of a payroll batch, as the batch file's parser hands them over.

use vstd::prelude::*;

verus! {

/// One disbursement: who is paid, by whom, into which loan, and how much.
#[derive(Debug, Clone)]
pub struct Row {
    pub employee: Employee,
    pub payor: Payor,
    pub payee: Payee,
    /// A sign or currency marker, then a decimal amount.
    pub amount: String,
}

/// The person a disbursement is made for.
#[derive(Debug, Clone)]
pub struct Employee {
    pub dunkin_id: String,
    pub dunkin_branch: String,
    pub first_name: String,
    pub last_name: String,
    pub dob: String,
    pub phone_number: String,
}

/// The corporation that pays, and the account it pays from.
#[derive(Debug, Clone)]
pub struct Payor {
    pub dunkin_id: String,
    pub abarouting: String,
    pub account_number: String,
    pub name: String,
    pub dba: String,
    pub ein: String,
    pub address: Address,
}

/// A postal address. The batch format has one address line only.
#[derive(Debug, Clone)]
pub struct Address {
    pub line1: String,
    pub city: String,
    pub state: String,
    pub zip: String,
}

/// The loan account that receives a disbursement.
#[derive(Debug, Clone)]
pub struct Payee {
    pub plaid_id: String,
    pub account_number: String,
}

/// A whole batch: its records in the order of the file.
#[derive(Debug, Clone)]
pub struct Root {
    pub row: Vec<Row>,
}

} // verus!
