//! The three reports of a batch: what was paid out of each source account,
//! what was paid for each branch, and the replies to the payments made.

use crate::amount::Decimal;
use crate::gateway::Receipt;
use crate::signed::{SignedAmount, SignedDecimal};
use vstd::prelude::*;
use vstd::string::StringExecFns;

verus! {

/// One line of a ledger: a key and the total booked under it.
#[derive(Debug)]
pub struct LedgerEntry {
    pub key: String,
    pub total: SignedAmount,
}

/// A line, as the contracts see one.
pub struct Line {
    pub key: Seq<char>,
    pub total: SignedDecimal,
}

impl View for LedgerEntry {
    type V = Line;

    open spec fn view(&self) -> Line {
        Line { key: self.key@, total: self.total@ }
    }
}

/// Totals by key. A key stands in it once, where it was first booked.
#[derive(Debug)]
pub struct Ledger {
    entries: Vec<LedgerEntry>,
}

/// Whether no key stands twice in `lines`.
pub open spec fn keys_distinct(lines: Seq<Line>) -> bool {
    forall|i: int, j: int|
        0 <= i < j < lines.len() ==> (#[trigger] lines[i]).key != (#[trigger] lines[j]).key
}

/// Whether the line `i` of `lines` is the line of `key`.
pub open spec fn is_line_of(lines: Seq<Line>, key: Seq<char>, i: int) -> bool {
    0 <= i < lines.len() && lines[i].key == key
}

/// Where `key` stands in `lines`, if it stands there.
pub open spec fn position_of(lines: Seq<Line>, key: Seq<char>) -> Option<int> {
    if exists|i: int| is_line_of(lines, key, i) {
        Some(choose|i: int| is_line_of(lines, key, i))
    } else {
        None
    }
}

/// The total under `key`: zero where nothing was booked under it.
pub open spec fn total_under(lines: Seq<Line>, key: Seq<char>) -> SignedDecimal {
    match position_of(lines, key) {
        Some(i) => lines[i].total,
        None => SignedDecimal::zero(),
    }
}

/// The lines after `amount` was booked under `key`: added to the total on
/// the line of `key`, or, where there is none, to zero on a new last line.
pub open spec fn credited(lines: Seq<Line>, key: Seq<char>, amount: SignedDecimal) -> Seq<Line> {
    match position_of(lines, key) {
        Some(i) => lines.update(i, Line { key, total: lines[i].total.plus(amount) }),
        None => lines.push(Line { key, total: SignedDecimal::zero().plus(amount) }),
    }
}

/// Among distinct keys a key has one line.
pub proof fn lemma_position(lines: Seq<Line>, key: Seq<char>, i: int)
    requires
        keys_distinct(lines),
        is_line_of(lines, key, i),
    ensures
        position_of(lines, key) == Some(i),
{
    let j = choose|j: int| is_line_of(lines, key, j);
    if i < j {
        assert(lines[i].key != lines[j].key);
    } else if j < i {
        assert(lines[j].key != lines[i].key);
    }
}

/// Lines that keep their keys place by place keep every key's place and,
/// where the line of a key is itself kept, its total.
proof fn lemma_same_keys(lines: Seq<Line>, after: Seq<Line>, other: Seq<char>)
    requires
        keys_distinct(lines),
        keys_distinct(after),
        after.len() >= lines.len(),
        forall|j: int| 0 <= j < lines.len() ==> (#[trigger] after[j]).key == lines[j].key,
        forall|j: int| lines.len() <= j < after.len() ==> (#[trigger] after[j]).key != other,
    ensures
        position_of(after, other) == position_of(lines, other),
        position_of(lines, other) matches Some(j) ==> 0 <= j < lines.len() && lines[j].key
            == other,
{
    assert forall|j: int| is_line_of(after, other, j) == is_line_of(lines, other, j) by {
        if 0 <= j < lines.len() {
            assert(after[j].key == lines[j].key);
        } else if lines.len() <= j < after.len() {
            assert(after[j].key != other);
        }
    }
    if exists|j: int| is_line_of(lines, other, j) {
        let j = choose|j: int| is_line_of(lines, other, j);
        assert(is_line_of(after, other, j));
        lemma_position(after, other, j);
        lemma_position(lines, other, j);
    }
}

/// Booking under a key changes the total of that key by the amount booked
/// and nothing else: the keys stay distinct and in their order, a new key
/// comes last, and every other key keeps its line.
pub proof fn lemma_credited(lines: Seq<Line>, key: Seq<char>, amount: SignedDecimal)
    requires
        keys_distinct(lines),
    ensures
        keys_distinct(credited(lines, key, amount)),
        position_of(credited(lines, key, amount), key) is Some,
        total_under(credited(lines, key, amount), key) == total_under(lines, key).plus(amount),
        forall|other: Seq<char>|
            other != key ==> position_of(credited(lines, key, amount), other) == position_of(
                lines,
                other,
            ),
        forall|other: Seq<char>|
            other != key ==> total_under(credited(lines, key, amount), other) == total_under(
                lines,
                other,
            ),
        credited(lines, key, amount).len() == lines.len() + if position_of(lines, key) is Some {
            0int
        } else {
            1int
        },
        forall|i: int|
            0 <= i < lines.len() ==> (#[trigger] credited(lines, key, amount)[i]).key
                == lines[i].key,
{
    let after = credited(lines, key, amount);
    let place = match position_of(lines, key) {
        Some(i) => i,
        None => lines.len() as int,
    };
    if position_of(lines, key) is Some {
        assert(is_line_of(lines, key, place));
    }
    assert forall|i: int| 0 <= i < lines.len() implies (#[trigger] after[i]).key
        == lines[i].key by {
        if i != place {
            assert(after[i] == lines[i]);
        }
    }
    assert forall|a: int, b: int| 0 <= a < b < after.len() implies (#[trigger] after[a]).key != (
    #[trigger] after[b]).key by {
        assert(after[a].key == lines[a].key);
        if b < lines.len() {
            assert(after[b].key == lines[b].key);
        } else {
            assert(!is_line_of(lines, key, a));
        }
    }
    assert(is_line_of(after, key, place));
    lemma_position(after, key, place);
    assert forall|other: Seq<char>| other != key implies position_of(after, other) == position_of(
        lines,
        other,
    ) && total_under(after, other) == total_under(lines, other) by {
        lemma_same_keys(lines, after, other);
        match position_of(lines, other) {
            Some(j) => {
                assert(j != place);
                assert(after[j] == lines[j]);
            },
            None => {},
        }
    }
}

impl View for Ledger {
    type V = Seq<Line>;

    closed spec fn view(&self) -> Seq<Line> {
        self.entries@.map_values(|entry: LedgerEntry| entry@)
    }
}

impl Ledger {
    #[verifier::type_invariant]
    spec fn valid(&self) -> bool {
        keys_distinct(self@)
    }

    /// A ledger without lines.
    pub fn new() -> (ledger: Ledger)
        ensures
            ledger@ == Seq::<Line>::empty(),
    {
        let ledger = Ledger { entries: Vec::new() };
        assert(ledger@ =~= Seq::<Line>::empty());
        ledger
    }

    fn position(&self, key: &String) -> (r: Option<usize>)
        ensures
            keys_distinct(self@),
            match r {
                Some(i) => position_of(self@, key@) == Some(i as int) && i < self.entries@.len(),
                None => position_of(self@, key@) is None,
            },
    {
        proof {
            use_type_invariant(self);
        }
        let mut i: usize = 0;
        while i < self.entries.len()
            invariant
                i <= self.entries@.len(),
                self@.len() == self.entries@.len(),
                keys_distinct(self@),
                forall|k: int| 0 <= k < i ==> !is_line_of(self@, key@, k),
            decreases self.entries@.len() - i,
        {
            if self.entries[i].key == *key {
                proof {
                    assert(is_line_of(self@, key@, i as int));
                    lemma_position(self@, key@, i as int);
                }
                return Some(i);
            }
            assert(!is_line_of(self@, key@, i as int));
            i = i + 1;
        }
        None
    }

    /// Books `amount` under `key`: added to the total that stands there, or
    /// to zero, on a new last line, where none does.
    pub fn credit(&mut self, key: &str, amount: &SignedAmount)
        ensures
            keys_distinct(old(self)@),
            final(self)@ == credited(old(self)@, key@, amount@),
    {
        let owned = String::from_str(key);
        let found = self.position(&owned);
        let ghost before = self@;
        let mut entries: Vec<LedgerEntry> = Vec::new();
        core::mem::swap(&mut self.entries, &mut entries);
        assert(entries@.map_values(|entry: LedgerEntry| entry@) == before);
        match found {
            Some(i) => {
                let total = entries[i].total.add(amount);
                entries.set(i, LedgerEntry { key: owned, total });
            },
            None => {
                let total = SignedAmount::zero().add(amount);
                entries.push(LedgerEntry { key: owned, total });
            },
        }
        proof {
            lemma_credited(before, key@, amount@);
            assert(entries@.map_values(|entry: LedgerEntry| entry@) =~= credited(
                before,
                key@,
                amount@,
            ));
        }
        self.entries = entries;
    }

    /// The total booked under `key`, if anything was.
    pub fn total(&self, key: &str) -> (r: Option<SignedAmount>)
        ensures
            keys_distinct(self@),
            match r {
                Some(total) => position_of(self@, key@) is Some && total@ == total_under(
                    self@,
                    key@,
                ),
                None => position_of(self@, key@) is None,
            },
    {
        let owned = String::from_str(key);
        match self.position(&owned) {
            Some(i) => Some(self.entries[i].total.clone()),
            None => None,
        }
    }

    /// The number of lines, which is the number of keys.
    pub fn len(&self) -> (n: usize)
        ensures
            n == self@.len(),
    {
        self.entries.len()
    }

    /// The line at `index`, in the order in which the keys were first
    /// booked; none at or past the end.
    pub fn line(&self, index: usize) -> (r: Option<&LedgerEntry>)
        ensures
            keys_distinct(self@),
            match r {
                Some(entry) => index < self@.len() && entry@ == self@[index as int],
                None => index >= self@.len(),
            },
    {
        proof {
            use_type_invariant(self);
        }
        if index < self.entries.len() {
            Some(&self.entries[index])
        } else {
            None
        }
    }
}

/// The reports of one batch: totals by source account, totals by branch, and
/// the receipts of the payments made, in the order in which they were made.
#[derive(Debug)]
pub struct Reports(pub Ledger, pub Ledger, pub Vec<Receipt>);

/// The reports, as the contracts see them.
pub struct ReportsView {
    pub per_source_account: Seq<Line>,
    pub per_branch: Seq<Line>,
    pub payments: Seq<Receipt>,
}

impl ReportsView {
    /// The reports of a batch in which nothing was paid.
    pub open spec fn empty() -> ReportsView {
        ReportsView {
            per_source_account: Seq::empty(),
            per_branch: Seq::empty(),
            payments: Seq::empty(),
        }
    }

    /// What holds of all reports: no key stands twice in a ledger.
    pub open spec fn wf(self) -> bool {
        keys_distinct(self.per_source_account) && keys_distinct(self.per_branch)
    }

    /// The reports after one more payment: `amount` booked under the source
    /// account and under the branch, and the receipt added at the end.
    pub open spec fn with_payment(
        self,
        source_account: Seq<char>,
        branch: Seq<char>,
        amount: SignedDecimal,
        receipt: Receipt,
    ) -> ReportsView {
        ReportsView {
            per_source_account: credited(self.per_source_account, source_account, amount),
            per_branch: credited(self.per_branch, branch, amount),
            payments: self.payments.push(receipt),
        }
    }
}

impl View for Reports {
    type V = ReportsView;

    open spec fn view(&self) -> ReportsView {
        ReportsView { per_source_account: self.0@, per_branch: self.1@, payments: self.2@ }
    }
}

impl Reports {
    /// The reports at the start of a batch: all three empty.
    pub fn new() -> (reports: Reports)
        ensures
            reports@ == ReportsView::empty(),
            reports@.wf(),
    {
        Reports(Ledger::new(), Ledger::new(), Vec::new())
    }

    /// Books one successful payment: its amount under the source account
    /// and under the branch, and its receipt at the end of the list.
    pub fn record_payment(
        &mut self,
        source_account: &str,
        branch: &str,
        amount: &SignedAmount,
        receipt: Receipt,
    )
        ensures
            old(self)@.wf(),
            final(self)@.wf(),
            final(self)@ == old(self)@.with_payment(source_account@, branch@, amount@, receipt),
    {
        proof {
            use_type_invariant(&self.0);
            use_type_invariant(&self.1);
            lemma_credited(self.0@, source_account@, amount@);
            lemma_credited(self.1@, branch@, amount@);
        }
        self.0.credit(source_account, amount);
        self.1.credit(branch, amount);
        self.2.push(receipt);
    }
}

/// A successful payment raises the total of its source account and the
/// total of its branch by exactly its amount, counted at the finer of the two
/// scales, and adds exactly one receipt, at the end. A key that had no total
/// starts from zero; every other key keeps its total; the keys stay distinct.
pub proof fn law_payment_is_booked_exactly(
    before: ReportsView,
    source_account: Seq<char>,
    branch: Seq<char>,
    amount: SignedDecimal,
    receipt: Receipt,
)
    requires
        before.wf(),
    ensures
        ({
            let after = before.with_payment(source_account, branch, amount, receipt);
            let source_before = total_under(before.per_source_account, source_account);
            let source_after = total_under(after.per_source_account, source_account);
            let branch_before = total_under(before.per_branch, branch);
            let branch_after = total_under(after.per_branch, branch);
            &&& after.wf()
            &&& source_after.scale == Decimal::finer(source_before.scale, amount.scale)
            &&& source_after.units == source_before.units_at(source_after.scale) + amount.units_at(
                source_after.scale,
            )
            &&& branch_after.scale == Decimal::finer(branch_before.scale, amount.scale)
            &&& branch_after.units == branch_before.units_at(branch_after.scale) + amount.units_at(
                branch_after.scale,
            )
            &&& after.payments.len() == before.payments.len() + 1
            &&& after.payments.last() == receipt
            &&& after.payments.drop_last() == before.payments
            &&& forall|key: Seq<char>|
                key != source_account ==> total_under(after.per_source_account, key) == total_under(
                    before.per_source_account,
                    key,
                )
            &&& forall|key: Seq<char>|
                key != branch ==> total_under(after.per_branch, key) == total_under(
                    before.per_branch,
                    key,
                )
        }),
{
    let after = before.with_payment(source_account, branch, amount, receipt);
    lemma_credited(before.per_source_account, source_account, amount);
    lemma_credited(before.per_branch, branch, amount);
    assert(after.payments.drop_last() =~= before.payments);
}

} // verus!
