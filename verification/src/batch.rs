//! The batch orchestrator: for each record the five dependent calls, in
//! order, each drawn from the shared call budget, and the booking of every
//! payment that succeeds.
//!
//! The orchestrator makes no call and reads no clock. It is a state machine
//! that its driver runs: `poll` says what to do next, at the time the driver
//! gives; the driver performs a dispatched call and hands the result to
//! `settle`, or waits as long as it was told to and polls again.

use crate::amount::Amount;
use crate::caller::{
    account_of, amount_of, corporation_of, individual_of, liability_of, row_to_account_entity,
    row_to_amount, row_to_corporation_entity, row_to_individual_entity, row_to_liability_entity,
};
use crate::gateway::{GatewayError, GatewayResult, PayloadView, Receipt, RequestPayload};
use crate::limiter::{Admission, Budget, RateBudget, WINDOW_CAPACITY, WINDOW_DURATION};
use crate::reports::{Reports, ReportsView};
use crate::signed::SignedDecimal;
use crate::xml_parser::Row;
use vstd::pervasive::unreached;
use vstd::prelude::*;

verus! {

/// The five calls made for one record, in their order.
#[derive(Clone, Copy, Debug, PartialEq, Eq, Structural)]
pub enum Stage {
    CreateIndividual,
    CreateCorporation,
    /// Needs the corporation's identifier.
    CreateCorpAccount,
    /// Needs the individual's identifier.
    CreateLoanAccount,
    /// Needs the identifiers of both accounts.
    CreatePayment,
}

/// A condition that stops the whole batch.
#[derive(Clone, Copy, Debug, PartialEq, Eq, Structural)]
pub enum Fault {
    /// A reply that a later call depends on held no identifier.
    MissingIdentifier,
    /// A call before the payment failed.
    Gateway(GatewayError),
}

/// Why a batch stopped, and where: the index of the record and the call.
#[derive(Clone, Copy, Debug, PartialEq, Eq, Structural)]
pub struct BatchError {
    pub record: usize,
    pub stage: Stage,
    pub fault: Fault,
}

/// What the driver is to do next.
#[derive(Debug)]
pub enum Action {
    /// Make this call and settle its result. The call has been counted.
    Dispatch(RequestPayload),
    /// The window is full: wait this long, then poll again.
    Suspend(u64),
    /// A call is out and its result has not been settled.
    Awaiting,
    /// Every record has been dealt with.
    Finished,
    /// The batch has stopped for good.
    Aborted(BatchError),
}

/// An action, as the contracts see one.
pub enum ActionView {
    Dispatch(PayloadView),
    Suspend(u64),
    Awaiting,
    Finished,
    Aborted(BatchError),
}

impl View for Action {
    type V = ActionView;

    open spec fn view(&self) -> ActionView {
        match self {
            Action::Dispatch(payload) => ActionView::Dispatch(payload@),
            Action::Suspend(wait) => ActionView::Suspend(*wait),
            Action::Awaiting => ActionView::Awaiting,
            Action::Finished => ActionView::Finished,
            Action::Aborted(error) => ActionView::Aborted(*error),
        }
    }
}

/// The identifier that a call before the payment was made for, or the fault
/// that its result is: a failed call, or a reply without an identifier.
pub open spec fn identifier_of(result: GatewayResult) -> Result<Seq<char>, Fault> {
    match result {
        GatewayResult::Success(receipt) => match receipt.id {
            Some(id) => Ok(id@),
            None => Err(Fault::MissingIdentifier),
        },
        GatewayResult::Failure(error) => Err(Fault::Gateway(error)),
    }
}

/// How far a batch has come: the record and the call that are next, the
/// identifiers gathered for the record, the reports so far, and the fault
/// that stopped the batch, if one did.
pub struct Progress {
    pub cursor: nat,
    pub stage: Stage,
    pub individual_id: Seq<char>,
    pub corporation_id: Seq<char>,
    pub corp_account_id: Seq<char>,
    pub loan_account_id: Seq<char>,
    pub reports: ReportsView,
    pub failure: Option<BatchError>,
}

impl Progress {
    /// A batch of which nothing has been done.
    pub open spec fn start() -> Progress {
        Progress {
            cursor: 0,
            stage: Stage::CreateIndividual,
            individual_id: Seq::empty(),
            corporation_id: Seq::empty(),
            corp_account_id: Seq::empty(),
            loan_account_id: Seq::empty(),
            reports: ReportsView::empty(),
            failure: None,
        }
    }

    /// Whether a call is still to be made.
    pub open spec fn running(self, rows: Seq<Row>) -> bool {
        self.failure is None && self.cursor < rows.len()
    }

    /// What holds of the progress of every batch: the record that is next
    /// exists or the batch is through, and a payment is next only for a
    /// record that names an amount.
    pub open spec fn wf(self, rows: Seq<Row>) -> bool {
        &&& self.cursor <= rows.len()
        &&& self.running(rows) && self.stage == Stage::CreatePayment ==> amount_of(
            rows[self.cursor as int],
        ) is Some
    }

    /// The call that is next.
    pub open spec fn call(self, rows: Seq<Row>) -> PayloadView
        recommends
            self.wf(rows),
            self.running(rows),
    {
        let row = rows[self.cursor as int];
        match self.stage {
            Stage::CreateIndividual => PayloadView::Individual(individual_of(row)),
            Stage::CreateCorporation => PayloadView::Corporation(corporation_of(row)),
            Stage::CreateCorpAccount => PayloadView::Account {
                account: account_of(row),
                holder_id: self.corporation_id,
            },
            Stage::CreateLoanAccount => PayloadView::Account {
                account: liability_of(row),
                holder_id: self.individual_id,
            },
            Stage::CreatePayment => PayloadView::Payment {
                amount: amount_of(row)->0,
                source: self.corp_account_id,
                destination: self.loan_account_id,
            },
        }
    }

    /// The progress after the call that was next has ended in `result`.
    ///
    /// A call before the payment must hand back an identifier: a failed
    /// call, or a reply without one, stops the batch. With the identifier the
    /// record goes on to its next call; behind the loan account that is the
    /// payment, or, for a record that names no amount, the next record.
    /// A payment moves on to the next record however it ends; it is booked
    /// where it succeeded and its reply holds a number as amount, whatever
    /// the number, under the corporation's account and the employee's
    /// branch, and changes nothing otherwise.
    pub open spec fn after(self, rows: Seq<Row>, result: GatewayResult) -> Progress
        recommends
            self.wf(rows),
            self.running(rows),
    {
        let row = rows[self.cursor as int];
        if self.stage == Stage::CreatePayment {
            Progress {
                cursor: self.cursor + 1,
                stage: Stage::CreateIndividual,
                reports: match result {
                    GatewayResult::Success(receipt) => match receipt.amount {
                        Some(amount) => self.reports.with_payment(
                            self.corp_account_id,
                            row.employee.dunkin_branch@,
                            amount@,
                            receipt,
                        ),
                        None => self.reports,
                    },
                    GatewayResult::Failure(_) => self.reports,
                },
                ..self
            }
        } else {
            match identifier_of(result) {
                Err(fault) => Progress {
                    failure: Some(
                        BatchError { record: self.cursor as usize, stage: self.stage, fault },
                    ),
                    ..self
                },
                Ok(id) => match self.stage {
                    Stage::CreateIndividual => Progress {
                        individual_id: id,
                        stage: Stage::CreateCorporation,
                        ..self
                    },
                    Stage::CreateCorporation => Progress {
                        corporation_id: id,
                        stage: Stage::CreateCorpAccount,
                        ..self
                    },
                    Stage::CreateCorpAccount => Progress {
                        corp_account_id: id,
                        stage: Stage::CreateLoanAccount,
                        ..self
                    },
                    _ => if amount_of(row) is Some {
                        Progress { loan_account_id: id, stage: Stage::CreatePayment, ..self }
                    } else {
                        Progress {
                            loan_account_id: id,
                            cursor: self.cursor + 1,
                            stage: Stage::CreateIndividual,
                            ..self
                        }
                    },
                },
            }
        }
    }

    /// The calls of one record that are still to come, counted generously:
    /// what is left of the batch, as a number that every call lowers.
    pub open spec fn distance(self, rows: Seq<Row>) -> nat {
        if self.failure is Some || self.cursor >= rows.len() {
            0
        } else {
            ((rows.len() - self.cursor) * 5 - match self.stage {
                Stage::CreateIndividual => 0int,
                Stage::CreateCorporation => 1int,
                Stage::CreateCorpAccount => 2int,
                Stage::CreateLoanAccount => 3int,
                Stage::CreatePayment => 4int,
            }) as nat
        }
    }

    /// Where the batch ends when every call is answered by `gateway`: the
    /// progress in which no call is left to make.
    pub open spec fn completed(
        self,
        rows: Seq<Row>,
        gateway: spec_fn(PayloadView) -> GatewayResult,
    ) -> Progress
        decreases self.distance(rows),
    {
        if self.running(rows) {
            self.after(rows, gateway(self.call(rows))).completed(rows, gateway)
        } else {
            self
        }
    }

    /// Where the batch stands when the record that is next has been dealt
    /// with: stopped by a fault, or at the start of the record behind it.
    pub open spec fn record_done(
        self,
        rows: Seq<Row>,
        gateway: spec_fn(PayloadView) -> GatewayResult,
    ) -> Progress
        decreases self.distance(rows),
    {
        if self.running(rows) {
            let next = self.after(rows, gateway(self.call(rows)));
            if next.failure is None && next.cursor == self.cursor {
                next.record_done(rows, gateway)
            } else {
                next
            }
        } else {
            self
        }
    }

    /// Where the batch stands when it first comes to the record `stop`, or
    /// is stopped before.
    pub open spec fn completed_until(
        self,
        rows: Seq<Row>,
        gateway: spec_fn(PayloadView) -> GatewayResult,
        stop: nat,
    ) -> Progress
        decreases self.distance(rows),
    {
        if self.running(rows) && self.cursor < stop {
            self.after(rows, gateway(self.call(rows))).completed_until(rows, gateway, stop)
        } else {
            self
        }
    }

    /// Whether two batches stand at the same call of the same record with
    /// the same reports, and with the same identifiers as far as the record
    /// has gathered them. Identifiers left from earlier records do not count.
    pub open spec fn in_step(self, rows: Seq<Row>, other: Progress, others: Seq<Row>) -> bool {
        &&& self.running(rows)
        &&& other.running(others)
        &&& rows[self.cursor as int] == others[other.cursor as int]
        &&& self.stage == other.stage
        &&& self.reports == other.reports
        &&& self.stage != Stage::CreateIndividual ==> self.individual_id == other.individual_id
        &&& self.stage == Stage::CreateCorpAccount || self.stage == Stage::CreateLoanAccount
            || self.stage == Stage::CreatePayment ==> self.corporation_id == other.corporation_id
        &&& self.stage == Stage::CreateLoanAccount || self.stage == Stage::CreatePayment
            ==> self.corp_account_id == other.corp_account_id
        &&& self.stage == Stage::CreatePayment ==> self.loan_account_id == other.loan_account_id
    }

    /// Whether two batches have come to the same end as far as a caller of
    /// either sees it: the same reports, and both stopped by a fault or
    /// neither.
    pub open spec fn same_end(self, other: Progress) -> bool {
        self.reports == other.reports && (self.failure is Some <==> other.failure is Some)
    }
}

/// What one record comes to.
pub enum RecordEnd {
    /// A call before the payment stopped the batch.
    Stopped { stage: Stage, fault: Fault },
    /// Nothing was booked: the record names no amount, or its payment
    /// failed, or the reply to the payment holds no number.
    Skipped,
    /// The payment was made and is booked.
    Booked { source_account: Seq<char>, branch: Seq<char>, amount: SignedDecimal, receipt: Receipt },
}

/// What the record `row` comes to when every call is answered by `gateway`:
/// the person and the corporation are created, then the corporation's
/// account with the corporation's identifier, then the loan with the
/// person's, then the payment between the two accounts is made. The first
/// of the four calls before the payment that fails, or hands back no
/// identifier, stops the batch. The payment is booked with the amount that
/// its reply holds, under the corporation's account and the employee's
/// branch.
pub open spec fn record_end(row: Row, gateway: spec_fn(PayloadView) -> GatewayResult) -> RecordEnd {
    match identifier_of(gateway(PayloadView::Individual(individual_of(row)))) {
        Err(fault) => RecordEnd::Stopped { stage: Stage::CreateIndividual, fault },
        Ok(individual_id) => match identifier_of(
            gateway(PayloadView::Corporation(corporation_of(row))),
        ) {
            Err(fault) => RecordEnd::Stopped { stage: Stage::CreateCorporation, fault },
            Ok(corporation_id) => match identifier_of(
                gateway(
                    PayloadView::Account { account: account_of(row), holder_id: corporation_id },
                ),
            ) {
                Err(fault) => RecordEnd::Stopped { stage: Stage::CreateCorpAccount, fault },
                Ok(corp_account_id) => match identifier_of(
                    gateway(
                        PayloadView::Account {
                            account: liability_of(row),
                            holder_id: individual_id,
                        },
                    ),
                ) {
                    Err(fault) => RecordEnd::Stopped { stage: Stage::CreateLoanAccount, fault },
                    Ok(loan_account_id) => match amount_of(row) {
                        None => RecordEnd::Skipped,
                        Some(due) => match gateway(
                            PayloadView::Payment {
                                amount: due,
                                source: corp_account_id,
                                destination: loan_account_id,
                            },
                        ) {
                            GatewayResult::Success(receipt) => match receipt.amount {
                                Some(amount) => RecordEnd::Booked {
                                    source_account: corp_account_id,
                                    branch: row.employee.dunkin_branch@,
                                    amount: amount@,
                                    receipt,
                                },
                                None => RecordEnd::Skipped,
                            },
                            GatewayResult::Failure(_) => RecordEnd::Skipped,
                        },
                    },
                },
            },
        },
    }
}

/// The reports after the first `count` records, and the fault that stopped
/// the batch among them, if one did: record by record in their order, each
/// payment that was made booked, nothing booked for a record that was
/// skipped, and nothing at all behind a fault.
pub open spec fn batch_end(
    rows: Seq<Row>,
    gateway: spec_fn(PayloadView) -> GatewayResult,
    count: nat,
) -> (ReportsView, Option<BatchError>)
    recommends
        count <= rows.len(),
    decreases count,
{
    if count == 0 {
        (ReportsView::empty(), None)
    } else {
        let before = batch_end(rows, gateway, (count - 1) as nat);
        if before.1 is Some {
            before
        } else {
            match record_end(rows[count - 1], gateway) {
                RecordEnd::Stopped { stage, fault } => (
                    before.0,
                    Some(BatchError { record: (count - 1) as usize, stage, fault }),
                ),
                RecordEnd::Skipped => before,
                RecordEnd::Booked { source_account, branch, amount, receipt } => (
                    before.0.with_payment(source_account, branch, amount, receipt),
                    None,
                ),
            }
        }
    }
}

/// A batch, as the contracts see one.
pub struct BatchView {
    pub rows: Seq<Row>,
    pub progress: Progress,
    pub budget: Budget,
    /// Whether a call is out whose result has not been settled.
    pub in_flight: bool,
}

impl BatchView {
    /// What holds of every batch.
    pub open spec fn wf(self) -> bool {
        &&& self.progress.wf(self.rows)
        &&& self.budget.wf()
        &&& self.in_flight ==> self.progress.running(self.rows)
    }

    /// Whether a poll at `now` sends a call out.
    pub open spec fn dispatches(self, now: nat) -> bool {
        self.progress.running(self.rows) && !self.in_flight && self.budget.grants(now)
    }

    /// What a poll at `now` tells the driver.
    pub open spec fn action(self, now: nat) -> ActionView {
        if self.progress.failure is Some {
            ActionView::Aborted(self.progress.failure->0)
        } else if self.progress.cursor >= self.rows.len() {
            ActionView::Finished
        } else if self.in_flight {
            ActionView::Awaiting
        } else {
            match self.budget.answer(now) {
                Admission::Granted => ActionView::Dispatch(self.progress.call(self.rows)),
                Admission::Deferred(wait) => ActionView::Suspend(wait),
            }
        }
    }

    /// The batch after a poll at `now`: the budget has been asked where a
    /// call was due, and the call is out where the budget granted it.
    pub open spec fn polled(self, now: nat) -> BatchView {
        if self.progress.running(self.rows) && !self.in_flight {
            BatchView {
                budget: self.budget.after_request(now),
                in_flight: self.budget.grants(now),
                ..self
            }
        } else {
            self
        }
    }

    /// The batch after `result` was settled: the call that was out is
    /// through. A result that no call is out for changes nothing.
    pub open spec fn settled(self, result: GatewayResult) -> BatchView {
        if self.in_flight {
            BatchView {
                progress: self.progress.after(self.rows, result),
                in_flight: false,
                ..self
            }
        } else {
            self
        }
    }

    /// One turn of a driver at the time `now`: a poll, and where the poll
    /// sent a call out, the call answered by `gateway` and settled.
    pub open spec fn turned(self, gateway: spec_fn(PayloadView) -> GatewayResult, now: nat) -> BatchView {
        if self.dispatches(now) {
            self.polled(now).settled(gateway(self.progress.call(self.rows)))
        } else {
            self.polled(now)
        }
    }

    /// The batch after a driver's turns at the times `times`, in that order.
    pub open spec fn driven(
        self,
        gateway: spec_fn(PayloadView) -> GatewayResult,
        times: Seq<nat>,
    ) -> BatchView
        decreases times.len(),
    {
        if times.len() == 0 {
            self
        } else {
            self.driven(gateway, times.drop_last()).turned(gateway, times.last())
        }
    }
}

/// A call that ended keeps the progress of a batch well formed, and brings
/// the batch nearer to its end.
pub proof fn lemma_after_keeps_wf(progress: Progress, rows: Seq<Row>, result: GatewayResult)
    requires
        progress.wf(rows),
        progress.running(rows),
    ensures
        progress.after(rows, result).wf(rows),
        progress.after(rows, result).distance(rows) < progress.distance(rows),
{
}

/// A driver's turn keeps a batch well formed and leaves no call out.
pub proof fn lemma_turn_keeps_wf(
    batch: BatchView,
    gateway: spec_fn(PayloadView) -> GatewayResult,
    now: nat,
)
    requires
        batch.wf(),
        !batch.in_flight,
    ensures
        batch.turned(gateway, now).wf(),
        !batch.turned(gateway, now).in_flight,
        batch.turned(gateway, now).rows == batch.rows,
        batch.turned(gateway, now).progress.completed(batch.rows, gateway)
            == batch.progress.completed(batch.rows, gateway),
{
    if batch.dispatches(now) {
        lemma_after_keeps_wf(batch.progress, batch.rows, gateway(batch.progress.call(batch.rows)));
    }
}

/// Whatever the times of a driver's turns, the batch stays on the way to one
/// end: the end that the records and the gateway's answers fix.
pub proof fn lemma_driven_keeps_course(
    batch: BatchView,
    gateway: spec_fn(PayloadView) -> GatewayResult,
    times: Seq<nat>,
)
    requires
        batch.wf(),
        !batch.in_flight,
    ensures
        batch.driven(gateway, times).wf(),
        !batch.driven(gateway, times).in_flight,
        batch.driven(gateway, times).rows == batch.rows,
        batch.driven(gateway, times).progress.completed(batch.rows, gateway)
            == batch.progress.completed(batch.rows, gateway),
    decreases times.len(),
{
    if times.len() > 0 {
        lemma_driven_keeps_course(batch, gateway, times.drop_last());
        lemma_turn_keeps_wf(batch.driven(gateway, times.drop_last()), gateway, times.last());
    }
}

/// A batch that is run twice on the same records, against a gateway that
/// answers a call the same way each time, ends with the same reports, the
/// same identifiers and the same fault, whatever the times at which it was
/// polled: once no call is left, the progress is the one that the records and
/// the gateway's answers fix.
pub proof fn law_same_inputs_same_reports(
    batch: BatchView,
    gateway: spec_fn(PayloadView) -> GatewayResult,
    first: Seq<nat>,
    second: Seq<nat>,
)
    requires
        batch.wf(),
        !batch.in_flight,
        !batch.driven(gateway, first).progress.running(batch.rows),
        !batch.driven(gateway, second).progress.running(batch.rows),
    ensures
        batch.driven(gateway, first).progress == batch.progress.completed(batch.rows, gateway),
        batch.driven(gateway, first).progress == batch.driven(gateway, second).progress,
        batch.driven(gateway, first).progress.reports == batch.driven(
            gateway,
            second,
        ).progress.reports,
{
    lemma_driven_keeps_course(batch, gateway, first);
    lemma_driven_keeps_course(batch, gateway, second);
}

/// No call goes out without the budget: a poll sends out only a call that
/// the budget grants at that time, and the budget has counted it; a poll
/// that sends nothing out leaves the budget as it was. Either way the
/// progress of the batch moves only when a result is settled.
pub proof fn law_every_call_draws_from_the_budget(batch: BatchView, now: nat)
    requires
        batch.wf(),
    ensures
        batch.action(now) is Dispatch <==> batch.dispatches(now),
        batch.action(now) is Dispatch ==> batch.budget.grants(now) && batch.polled(now).budget
            == batch.budget.after_request(now) && batch.polled(now).in_flight,
        !(batch.action(now) is Dispatch) ==> batch.polled(now) == batch,
        batch.polled(now).progress == batch.progress,
        batch.polled(now).wf(),
{
}

/// Dealing with the record that is next is part of the way to the end.
proof fn lemma_record_is_on_the_way(
    progress: Progress,
    rows: Seq<Row>,
    gateway: spec_fn(PayloadView) -> GatewayResult,
)
    ensures
        progress.record_done(rows, gateway).completed(rows, gateway) == progress.completed(
            rows,
            gateway,
        ),
    decreases progress.distance(rows),
{
    if progress.running(rows) {
        let next = progress.after(rows, gateway(progress.call(rows)));
        if next.failure is None && next.cursor == progress.cursor {
            lemma_record_is_on_the_way(next, rows, gateway);
        }
    }
}

/// Coming to the record `stop` is part of the way to the end.
proof fn lemma_stop_is_on_the_way(
    progress: Progress,
    rows: Seq<Row>,
    gateway: spec_fn(PayloadView) -> GatewayResult,
    stop: nat,
)
    ensures
        progress.completed_until(rows, gateway, stop).completed(rows, gateway)
            == progress.completed(rows, gateway),
    decreases progress.distance(rows),
{
    if progress.running(rows) && progress.cursor < stop {
        lemma_stop_is_on_the_way(
            progress.after(rows, gateway(progress.call(rows))),
            rows,
            gateway,
            stop,
        );
    }
}

/// The way to the record `stop` depends on the records before it only, and
/// ends at the start of that record unless a fault stops the batch before.
proof fn lemma_way_to_stop(
    progress: Progress,
    rows: Seq<Row>,
    others: Seq<Row>,
    gateway: spec_fn(PayloadView) -> GatewayResult,
    stop: nat,
)
    requires
        stop <= rows.len(),
        stop <= others.len(),
        rows.take(stop as int) == others.take(stop as int),
        progress.cursor < stop || (progress.cursor == stop && progress.stage
            == Stage::CreateIndividual),
    ensures
        progress.completed_until(rows, gateway, stop) == progress.completed_until(
            others,
            gateway,
            stop,
        ),
        ({
            let there = progress.completed_until(rows, gateway, stop);
            there.failure is Some || (there.cursor == stop && there.stage
                == Stage::CreateIndividual)
        }),
    decreases progress.distance(rows),
{
    if progress.running(rows) && progress.cursor < stop {
        let at = progress.cursor as int;
        assert(rows[at] == rows.take(stop as int)[at]);
        assert(others[at] == others.take(stop as int)[at]);
        lemma_way_to_stop(
            progress.after(rows, gateway(progress.call(rows))),
            rows,
            others,
            gateway,
            stop,
        );
    }
}

/// Two batches that are in step deal with their record alike: both are
/// stopped or neither, with the same reports, and where neither is stopped
/// both stand at the start of the record behind.
proof fn lemma_records_in_step(
    progress: Progress,
    rows: Seq<Row>,
    other: Progress,
    others: Seq<Row>,
    gateway: spec_fn(PayloadView) -> GatewayResult,
)
    requires
        progress.in_step(rows, other, others),
    ensures
        ({
            let done = progress.record_done(rows, gateway);
            let other_done = other.record_done(others, gateway);
            &&& done.same_end(other_done)
            &&& done.failure is None ==> {
                &&& done.cursor == progress.cursor + 1
                &&& other_done.cursor == other.cursor + 1
                &&& done.stage == Stage::CreateIndividual
                &&& other_done.stage == Stage::CreateIndividual
            }
        }),
    decreases progress.distance(rows),
{
    let next = progress.after(rows, gateway(progress.call(rows)));
    let other_next = other.after(others, gateway(other.call(others)));
    assert(progress.call(rows) == other.call(others));
    if next.failure is None && next.cursor == progress.cursor {
        assert(next.in_step(rows, other_next, others));
        lemma_records_in_step(next, rows, other_next, others, gateway);
    }
}

/// Two batches that stand at the start of a record with the same reports
/// and the same records left come to the same end.
proof fn lemma_same_rest_same_end(
    progress: Progress,
    rows: Seq<Row>,
    other: Progress,
    others: Seq<Row>,
    gateway: spec_fn(PayloadView) -> GatewayResult,
)
    requires
        progress.cursor <= rows.len(),
        other.cursor <= others.len(),
        rows.skip(progress.cursor as int) == others.skip(other.cursor as int),
        progress.stage == Stage::CreateIndividual,
        other.stage == Stage::CreateIndividual,
        progress.failure is None,
        other.failure is None,
        progress.reports == other.reports,
    ensures
        progress.completed(rows, gateway).same_end(other.completed(others, gateway)),
    decreases rows.len() - progress.cursor,
{
    let left = rows.skip(progress.cursor as int);
    let other_left = others.skip(other.cursor as int);
    assert(left.len() == rows.len() - progress.cursor);
    assert(other_left.len() == others.len() - other.cursor);
    if progress.cursor < rows.len() {
        assert(rows[progress.cursor as int] == left[0]);
        assert(others[other.cursor as int] == other_left[0]);
        lemma_records_in_step(progress, rows, other, others, gateway);
        lemma_record_is_on_the_way(progress, rows, gateway);
        lemma_record_is_on_the_way(other, others, gateway);
        let done = progress.record_done(rows, gateway);
        let other_done = other.record_done(others, gateway);
        if done.failure is None {
            assert(rows.skip(done.cursor as int) =~= left.skip(1));
            assert(others.skip(other_done.cursor as int) =~= other_left.skip(1));
            lemma_same_rest_same_end(done, rows, other_done, others, gateway);
        }
    }
}

/// From the start of a record, dealing with it comes to what the record
/// comes to.
proof fn lemma_record_done_is_record_end(
    progress: Progress,
    rows: Seq<Row>,
    gateway: spec_fn(PayloadView) -> GatewayResult,
)
    requires
        progress.running(rows),
        progress.stage == Stage::CreateIndividual,
    ensures
        ({
            let done = progress.record_done(rows, gateway);
            match record_end(rows[progress.cursor as int], gateway) {
                RecordEnd::Stopped { stage, fault } => done.reports == progress.reports
                    && done.failure == Some(
                    BatchError { record: progress.cursor as usize, stage, fault },
                ),
                RecordEnd::Skipped => done.reports == progress.reports && done.failure is None
                    && done.cursor == progress.cursor + 1 && done.stage
                    == Stage::CreateIndividual,
                RecordEnd::Booked { source_account, branch, amount, receipt } => done.reports
                    == progress.reports.with_payment(source_account, branch, amount, receipt)
                    && done.failure is None && done.cursor == progress.cursor + 1 && done.stage
                    == Stage::CreateIndividual,
            }
        }),
{
    let first = progress.after(rows, gateway(progress.call(rows)));
    assert(progress.record_done(rows, gateway) == if first.failure is None {
        first.record_done(rows, gateway)
    } else {
        first
    });
    if first.failure is None {
        let second = first.after(rows, gateway(first.call(rows)));
        assert(first.record_done(rows, gateway) == if second.failure is None {
            second.record_done(rows, gateway)
        } else {
            second
        });
        if second.failure is None {
            let third = second.after(rows, gateway(second.call(rows)));
            assert(second.record_done(rows, gateway) == if third.failure is None {
                third.record_done(rows, gateway)
            } else {
                third
            });
            if third.failure is None {
                let fourth = third.after(rows, gateway(third.call(rows)));
                assert(third.record_done(rows, gateway) == if fourth.failure is None
                    && fourth.cursor == third.cursor {
                    fourth.record_done(rows, gateway)
                } else {
                    fourth
                });
                if fourth.failure is None && fourth.cursor == third.cursor {
                    assert(fourth.record_done(rows, gateway) == fourth.after(
                        rows,
                        gateway(fourth.call(rows)),
                    ));
                }
            }
        }
    }
}

/// From within a record, coming to the record behind it is dealing with it.
proof fn lemma_until_next_is_record_done(
    progress: Progress,
    rows: Seq<Row>,
    gateway: spec_fn(PayloadView) -> GatewayResult,
)
    requires
        progress.running(rows),
    ensures
        progress.completed_until(rows, gateway, (progress.cursor + 1) as nat)
            == progress.record_done(rows, gateway),
    decreases progress.distance(rows),
{
    let stop = (progress.cursor + 1) as nat;
    let next = progress.after(rows, gateway(progress.call(rows)));
    assert(progress.completed_until(rows, gateway, stop) == next.completed_until(
        rows,
        gateway,
        stop,
    ));
    if next.failure is None && next.cursor == progress.cursor {
        lemma_until_next_is_record_done(next, rows, gateway);
    } else {
        assert(next.completed_until(rows, gateway, stop) == next);
    }
}

/// Coming to a record leads over every record before it.
proof fn lemma_until_in_two(
    progress: Progress,
    rows: Seq<Row>,
    gateway: spec_fn(PayloadView) -> GatewayResult,
    first: nat,
    second: nat,
)
    requires
        first <= second,
    ensures
        progress.completed_until(rows, gateway, first).completed_until(rows, gateway, second)
            == progress.completed_until(rows, gateway, second),
    decreases progress.distance(rows),
{
    if progress.running(rows) && progress.cursor < first {
        lemma_until_in_two(
            progress.after(rows, gateway(progress.call(rows))),
            rows,
            gateway,
            first,
            second,
        );
    }
}

proof fn lemma_batch_end_so_far(
    rows: Seq<Row>,
    gateway: spec_fn(PayloadView) -> GatewayResult,
    count: nat,
)
    requires
        count <= rows.len(),
    ensures
        ({
            let there = Progress::start().completed_until(rows, gateway, count);
            let end = batch_end(rows, gateway, count);
            &&& there.reports == end.0
            &&& there.failure == end.1
            &&& there.failure is None ==> there.cursor == count && there.stage
                == Stage::CreateIndividual
        }),
    decreases count,
{
    if count > 0 {
        let fewer = (count - 1) as nat;
        lemma_batch_end_so_far(rows, gateway, fewer);
        lemma_until_in_two(Progress::start(), rows, gateway, fewer, count);
        let before = Progress::start().completed_until(rows, gateway, fewer);
        if before.failure is None {
            lemma_until_next_is_record_done(before, rows, gateway);
            lemma_record_done_is_record_end(before, rows, gateway);
        }
    }
}

/// A record that is skipped might as well not be in the batch: where the
/// four calls before its payment succeed and the payment fails, or where
/// nothing is booked for it for another reason, the batch ends with the
/// reports of the batch without that record, and is stopped by a fault
/// exactly where that batch is.
pub proof fn law_failed_payment_is_as_if_the_record_were_absent(
    rows: Seq<Row>,
    gateway: spec_fn(PayloadView) -> GatewayResult,
    at: int,
)
    requires
        0 <= at < rows.len(),
        record_end(rows[at], gateway) is Skipped,
    ensures
        Progress::start().completed(rows, gateway).same_end(
            Progress::start().completed(rows.remove(at), gateway),
        ),
{
    let others = rows.remove(at);
    let start = Progress::start();
    assert(rows.take(at) =~= others.take(at));
    lemma_way_to_stop(start, rows, others, gateway, at as nat);
    lemma_stop_is_on_the_way(start, rows, gateway, at as nat);
    lemma_stop_is_on_the_way(start, others, gateway, at as nat);
    let there = start.completed_until(rows, gateway, at as nat);
    if there.failure is None {
        let done = there.record_done(rows, gateway);
        lemma_record_is_on_the_way(there, rows, gateway);
        lemma_record_done_is_record_end(there, rows, gateway);
        assert(rows.skip(at + 1) =~= others.skip(at));
        lemma_same_rest_same_end(done, rows, there, others, gateway);
    }
}

/// A batch ends as its records say, one after the other: each payment that
/// was made is booked once, in the order of the records, with the amount of
/// its reply under its source account and its branch; a record that was
/// skipped books nothing; and the first fault before a payment stops the
/// batch, with the reports as they stood and the record and the call named.
pub proof fn law_batch_ends_as_its_records_say(
    rows: Seq<Row>,
    gateway: spec_fn(PayloadView) -> GatewayResult,
)
    ensures
        Progress::start().completed(rows, gateway).reports == batch_end(
            rows,
            gateway,
            rows.len(),
        ).0,
        Progress::start().completed(rows, gateway).failure == batch_end(
            rows,
            gateway,
            rows.len(),
        ).1,
{
    lemma_batch_end_so_far(rows, gateway, rows.len());
    lemma_stop_is_on_the_way(Progress::start(), rows, gateway, rows.len());
}

/// A payment that fails, or whose reply holds no amount, leaves all three
/// reports as they were, and the batch goes on with the next record.
pub proof fn law_failed_payment_changes_no_report(
    progress: Progress,
    rows: Seq<Row>,
    result: GatewayResult,
)
    requires
        progress.wf(rows),
        progress.running(rows),
        progress.stage == Stage::CreatePayment,
        result is Failure || result->Success_0.amount is None,
    ensures
        progress.after(rows, result).reports == progress.reports,
        progress.after(rows, result).failure is None,
        progress.after(rows, result).cursor == progress.cursor + 1,
{
}

/// A payment that succeeds is booked once: its amount under the account
/// that the corporation's account call handed back and under the branch of
/// the record's employee, and its receipt at the end of the list.
pub proof fn law_successful_payment_is_booked(
    progress: Progress,
    rows: Seq<Row>,
    receipt: Receipt,
)
    requires
        progress.wf(rows),
        progress.running(rows),
        progress.stage == Stage::CreatePayment,
        receipt.amount is Some,
    ensures
        progress.after(rows, GatewayResult::Success(receipt)).reports
            == progress.reports.with_payment(
            progress.corp_account_id,
            rows[progress.cursor as int].employee.dunkin_branch@,
            receipt.amount->0@,
            receipt,
        ),
{
}

/// A fault before the payment stops the batch at once: no call follows it,
/// and the reports stay as they were.
pub proof fn law_fault_stops_the_batch(progress: Progress, rows: Seq<Row>, result: GatewayResult)
    requires
        progress.wf(rows),
        progress.running(rows),
        progress.stage != Stage::CreatePayment,
        identifier_of(result) is Err,
    ensures
        progress.after(rows, result).failure == Some(
            BatchError {
                record: progress.cursor as usize,
                stage: progress.stage,
                fault: identifier_of(result)->Err_0,
            },
        ),
        !progress.after(rows, result).running(rows),
        progress.after(rows, result).reports == progress.reports,
{
}

/// A batch under way.
#[derive(Debug)]
pub struct Batch {
    rows: Vec<Row>,
    cursor: usize,
    stage: Stage,
    individual_id: String,
    corporation_id: String,
    corp_account_id: String,
    loan_account_id: String,
    amount: Option<Amount>,
    budget: RateBudget,
    reports: Reports,
    failure: Option<BatchError>,
    in_flight: bool,
}

impl View for Batch {
    type V = BatchView;

    closed spec fn view(&self) -> BatchView {
        BatchView {
            rows: self.rows@,
            progress: Progress {
                cursor: self.cursor as nat,
                stage: self.stage,
                individual_id: self.individual_id@,
                corporation_id: self.corporation_id@,
                corp_account_id: self.corp_account_id@,
                loan_account_id: self.loan_account_id@,
                reports: self.reports@,
                failure: self.failure,
            },
            budget: self.budget@,
            in_flight: self.in_flight,
        }
    }
}

impl Batch {
    #[verifier::type_invariant]
    spec fn valid(&self) -> bool {
        &&& self@.wf()
        &&& self@.progress.running(self.rows@) && self.stage == Stage::CreatePayment ==> self.amount
            is Some && Some(self.amount->0@) == amount_of(self.rows@[self.cursor as int])
    }

    /// A batch of the records `rows`, on the budget of the payments platform.
    pub fn new(rows: Vec<Row>) -> (batch: Batch)
        ensures
            batch@.wf(),
            batch@.rows == rows@,
            batch@.progress == Progress::start(),
            batch@.budget == Budget::fresh(WINDOW_CAPACITY as nat, WINDOW_DURATION as nat),
            !batch@.in_flight,
    {
        Batch::with_budget(rows, RateBudget::standard())
    }

    /// A batch of the records `rows`, on a budget of the caller's.
    pub fn with_budget(rows: Vec<Row>, budget: RateBudget) -> (batch: Batch)
        ensures
            batch@.wf(),
            batch@.rows == rows@,
            batch@.progress == Progress::start(),
            batch@.budget == budget@,
            !batch@.in_flight,
    {
        proof {
            use_type_invariant(&budget);
        }
        Batch {
            rows,
            cursor: 0,
            stage: Stage::CreateIndividual,
            individual_id: String::new(),
            corporation_id: String::new(),
            corp_account_id: String::new(),
            loan_account_id: String::new(),
            amount: None,
            budget,
            reports: Reports::new(),
            failure: None,
            in_flight: false,
        }
    }

    /// Says what the driver is to do at the time `now`, and counts the call
    /// that it sends out.
    pub fn poll(self, now: u64) -> (next: (Batch, Action))
        ensures
            self@.wf(),
            next.0@ == self@.polled(now as nat),
            next.1@ == self@.action(now as nat),
    {
        proof {
            use_type_invariant(&self);
        }
        let Batch {
            rows,
            cursor,
            stage,
            individual_id,
            corporation_id,
            corp_account_id,
            loan_account_id,
            amount,
            budget,
            reports,
            failure,
            in_flight,
        } = self;
        let mut budget = budget;
        let mut in_flight = in_flight;
        let action = match failure {
            Some(error) => Action::Aborted(error),
            None => {
                if cursor >= rows.len() {
                    Action::Finished
                } else if in_flight {
                    Action::Awaiting
                } else {
                    match budget.request(now) {
                        Admission::Deferred(wait) => Action::Suspend(wait),
                        Admission::Granted => {
                            in_flight = true;
                            let row = &rows[cursor];
                            let payload = match stage {
                                Stage::CreateIndividual => RequestPayload::Individual(
                                    row_to_individual_entity(row).unwrap(),
                                ),
                                Stage::CreateCorporation => RequestPayload::Corporation(
                                    row_to_corporation_entity(row).unwrap(),
                                ),
                                Stage::CreateCorpAccount => RequestPayload::Account {
                                    account: row_to_account_entity(row).unwrap(),
                                    holder_id: corporation_id.clone(),
                                },
                                Stage::CreateLoanAccount => RequestPayload::Account {
                                    account: row_to_liability_entity(row).unwrap(),
                                    holder_id: individual_id.clone(),
                                },
                                Stage::CreatePayment => {
                                    let due = match &amount {
                                        Some(due) => due.clone(),
                                        None => unreached(),
                                    };
                                    RequestPayload::Payment {
                                        amount: due,
                                        source: corp_account_id.clone(),
                                        destination: loan_account_id.clone(),
                                    }
                                },
                            };
                            Action::Dispatch(payload)
                        },
                    }
                }
            },
        };
        (
            Batch {
                rows,
                cursor,
                stage,
                individual_id,
                corporation_id,
                corp_account_id,
                loan_account_id,
                amount,
                budget,
                reports,
                failure,
                in_flight,
            },
            action,
        )
    }

    /// Takes the result of the call that is out, and moves the batch on.
    pub fn settle(self, result: GatewayResult) -> (next: Batch)
        ensures
            self@.wf(),
            next@ == self@.settled(result),
    {
        proof {
            use_type_invariant(&self);
        }
        let Batch {
            rows,
            cursor,
            stage,
            individual_id,
            corporation_id,
            corp_account_id,
            loan_account_id,
            amount,
            budget,
            reports,
            failure,
            in_flight,
        } = self;
        if !in_flight {
            return Batch {
                rows,
                cursor,
                stage,
                individual_id,
                corporation_id,
                corp_account_id,
                loan_account_id,
                amount,
                budget,
                reports,
                failure,
                in_flight,
            };
        }
        let count = rows.len();
        assert(cursor < count);
        let mut individual_id = individual_id;
        let mut corporation_id = corporation_id;
        let mut corp_account_id = corp_account_id;
        let mut loan_account_id = loan_account_id;
        let mut reports = reports;
        let mut amount = amount;
        let mut cursor = cursor;
        let mut stage = stage;
        let mut failure = failure;
        match stage {
            Stage::CreatePayment => {
                match result {
                    GatewayResult::Success(receipt) => {
                        let paid = match &receipt.amount {
                            Some(paid) => Some(paid.clone()),
                            None => None,
                        };
                        match paid {
                            Some(paid) => {
                                reports.record_payment(
                                    corp_account_id.as_str(),
                                    rows[cursor].employee.dunkin_branch.as_str(),
                                    &paid,
                                    receipt,
                                );
                            },
                            None => {},
                        }
                    },
                    GatewayResult::Failure(_) => {},
                }
                cursor = cursor + 1;
                stage = Stage::CreateIndividual;
            },
            _ => {
                let id = match result {
                    GatewayResult::Success(receipt) => match receipt.id {
                        Some(id) => Ok(id),
                        None => Err(Fault::MissingIdentifier),
                    },
                    GatewayResult::Failure(error) => Err(Fault::Gateway(error)),
                };
                match id {
                    Err(fault) => {
                        failure = Some(BatchError { record: cursor, stage, fault });
                    },
                    Ok(id) => match stage {
                        Stage::CreateIndividual => {
                            individual_id = id;
                            stage = Stage::CreateCorporation;
                        },
                        Stage::CreateCorporation => {
                            corporation_id = id;
                            stage = Stage::CreateCorpAccount;
                        },
                        Stage::CreateCorpAccount => {
                            corp_account_id = id;
                            stage = Stage::CreateLoanAccount;
                        },
                        _ => {
                            loan_account_id = id;
                            match row_to_amount(&rows[cursor]) {
                                Ok(due) => {
                                    amount = Some(due);
                                    stage = Stage::CreatePayment;
                                },
                                Err(_) => {
                                    cursor = cursor + 1;
                                    stage = Stage::CreateIndividual;
                                },
                            }
                        },
                    },
                }
            },
        }
        Batch {
            rows,
            cursor,
            stage,
            individual_id,
            corporation_id,
            corp_account_id,
            loan_account_id,
            amount,
            budget,
            reports,
            failure,
            in_flight: false,
        }
    }

    /// The reports so far.
    pub fn reports(&self) -> (reports: &Reports)
        ensures
            reports@ == self@.progress.reports,
    {
        &self.reports
    }

    /// How the batch ended: the reports of a batch that is through, the
    /// fault of one that was stopped, and nothing of one that has calls left.
    pub fn conclude(self) -> (r: Option<Result<Reports, BatchError>>)
        ensures
            match r {
                Some(Ok(reports)) => self@.progress.failure is None && self@.progress.cursor
                    >= self@.rows.len() && reports@ == self@.progress.reports,
                Some(Err(error)) => self@.progress.failure == Some(error),
                None => self@.progress.running(self@.rows),
            },
    {
        proof {
            use_type_invariant(&self);
        }
        match self.failure {
            Some(error) => Some(Err(error)),
            None => {
                if self.cursor >= self.rows.len() {
                    Some(Ok(self.reports))
                } else {
                    None
                }
            },
        }
    }
}

} // verus!
