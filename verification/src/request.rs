//! The steps of one request. The service around this crate does the work
//! that a step asks for and reports what came of it; which step comes next,
//! when the connection goes back to the pool, and what the client is told,
//! is decided here.

use crate::encode::{all_conform, encode, envelope, row_texts};
use crate::record::{row_conforms, ColumnModel, Projection};
use crate::response::{failure_model, Fault, Response, ResponseModel};
use vstd::prelude::*;

verus! {

/// Where a request stands.
#[derive(Clone, Copy, Debug, PartialEq, Eq, Structural)]
pub enum Phase {
    /// Nothing has happened yet.
    Start,
    /// A connection has been asked for.
    Acquiring,
    /// The query runs on the borrowed connection.
    Querying,
    /// The rows are being serialized; the connection is back in the pool.
    Encoding,
    /// Answered with the envelope.
    Succeeded,
    /// Answered with a diagnostic.
    Faulted,
}

/// What the service reports.
#[derive(Debug)]
pub enum Event {
    /// The request came in.
    Arrived,
    /// The pool handed out a connection.
    Acquired,
    /// The pool handed out none.
    AcquireFailed,
    /// The query returned its rows.
    QuerySucceeded,
    /// The query failed.
    QueryFailed,
    /// Every row was serialized; the rows are given in the order in which
    /// the query returned them.
    RowsSerialized(Vec<Vec<u8>>),
    /// Some row could not be serialized.
    SerializeFailed,
}

/// An event as the contracts see it.
pub enum EventModel {
    Arrived,
    Acquired,
    AcquireFailed,
    QuerySucceeded,
    QueryFailed,
    RowsSerialized(Seq<Seq<u8>>),
    SerializeFailed,
}

impl View for Event {
    type V = EventModel;

    open spec fn view(&self) -> EventModel {
        match self {
            Event::Arrived => EventModel::Arrived,
            Event::Acquired => EventModel::Acquired,
            Event::AcquireFailed => EventModel::AcquireFailed,
            Event::QuerySucceeded => EventModel::QuerySucceeded,
            Event::QueryFailed => EventModel::QueryFailed,
            Event::RowsSerialized(rows) => EventModel::RowsSerialized(row_texts(rows@)),
            Event::SerializeFailed => EventModel::SerializeFailed,
        }
    }
}

/// What the service is asked to do next.
#[derive(Debug)]
pub enum Action {
    /// Borrow a connection from the pool.
    Acquire,
    /// Run the projection's query on the borrowed connection.
    Query,
    /// Serialize each row.
    Serialize,
    /// Send the answer.
    Respond(Response),
}

/// An action as the contracts see it.
pub enum ActionModel {
    Acquire,
    Query,
    Serialize,
    Respond(ResponseModel),
}

impl View for Action {
    type V = ActionModel;

    open spec fn view(&self) -> ActionModel {
        match self {
            Action::Acquire => ActionModel::Acquire,
            Action::Query => ActionModel::Query,
            Action::Serialize => ActionModel::Serialize,
            Action::Respond(response) => ActionModel::Respond(response@),
        }
    }
}

/// One step: the phase that the request enters, whether the connection goes
/// back to the pool first, and what to do then.
#[derive(Debug)]
pub struct Step {
    pub phase: Phase,
    pub release: bool,
    pub action: Action,
}

/// A step as the contracts see it.
pub struct StepModel {
    pub phase: Phase,
    pub release: bool,
    pub action: ActionModel,
}

impl View for Step {
    type V = StepModel;

    open spec fn view(&self) -> StepModel {
        StepModel { phase: self.phase, release: self.release, action: self.action@ }
    }
}

/// Whether a request in `phase` holds a connection.
pub open spec fn holds_connection(phase: Phase) -> bool {
    phase == Phase::Querying
}

/// Whether `phase` is one of the two in which a request ends.
pub open spec fn is_terminal(phase: Phase) -> bool {
    phase == Phase::Succeeded || phase == Phase::Faulted
}

/// How far a request in `phase` has come.
pub open spec fn progress(phase: Phase) -> nat {
    match phase {
        Phase::Start => 0,
        Phase::Acquiring => 1,
        Phase::Querying => 2,
        Phase::Encoding => 3,
        Phase::Succeeded => 4,
        Phase::Faulted => 4,
    }
}

/// The answer to rows that were serialized: the envelope where every row
/// conforms to the columns, the encoding fault where one does not.
pub open spec fn encoded_response(
    rows: Seq<Seq<u8>>,
    table: Seq<char>,
    columns: Seq<ColumnModel>,
) -> ResponseModel {
    if all_conform(rows, columns) {
        ResponseModel::Success { body: envelope(rows) }
    } else {
        failure_model(Fault::EncodeFailed, table)
    }
}

/// The step that `event` causes in `phase`, for a request that reads
/// `columns` from `table`; none where the event has no place in that phase.
pub open spec fn next_step(
    phase: Phase,
    event: EventModel,
    table: Seq<char>,
    columns: Seq<ColumnModel>,
) -> Option<StepModel> {
    match (phase, event) {
        (Phase::Start, EventModel::Arrived) => Some(
            StepModel { phase: Phase::Acquiring, release: false, action: ActionModel::Acquire },
        ),
        (Phase::Acquiring, EventModel::Acquired) => Some(
            StepModel { phase: Phase::Querying, release: false, action: ActionModel::Query },
        ),
        (Phase::Acquiring, EventModel::AcquireFailed) => Some(
            StepModel {
                phase: Phase::Faulted,
                release: false,
                action: ActionModel::Respond(failure_model(Fault::PoolUnavailable, table)),
            },
        ),
        (Phase::Querying, EventModel::QuerySucceeded) => Some(
            StepModel { phase: Phase::Encoding, release: true, action: ActionModel::Serialize },
        ),
        (Phase::Querying, EventModel::QueryFailed) => Some(
            StepModel {
                phase: Phase::Faulted,
                release: true,
                action: ActionModel::Respond(failure_model(Fault::QueryFailed, table)),
            },
        ),
        (Phase::Encoding, EventModel::RowsSerialized(rows)) => {
            let response = encoded_response(rows, table, columns);
            Some(
                StepModel {
                    phase: if response is Success {
                        Phase::Succeeded
                    } else {
                        Phase::Faulted
                    },
                    release: false,
                    action: ActionModel::Respond(response),
                },
            )
        },
        (Phase::Encoding, EventModel::SerializeFailed) => Some(
            StepModel {
                phase: Phase::Faulted,
                release: false,
                action: ActionModel::Respond(failure_model(Fault::EncodeFailed, table)),
            },
        ),
        _ => None,
    }
}

/// The answer to rows that were serialized.
pub fn respond_to_rows(projection: &Projection, rows: &Vec<Vec<u8>>) -> (response: Response)
    ensures
        response@ == encoded_response(
            row_texts(rows@),
            projection.table_name(),
            projection.columns(),
        ),
{
    match encode(projection, rows) {
        Ok(body) => Response::Success { body },
        Err(e) => {
            assert(!all_conform(row_texts(rows@), projection.columns())) by {
                assert(!row_conforms(row_texts(rows@)[e.row as int], projection.columns()));
            }
            Response::failure(Fault::EncodeFailed, projection.table())
        },
    }
}

/// Takes one step. Returns none, and asks for nothing, if and only if
/// `event` has no place in `phase`; a request that has been answered takes
/// no further step.
pub fn step(phase: Phase, event: Event, projection: &Projection) -> (next: Option<Step>)
    ensures
        match next {
            Some(taken) => Some(taken@) == next_step(
                phase,
                event@,
                projection.table_name(),
                projection.columns(),
            ),
            None => next_step(phase, event@, projection.table_name(), projection.columns())
                is None,
        },
{
    let table = projection.table();
    match (phase, event) {
        (Phase::Start, Event::Arrived) => Some(
            Step { phase: Phase::Acquiring, release: false, action: Action::Acquire },
        ),
        (Phase::Acquiring, Event::Acquired) => Some(
            Step { phase: Phase::Querying, release: false, action: Action::Query },
        ),
        (Phase::Acquiring, Event::AcquireFailed) => Some(
            Step {
                phase: Phase::Faulted,
                release: false,
                action: Action::Respond(Response::failure(Fault::PoolUnavailable, table)),
            },
        ),
        (Phase::Querying, Event::QuerySucceeded) => Some(
            Step { phase: Phase::Encoding, release: true, action: Action::Serialize },
        ),
        (Phase::Querying, Event::QueryFailed) => Some(
            Step {
                phase: Phase::Faulted,
                release: true,
                action: Action::Respond(Response::failure(Fault::QueryFailed, table)),
            },
        ),
        (Phase::Encoding, Event::RowsSerialized(rows)) => {
            let response = respond_to_rows(projection, &rows);
            let phase = if response.is_success() {
                Phase::Succeeded
            } else {
                Phase::Faulted
            };
            Some(Step { phase, release: false, action: Action::Respond(response) })
        },
        (Phase::Encoding, Event::SerializeFailed) => Some(
            Step {
                phase: Phase::Faulted,
                release: false,
                action: Action::Respond(Response::failure(Fault::EncodeFailed, table)),
            },
        ),
        _ => None,
    }
}

/// No step leads back: every step takes the request further, so nothing is
/// tried a second time.
pub proof fn lemma_step_advances(
    phase: Phase,
    event: EventModel,
    table: Seq<char>,
    columns: Seq<ColumnModel>,
)
    ensures
        next_step(phase, event, table, columns) matches Some(taken) ==> progress(taken.phase)
            > progress(phase),
{
}

/// A request that has been answered takes no further step.
pub proof fn lemma_answered_is_final(
    phase: Phase,
    event: EventModel,
    table: Seq<char>,
    columns: Seq<ColumnModel>,
)
    requires
        is_terminal(phase),
    ensures
        next_step(phase, event, table, columns) is None,
{
}

/// A connection is held while the query runs and at no other time: only the
/// step on a granted connection enters that phase, and every step that
/// leaves it, whether the query succeeded or failed, gives the connection
/// back first.
pub proof fn lemma_connection_scoped(
    phase: Phase,
    event: EventModel,
    table: Seq<char>,
    columns: Seq<ColumnModel>,
)
    ensures
        next_step(phase, event, table, columns) matches Some(taken) ==> {
            &&& taken.release == holds_connection(phase)
            &&& holds_connection(taken.phase) == (event is Acquired)
            &&& holds_connection(taken.phase) == (taken.action is Query)
        },
{
}

/// An answer is sent exactly on the step that ends the request: the envelope
/// with the step into `Succeeded`, a diagnostic with the step into `Faulted`.
/// When the pool hands out no connection, the diagnostic is the next action,
/// so no query is asked for.
pub proof fn lemma_answer_ends_request(
    phase: Phase,
    event: EventModel,
    table: Seq<char>,
    columns: Seq<ColumnModel>,
)
    ensures
        next_step(phase, event, table, columns) matches Some(taken) ==> {
            &&& is_terminal(taken.phase) == (taken.action is Respond)
            &&& taken.action matches ActionModel::Respond(response) ==> (response is Success) == (
            taken.phase == Phase::Succeeded)
            &&& event is AcquireFailed ==> taken.action == ActionModel::Respond(
                failure_model(Fault::PoolUnavailable, table),
            )
        },
{
}

/// Where a request stands after some events, with the connections that it
/// was granted and those that it gave back.
pub struct Tally {
    pub phase: Phase,
    pub acquired: nat,
    pub released: nat,
}

/// The tally of a request that starts fresh and sees `events` in order. An
/// event that has no place in the phase it meets changes nothing.
pub open spec fn tally_after(
    events: Seq<EventModel>,
    table: Seq<char>,
    columns: Seq<ColumnModel>,
) -> Tally
    decreases events.len(),
{
    if events.len() == 0 {
        Tally { phase: Phase::Start, acquired: 0, released: 0 }
    } else {
        let before = tally_after(events.drop_last(), table, columns);
        match next_step(before.phase, events.last(), table, columns) {
            Some(taken) => Tally {
                phase: taken.phase,
                acquired: before.acquired + if events.last() is Acquired {
                    1nat
                } else {
                    0nat
                },
                released: before.released + if taken.release {
                    1nat
                } else {
                    0nat
                },
            },
            None => before,
        }
    }
}

/// Whatever the service reports, a request borrows at most one connection,
/// holds it exactly while its query runs, and has given it back once it is
/// answered.
pub proof fn lemma_connection_returned(
    events: Seq<EventModel>,
    table: Seq<char>,
    columns: Seq<ColumnModel>,
)
    ensures
        ({
            let tally = tally_after(events, table, columns);
            &&& tally.acquired <= 1
            &&& tally.acquired - tally.released == if holds_connection(tally.phase) {
                1int
            } else {
                0int
            }
            &&& is_terminal(tally.phase) ==> tally.released == tally.acquired
            &&& progress(tally.phase) < 2 ==> tally.acquired == 0
        }),
    decreases events.len(),
{
    if events.len() > 0 {
        lemma_connection_returned(events.drop_last(), table, columns);
    }
}

} // verus!
