//! The listener's book of connections. Each accepted connection gets a
//! record of its own; what happens to one connection is written to its
//! record and to no other, and the listener goes on accepting.

use crate::pipeline::{ConnectionError, Stage, StageEnd, StageFault};
use vstd::prelude::*;

verus! {

/// How a connection ended.
#[derive(Clone, Copy, Debug, PartialEq, Eq, Structural)]
pub enum ConnectionOutcome {
    /// The peer went away and every stage wound down.
    Disconnected,
    /// A stage failed.
    Faulted(StageFault),
}

/// Whether a connection is still served.
#[derive(Clone, Copy, Debug, PartialEq, Eq, Structural)]
pub enum ConnectionStatus {
    /// At least one task of the connection has not been joined.
    Active,
    /// Every task has been joined.
    Closed(ConnectionOutcome),
}

/// What the listener refuses.
#[derive(Clone, Copy, Debug, PartialEq, Eq, Structural)]
pub enum SupervisorError {
    /// No connection has this number.
    UnknownConnection,
    /// The task of this stage was joined before.
    AlreadyJoined,
}

/// The record of one connection: how each of its three tasks ended, once
/// it was joined.
#[derive(Clone, Copy, Debug, PartialEq, Eq, Structural)]
pub struct ConnectionRecord {
    pub receive: Option<StageEnd>,
    pub infer: Option<StageEnd>,
    pub send: Option<StageEnd>,
}

/// The fault that an end stands for, unless the end is an orderly one:
/// the peer closing the stream, or a neighbour stage having ended.
pub open spec fn fault_of(end: StageEnd) -> Option<StageFault> {
    match end {
        StageEnd::Fault(StageFault::Connection(ConnectionError::Closed)) => None,
        StageEnd::Fault(fault) => Some(fault),
        StageEnd::UpstreamDone => None,
        StageEnd::DownstreamGone => None,
    }
}

impl ConnectionRecord {
    /// The record of a connection that was just accepted.
    pub open spec fn fresh() -> ConnectionRecord {
        ConnectionRecord { receive: None, infer: None, send: None }
    }

    /// The end recorded for a stage.
    pub open spec fn end_of(self, stage: Stage) -> Option<StageEnd> {
        match stage {
            Stage::Receive => self.receive,
            Stage::Infer => self.infer,
            Stage::Send => self.send,
        }
    }

    /// The record with the end of one more stage.
    pub open spec fn with_end(self, stage: Stage, end: StageEnd) -> ConnectionRecord {
        match stage {
            Stage::Receive => ConnectionRecord { receive: Some(end), ..self },
            Stage::Infer => ConnectionRecord { infer: Some(end), ..self },
            Stage::Send => ConnectionRecord { send: Some(end), ..self },
        }
    }

    /// True if every task has been joined.
    pub open spec fn all_joined(self) -> bool {
        self.receive is Some && self.infer is Some && self.send is Some
    }

    /// How the connection ended: by the first fault in the order of the
    /// stages, or by the peer going away.
    pub open spec fn outcome(self) -> ConnectionOutcome {
        if self.receive is Some && fault_of(self.receive->Some_0) is Some {
            ConnectionOutcome::Faulted(fault_of(self.receive->Some_0)->Some_0)
        } else if self.infer is Some && fault_of(self.infer->Some_0) is Some {
            ConnectionOutcome::Faulted(fault_of(self.infer->Some_0)->Some_0)
        } else if self.send is Some && fault_of(self.send->Some_0) is Some {
            ConnectionOutcome::Faulted(fault_of(self.send->Some_0)->Some_0)
        } else {
            ConnectionOutcome::Disconnected
        }
    }

    /// The status of the connection: closed only once every task has been
    /// joined.
    pub open spec fn status(self) -> ConnectionStatus {
        if self.all_joined() {
            ConnectionStatus::Closed(self.outcome())
        } else {
            ConnectionStatus::Active
        }
    }
}

/// The book after the task of `stage` of connection `id` was joined.
pub open spec fn spec_task_joined(
    records: Seq<ConnectionRecord>,
    id: int,
    stage: Stage,
    end: StageEnd,
) -> Result<Seq<ConnectionRecord>, SupervisorError> {
    if !(0 <= id < records.len()) {
        Err(SupervisorError::UnknownConnection)
    } else if records[id].end_of(stage) is Some {
        Err(SupervisorError::AlreadyJoined)
    } else {
        Ok(records.update(id, records[id].with_end(stage, end)))
    }
}

/// The fault of an end, if it stands for one.
pub fn end_fault(end: StageEnd) -> (fault: Option<StageFault>)
    ensures
        fault == fault_of(end),
{
    match end {
        StageEnd::Fault(StageFault::Connection(ConnectionError::Closed)) => None,
        StageEnd::Fault(fault) => Some(fault),
        StageEnd::UpstreamDone => None,
        StageEnd::DownstreamGone => None,
    }
}

/// The status that a record stands for.
pub fn record_status(record: &ConnectionRecord) -> (status: ConnectionStatus)
    ensures
        status == record.status(),
{
    match (record.receive, record.infer, record.send) {
        (Some(r), Some(i), Some(s)) => {
            match end_fault(r) {
                Some(fault) => ConnectionStatus::Closed(ConnectionOutcome::Faulted(fault)),
                None => match end_fault(i) {
                    Some(fault) => ConnectionStatus::Closed(ConnectionOutcome::Faulted(fault)),
                    None => match end_fault(s) {
                        Some(fault) => ConnectionStatus::Closed(ConnectionOutcome::Faulted(fault)),
                        None => ConnectionStatus::Closed(ConnectionOutcome::Disconnected),
                    },
                },
            }
        },
        _ => ConnectionStatus::Active,
    }
}

/// The listener's book: one record for each connection ever accepted, in
/// the order of acceptance.
pub struct ConnectionSupervisor {
    records: Vec<ConnectionRecord>,
}

impl View for ConnectionSupervisor {
    type V = Seq<ConnectionRecord>;

    closed spec fn view(&self) -> Seq<ConnectionRecord> {
        self.records@
    }
}

impl ConnectionSupervisor {
    /// A book without connections.
    pub fn new() -> (supervisor: ConnectionSupervisor)
        ensures
            supervisor@ == Seq::<ConnectionRecord>::empty(),
    {
        ConnectionSupervisor { records: Vec::new() }
    }

    /// Number of connections ever accepted.
    pub fn accepted(&self) -> (n: usize)
        ensures
            n == self@.len(),
    {
        self.records.len()
    }

    /// Registers a connection that was just accepted, and gives its
    /// number. This is possible whatever became of earlier connections.
    pub fn accept(&mut self) -> (id: usize)
        ensures
            id == old(self)@.len(),
            final(self)@ == old(self)@.push(ConnectionRecord::fresh()),
    {
        let id: usize = self.records.len();
        self.records.push(ConnectionRecord { receive: None, infer: None, send: None });
        id
    }

    /// The record of a connection, if there is one with this number.
    pub fn record(&self, id: usize) -> (record: Option<ConnectionRecord>)
        ensures
            record == if id < self@.len() {
                Some(self@[id as int])
            } else {
                None
            },
    {
        if id < self.records.len() {
            Some(self.records[id])
        } else {
            None
        }
    }

    /// The status of a connection, if there is one with this number.
    pub fn status(&self, id: usize) -> (status: Option<ConnectionStatus>)
        ensures
            status == if id < self@.len() {
                Some(self@[id as int].status())
            } else {
                None
            },
    {
        if id < self.records.len() {
            Some(record_status(&self.records[id]))
        } else {
            None
        }
    }

    /// Records that the task of `stage` of connection `id` was joined and
    /// how it ended, and gives the status of the connection. Only the
    /// record of that connection changes. The connection is closed once
    /// its three tasks are joined.
    pub fn task_joined(&mut self, id: usize, stage: Stage, end: StageEnd) -> (status: Result<
        ConnectionStatus,
        SupervisorError,
    >)
        ensures
            match status {
                Ok(s) => {
                    &&& spec_task_joined(old(self)@, id as int, stage, end) == Ok::<
                        Seq<ConnectionRecord>,
                        SupervisorError,
                    >(final(self)@)
                    &&& s == final(self)@[id as int].status()
                },
                Err(e) => {
                    &&& spec_task_joined(old(self)@, id as int, stage, end) == Err::<
                        Seq<ConnectionRecord>,
                        SupervisorError,
                    >(e)
                    &&& final(self)@ == old(self)@
                },
            },
    {
        if id >= self.records.len() {
            return Err(SupervisorError::UnknownConnection);
        }
        let record: ConnectionRecord = self.records[id];
        let joined: bool = match stage {
            Stage::Receive => record.receive.is_some(),
            Stage::Infer => record.infer.is_some(),
            Stage::Send => record.send.is_some(),
        };
        if joined {
            return Err(SupervisorError::AlreadyJoined);
        }
        let updated: ConnectionRecord = match stage {
            Stage::Receive => ConnectionRecord {
                receive: Some(end),
                infer: record.infer,
                send: record.send,
            },
            Stage::Infer => ConnectionRecord {
                receive: record.receive,
                infer: Some(end),
                send: record.send,
            },
            Stage::Send => ConnectionRecord {
                receive: record.receive,
                infer: record.infer,
                send: Some(end),
            },
        };
        self.records[id] = updated;
        Ok(record_status(&updated))
    }
}

/// Fault isolation: whatever ends a stage of one connection, the record
/// of every other connection stays as it was, no record is lost, and the
/// next connection is accepted as before.
pub proof fn lemma_fault_is_contained(
    records: Seq<ConnectionRecord>,
    id: int,
    stage: Stage,
    end: StageEnd,
    other: int,
)
    requires
        0 <= other < records.len(),
        other != id,
    ensures
        match spec_task_joined(records, id, stage, end) {
            Ok(after) => {
                &&& after.len() == records.len()
                &&& after[other] == records[other]
                &&& after[other].status() == records[other].status()
                &&& after.push(ConnectionRecord::fresh()).len() == records.len() + 1
            },
            Err(_) => true,
        },
{
}

/// A connection counts as closed exactly when its three tasks have been
/// joined, and a connection whose stages all ended in order counts as
/// disconnected, not as faulted.
pub proof fn lemma_closed_after_three_joins(record: ConnectionRecord)
    ensures
        record.status() is Closed <==> record.all_joined(),
        ConnectionRecord::fresh().status() == ConnectionStatus::Active,
        record.all_joined() && fault_of(record.receive->Some_0) is None && fault_of(
            record.infer->Some_0,
        ) is None && fault_of(record.send->Some_0) is None ==> record.status()
            == ConnectionStatus::Closed(ConnectionOutcome::Disconnected),
{
}

} // verus!
