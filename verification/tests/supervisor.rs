use movenet_stream::pipeline::{ConnectionError, InferenceError, Stage, StageEnd, StageFault};
use movenet_stream::supervisor::{
    end_fault, record_status, ConnectionOutcome, ConnectionRecord, ConnectionStatus,
    ConnectionSupervisor, SupervisorError,
};

const PEER_CLOSED: StageEnd = StageEnd::Fault(StageFault::Connection(ConnectionError::Closed));
const BAD_FRAME: StageEnd = StageEnd::Fault(StageFault::Inference(InferenceError::BadFrame));

#[test]
fn connections_are_numbered_in_order() {
    let mut supervisor: ConnectionSupervisor = ConnectionSupervisor::new();
    assert_eq!(supervisor.accepted(), 0);
    assert_eq!(supervisor.status(0), None);
    assert_eq!(supervisor.accept(), 0);
    assert_eq!(supervisor.accept(), 1);
    assert_eq!(supervisor.accept(), 2);
    assert_eq!(supervisor.accepted(), 3);
    assert_eq!(supervisor.status(2), Some(ConnectionStatus::Active));
    assert_eq!(supervisor.status(3), None);
    assert_eq!(
        supervisor.record(1),
        Some(ConnectionRecord { receive: None, infer: None, send: None })
    );
    assert_eq!(supervisor.record(3), None);
}

#[test]
fn a_connection_is_closed_after_three_joins() {
    let mut supervisor: ConnectionSupervisor = ConnectionSupervisor::new();
    let id: usize = supervisor.accept();
    assert_eq!(supervisor.task_joined(id, Stage::Receive, PEER_CLOSED), Ok(ConnectionStatus::Active));
    assert_eq!(
        supervisor.task_joined(id, Stage::Send, StageEnd::UpstreamDone),
        Ok(ConnectionStatus::Active)
    );
    assert_eq!(supervisor.status(id), Some(ConnectionStatus::Active));
    assert_eq!(
        supervisor.task_joined(id, Stage::Infer, StageEnd::UpstreamDone),
        Ok(ConnectionStatus::Closed(ConnectionOutcome::Disconnected))
    );
    assert_eq!(
        supervisor.status(id),
        Some(ConnectionStatus::Closed(ConnectionOutcome::Disconnected))
    );
}

#[test]
fn a_fault_in_one_connection_leaves_the_other_alone() {
    let mut supervisor: ConnectionSupervisor = ConnectionSupervisor::new();
    let hit: usize = supervisor.accept();
    let other: usize = supervisor.accept();
    assert_eq!(
        supervisor.task_joined(other, Stage::Receive, StageEnd::DownstreamGone),
        Ok(ConnectionStatus::Active)
    );
    let before: Option<ConnectionRecord> = supervisor.record(other);
    assert_eq!(supervisor.task_joined(hit, Stage::Infer, BAD_FRAME), Ok(ConnectionStatus::Active));
    assert_eq!(
        supervisor.task_joined(hit, Stage::Receive, StageEnd::DownstreamGone),
        Ok(ConnectionStatus::Active)
    );
    assert_eq!(
        supervisor.task_joined(hit, Stage::Send, StageEnd::UpstreamDone),
        Ok(ConnectionStatus::Closed(ConnectionOutcome::Faulted(StageFault::Inference(
            InferenceError::BadFrame
        ))))
    );
    assert_eq!(supervisor.record(other), before);
    assert_eq!(supervisor.status(other), Some(ConnectionStatus::Active));
    // The listener goes on accepting.
    assert_eq!(supervisor.accept(), 2);
    assert_eq!(supervisor.status(2), Some(ConnectionStatus::Active));
}

#[test]
fn the_first_fault_in_stage_order_names_the_outcome() {
    let panic: StageEnd = StageEnd::Fault(StageFault::Panic);
    let failed: StageEnd = StageEnd::Fault(StageFault::Connection(ConnectionError::Failed));
    let record: ConnectionRecord =
        ConnectionRecord { receive: Some(PEER_CLOSED), infer: Some(panic), send: Some(failed) };
    assert_eq!(
        record_status(&record),
        ConnectionStatus::Closed(ConnectionOutcome::Faulted(StageFault::Panic))
    );
    let record: ConnectionRecord =
        ConnectionRecord { receive: Some(failed), infer: Some(panic), send: Some(failed) };
    assert_eq!(
        record_status(&record),
        ConnectionStatus::Closed(ConnectionOutcome::Faulted(StageFault::Connection(
            ConnectionError::Failed
        )))
    );
    let record: ConnectionRecord = ConnectionRecord {
        receive: Some(StageEnd::DownstreamGone),
        infer: Some(StageEnd::DownstreamGone),
        send: Some(failed),
    };
    assert_eq!(
        record_status(&record),
        ConnectionStatus::Closed(ConnectionOutcome::Faulted(StageFault::Connection(
            ConnectionError::Failed
        )))
    );
    let record: ConnectionRecord =
        ConnectionRecord { receive: Some(failed), infer: None, send: Some(failed) };
    assert_eq!(record_status(&record), ConnectionStatus::Active);
}

#[test]
fn orderly_ends_are_no_faults() {
    assert_eq!(end_fault(PEER_CLOSED), None);
    assert_eq!(end_fault(StageEnd::UpstreamDone), None);
    assert_eq!(end_fault(StageEnd::DownstreamGone), None);
    assert_eq!(end_fault(BAD_FRAME), Some(StageFault::Inference(InferenceError::BadFrame)));
    assert_eq!(end_fault(StageEnd::Fault(StageFault::Panic)), Some(StageFault::Panic));
}

#[test]
fn joins_of_unknown_or_joined_tasks_are_refused() {
    let mut supervisor: ConnectionSupervisor = ConnectionSupervisor::new();
    assert_eq!(
        supervisor.task_joined(0, Stage::Send, PEER_CLOSED),
        Err(SupervisorError::UnknownConnection)
    );
    let id: usize = supervisor.accept();
    assert_eq!(supervisor.task_joined(id, Stage::Send, BAD_FRAME), Ok(ConnectionStatus::Active));
    assert_eq!(
        supervisor.task_joined(id, Stage::Send, PEER_CLOSED),
        Err(SupervisorError::AlreadyJoined)
    );
    assert_eq!(
        supervisor.record(id),
        Some(ConnectionRecord { receive: None, infer: None, send: Some(BAD_FRAME) })
    );
    assert_eq!(
        supervisor.task_joined(id + 1, Stage::Send, PEER_CLOSED),
        Err(SupervisorError::UnknownConnection)
    );
}
