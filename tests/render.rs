use frame_ingest::render::{
    FrameOutcome, LoopAction, LoopControl, LoopState, BACKOFF_MAX_STEPS, BACKOFF_STEP_MS,
};

#[test]
fn suboptimal_leads_to_recreation_before_acquisition() {
    let mut c = LoopControl::new();
    assert_eq!(c.next_action(false), LoopAction::RenderFrame { delay_ms: 0 });
    c.record_outcome(FrameOutcome::Suboptimal);
    assert_eq!(c.state, LoopState::Recreating);
    assert_eq!(c.next_action(false), LoopAction::Recreate);
    c.record_recreation(true);
    assert_eq!(c.next_action(false), LoopAction::RenderFrame { delay_ms: 0 });
}

#[test]
fn out_of_date_leads_to_recreation() {
    let mut c = LoopControl::new();
    c.record_outcome(FrameOutcome::OutOfDate);
    assert_eq!(c.next_action(false), LoopAction::Recreate);
}

#[test]
fn failures_back_off_and_keep_running() {
    let mut c = LoopControl::new();
    c.record_outcome(FrameOutcome::Failed);
    assert_eq!(c.next_action(false), LoopAction::RenderFrame { delay_ms: BACKOFF_STEP_MS });
    c.record_outcome(FrameOutcome::Failed);
    assert_eq!(c.next_action(false), LoopAction::RenderFrame { delay_ms: 2 * BACKOFF_STEP_MS });
    for _ in 0..500 {
        c.record_outcome(FrameOutcome::Failed);
    }
    assert_eq!(c.state, LoopState::Running);
    assert_eq!(
        c.next_action(false),
        LoopAction::RenderFrame { delay_ms: BACKOFF_MAX_STEPS as u64 * BACKOFF_STEP_MS }
    );
}

#[test]
fn failure_count_saturates() {
    let mut c = LoopControl { state: LoopState::Running, failures: u32::MAX };
    c.record_outcome(FrameOutcome::Failed);
    assert_eq!(c.failures, u32::MAX);
    assert_eq!(c.state, LoopState::Running);
}

#[test]
fn presented_frame_resets_failures() {
    let mut c = LoopControl::new();
    c.record_outcome(FrameOutcome::Failed);
    c.record_outcome(FrameOutcome::Presented);
    assert_eq!(c.failures, 0);
    assert_eq!(c.state, LoopState::Running);
}

#[test]
fn device_loss_is_fatal() {
    let mut c = LoopControl::new();
    c.record_outcome(FrameOutcome::DeviceLost);
    assert_eq!(c.next_action(false), LoopAction::Stop);
    assert_eq!(c.state, LoopState::Fatal);
}

#[test]
fn cancellation_stops_before_acquisition() {
    let mut c = LoopControl::new();
    assert_eq!(c.next_action(true), LoopAction::Stop);
    assert_eq!(c.state, LoopState::Cancelled);
    assert_eq!(c.next_action(false), LoopAction::Stop);
}

#[test]
fn failed_recreation_retries() {
    let mut c = LoopControl::new();
    c.record_outcome(FrameOutcome::OutOfDate);
    for _ in 0..3 {
        c.record_recreation(false);
        assert_eq!(c.state, LoopState::Recreating);
        assert_eq!(c.next_action(false), LoopAction::Recreate);
    }
    assert_eq!(c.failures, 3);
    c.record_recreation(true);
    assert_eq!(c.state, LoopState::Running);
    assert_eq!(c.failures, 0);
}
