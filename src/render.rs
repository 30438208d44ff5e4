//! Decisions of the presentation loop.
//!
//! The loop that acquires images, submits and presents runs outside the
//! library; before each iteration it asks `next_action` what to do, and after
//! each frame or swapchain recreation it reports what happened. Suboptimal and
//! out-of-date swapchains both lead to a recreation before the next
//! acquisition. Other failures are retried without end, after a delay that
//! grows with the number of consecutive failures up to a cap. Only a
//! cancellation request or device loss ends the loop.
use vstd::prelude::*;

verus! {

/// Delay added before each retry for every consecutive failure.
pub const BACKOFF_STEP_MS: u64 = 10;

/// Consecutive failures beyond this many add no further delay.
pub const BACKOFF_MAX_STEPS: u32 = 100;

#[derive(PartialEq, Eq, Structural, Clone, Copy, Debug)]
pub enum LoopState {
    Running,
    Recreating,
    Cancelled,
    Fatal,
}

/// What the presentation of one frame reported.
#[derive(PartialEq, Eq, Structural, Clone, Copy, Debug)]
pub enum FrameOutcome {
    Presented,
    Suboptimal,
    OutOfDate,
    DeviceLost,
    Failed,
}

/// What the loop does next.
#[derive(PartialEq, Eq, Structural, Clone, Copy, Debug)]
pub enum LoopAction {
    /// Acquire an image and render a frame, after waiting `delay_ms`.
    RenderFrame { delay_ms: u64 },
    /// Recreate the swapchain and its framebuffers.
    Recreate,
    /// Leave the loop.
    Stop,
}

#[derive(PartialEq, Eq, Structural, Clone, Copy, Debug)]
pub struct LoopControl {
    pub state: LoopState,
    /// Consecutive failed frames or recreations, saturating at `u32::MAX`.
    pub failures: u32,
}

/// The control after a failure: the same work is retried with one more
/// failure counted.
pub open spec fn after_failure(c: LoopControl, state: LoopState) -> LoopControl {
    LoopControl {
        state,
        failures: if c.failures == u32::MAX {
            u32::MAX
        } else {
            (c.failures + 1) as u32
        },
    }
}

/// The control after a frame with outcome `o`.
pub open spec fn after_outcome(c: LoopControl, o: FrameOutcome) -> LoopControl {
    match o {
        FrameOutcome::Presented => LoopControl { state: LoopState::Running, failures: 0 },
        FrameOutcome::Suboptimal => LoopControl { state: LoopState::Recreating, ..c },
        FrameOutcome::OutOfDate => LoopControl { state: LoopState::Recreating, ..c },
        FrameOutcome::DeviceLost => LoopControl { state: LoopState::Fatal, ..c },
        FrameOutcome::Failed => after_failure(c, LoopState::Running),
    }
}

/// The control after a swapchain recreation that did or did not succeed.
pub open spec fn after_recreation(c: LoopControl, ok: bool) -> LoopControl {
    if ok {
        LoopControl { state: LoopState::Running, failures: 0 }
    } else {
        after_failure(c, LoopState::Recreating)
    }
}

/// The wait before the next frame after `failures` consecutive failures.
pub open spec fn backoff_ms(failures: u32) -> u64 {
    ((if failures < BACKOFF_MAX_STEPS {
        failures
    } else {
        BACKOFF_MAX_STEPS
    }) * BACKOFF_STEP_MS) as u64
}

/// The action taken in state `c`, with `cancel` telling whether shutdown was asked.
pub open spec fn action_for(c: LoopControl, cancel: bool) -> LoopAction {
    match c.state {
        LoopState::Fatal => LoopAction::Stop,
        LoopState::Cancelled => LoopAction::Stop,
        LoopState::Recreating => if cancel {
            LoopAction::Stop
        } else {
            LoopAction::Recreate
        },
        LoopState::Running => if cancel {
            LoopAction::Stop
        } else {
            LoopAction::RenderFrame { delay_ms: backoff_ms(c.failures) }
        },
    }
}

/// The control after the action for `c` was chosen.
pub open spec fn after_action(c: LoopControl, cancel: bool) -> LoopControl {
    match c.state {
        LoopState::Fatal => c,
        LoopState::Cancelled => c,
        _ => if cancel {
            LoopControl { state: LoopState::Cancelled, ..c }
        } else {
            c
        },
    }
}

impl LoopControl {
    /// A running loop with no failures yet.
    pub fn new() -> (r: LoopControl)
        ensures
            r == (LoopControl { state: LoopState::Running, failures: 0 }),
    {
        LoopControl { state: LoopState::Running, failures: 0 }
    }

    /// Chooses what the loop does next; `cancel` is checked before any
    /// blocking acquisition.
    pub fn next_action(&mut self, cancel: bool) -> (r: LoopAction)
        ensures
            r == action_for(*old(self), cancel),
            *final(self) == after_action(*old(self), cancel),
    {
        match self.state {
            LoopState::Fatal => LoopAction::Stop,
            LoopState::Cancelled => LoopAction::Stop,
            LoopState::Recreating => {
                if cancel {
                    self.state = LoopState::Cancelled;
                    LoopAction::Stop
                } else {
                    LoopAction::Recreate
                }
            },
            LoopState::Running => {
                if cancel {
                    self.state = LoopState::Cancelled;
                    LoopAction::Stop
                } else {
                    let steps = if self.failures < BACKOFF_MAX_STEPS {
                        self.failures
                    } else {
                        BACKOFF_MAX_STEPS
                    };
                    LoopAction::RenderFrame { delay_ms: steps as u64 * BACKOFF_STEP_MS }
                }
            },
        }
    }

    fn fail(&mut self, state: LoopState)
        ensures
            *final(self) == after_failure(*old(self), state),
    {
        self.state = state;
        if self.failures < u32::MAX {
            self.failures = self.failures + 1;
        }
    }

    /// Records what the presentation of a frame reported.
    pub fn record_outcome(&mut self, outcome: FrameOutcome)
        ensures
            *final(self) == after_outcome(*old(self), outcome),
    {
        match outcome {
            FrameOutcome::Presented => {
                self.state = LoopState::Running;
                self.failures = 0;
            },
            FrameOutcome::Suboptimal => {
                self.state = LoopState::Recreating;
            },
            FrameOutcome::OutOfDate => {
                self.state = LoopState::Recreating;
            },
            FrameOutcome::DeviceLost => {
                self.state = LoopState::Fatal;
            },
            FrameOutcome::Failed => {
                self.fail(LoopState::Running);
            },
        }
    }

    /// Records whether a swapchain recreation succeeded.
    pub fn record_recreation(&mut self, ok: bool)
        ensures
            *final(self) == after_recreation(*old(self), ok),
    {
        if ok {
            self.state = LoopState::Running;
            self.failures = 0;
        } else {
            self.fail(LoopState::Recreating);
        }
    }
}

/// A swapchain that reports itself suboptimal is recreated before the next
/// image is acquired, exactly as an out-of-date one is, and never handled as
/// an unrelated frame failure.
pub proof fn lemma_suboptimal_recreates(c: LoopControl, cancel: bool)
    ensures
        after_outcome(c, FrameOutcome::Suboptimal) == after_outcome(c, FrameOutcome::OutOfDate),
        after_outcome(c, FrameOutcome::Suboptimal).state == LoopState::Recreating,
        after_outcome(c, FrameOutcome::Suboptimal) != after_outcome(c, FrameOutcome::Failed),
        !(action_for(after_outcome(c, FrameOutcome::Suboptimal), cancel) is RenderFrame),
        !cancel ==> action_for(after_outcome(c, FrameOutcome::Suboptimal), cancel)
            == LoopAction::Recreate,
{
}

/// The loop ends only when asked to or when the device is lost: a stop is
/// decided only on a cancellation request or in the `Cancelled` or `Fatal`
/// state, a frame leads to `Fatal` exactly when the device was lost, and a
/// recreation, failed or not, never ends the loop.
pub proof fn lemma_stops_only_on_cancel_or_loss(c: LoopControl, cancel: bool, o: FrameOutcome, ok: bool)
    ensures
        action_for(c, cancel) == LoopAction::Stop ==> cancel || c.state == LoopState::Cancelled
            || c.state == LoopState::Fatal,
        after_outcome(c, o).state == LoopState::Fatal <==> o == FrameOutcome::DeviceLost,
        after_outcome(c, o).state != LoopState::Cancelled,
        after_recreation(c, ok).state == LoopState::Running || after_recreation(c, ok).state
            == LoopState::Recreating,
{
}

} // verus!
