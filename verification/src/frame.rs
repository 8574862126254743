use vstd::prelude::*;

use crate::debug_view::DebugView;

verus! {

/// What to do with the two temporal history targets this frame.
#[derive(Clone, Copy, Debug, PartialEq, Eq, Structural)]
pub enum TemporalAction {
    /// Blend the new output with history `read_index` into history `write_index`.
    Blend { write_index: usize, read_index: usize },
    /// No history yet: copy the new output into history `write_index`.
    CopyOutput { write_index: usize },
}

/// The action of a frame whose latest history target is `index` (`valid` when the history
/// holds a frame): the other target is written.
pub open spec fn history_action(index: int, valid: bool) -> TemporalAction {
    if valid {
        TemporalAction::Blend { write_index: (1 - index) as usize, read_index: index as usize }
    } else {
        TemporalAction::CopyOutput { write_index: (1 - index) as usize }
    }
}

/// The renderer's per-frame choices: the debug view shown, which of the two history
/// targets holds the latest frame, and whether the history holds a frame at all.
pub struct FrameState {
    debug_view: DebugView,
    temporal_history_index: usize,
    temporal_history_valid: bool,
}

impl FrameState {
    /// The view shown.
    pub closed spec fn view(&self) -> DebugView {
        self.debug_view
    }

    /// The history target that holds the latest frame (the one presented).
    pub closed spec fn history_index(&self) -> int {
        self.temporal_history_index as int
    }

    /// The history holds a frame.
    pub closed spec fn history_valid(&self) -> bool {
        self.temporal_history_valid
    }

    /// The history index names one of the two targets.
    #[verifier::type_invariant]
    spec fn history_index_in_range(self) -> bool {
        self.temporal_history_index < 2
    }

    /// The default view, no history.
    pub fn new() -> (state: Self)
        ensures
            state.view() == DebugView::Default,
            state.history_index() == 0,
            !state.history_valid(),
    {
        FrameState {
            debug_view: DebugView::Default,
            temporal_history_index: 0,
            temporal_history_valid: false,
        }
    }

    /// The view shown.
    pub fn debug_view(&self) -> (view: DebugView)
        ensures
            view == self.view(),
    {
        self.debug_view
    }

    /// The history target that holds the latest frame.
    pub fn temporal_history_index(&self) -> (index: usize)
        ensures
            index == self.history_index(),
            index < 2,
    {
        proof {
            use_type_invariant(self);
        }
        self.temporal_history_index
    }

    /// Forgets the history: the next frame starts it again from target 0.
    pub fn reset_temporal_history(&mut self)
        ensures
            final(self).view() == old(self).view(),
            final(self).history_index() == 0,
            !final(self).history_valid(),
    {
        self.temporal_history_index = 0;
        self.temporal_history_valid = false;
    }

    /// Shows `debug_view`. A change of view forgets the history, whose frames belong to the
    /// old view; returns whether the view changed (and its number must be uploaded).
    pub fn set_debug_view(&mut self, debug_view: DebugView) -> (changed: bool)
        ensures
            changed == (old(self).view() != debug_view),
            final(self).view() == debug_view,
            changed ==> final(self).history_index() == 0 && !final(self).history_valid(),
            !changed ==> final(self).history_index() == old(self).history_index()
                && final(self).history_valid() == old(self).history_valid(),
    {
        proof {
            use_type_invariant(&*self);
        }
        if self.debug_view == debug_view {
            return false;
        }
        self.debug_view = debug_view;
        self.reset_temporal_history();
        true
    }

    /// Folds this frame's output into the history: the other target is written (blended
    /// with the latest frame, or, without history, copied) and becomes the latest.
    pub fn accumulate_temporal_history(&mut self) -> (action: TemporalAction)
        ensures
            old(self).history_index() < 2,
            final(self).view() == old(self).view(),
            final(self).history_valid(),
            final(self).history_index() == 1 - old(self).history_index(),
            action == history_action(old(self).history_index(), old(self).history_valid()),
    {
        proof {
            use_type_invariant(&*self);
        }
        let write_index = 1 - self.temporal_history_index;
        let action = if self.temporal_history_valid {
            TemporalAction::Blend { write_index, read_index: self.temporal_history_index }
        } else {
            self.temporal_history_valid = true;
            TemporalAction::CopyOutput { write_index }
        };
        self.temporal_history_index = write_index;
        action
    }
}

/// What the surface answered when asked for the next frame.
#[derive(Clone, Copy, Debug, PartialEq, Eq, Structural)]
pub enum SurfaceStatus {
    Success,
    Suboptimal,
    Timeout,
    Occluded,
    Outdated,
    Lost,
    Validation,
}

/// What becomes of the frame.
#[derive(Clone, Copy, Debug, PartialEq, Eq, Structural)]
pub enum AcquireOutcome {
    /// Render into the frame and present it.
    Render,
    /// Skip this frame.
    Skip,
    /// Stop with an error.
    Fail,
}

/// Whether to configure the surface again, and what becomes of the frame.
#[derive(Clone, Copy, Debug, PartialEq, Eq, Structural)]
pub struct AcquireDecision {
    pub reconfigure: bool,
    pub outcome: AcquireOutcome,
}

/// The decision for each answer of the surface: a suboptimal frame is used after the
/// surface is configured again; an outdated or lost surface is configured again and the
/// frame skipped; a timeout or an occluded window skips the frame; a validation error
/// fails.
pub open spec fn spec_acquire_decision(status: SurfaceStatus) -> AcquireDecision {
    match status {
        SurfaceStatus::Success => AcquireDecision { reconfigure: false, outcome: AcquireOutcome::Render },
        SurfaceStatus::Suboptimal => AcquireDecision {
            reconfigure: true,
            outcome: AcquireOutcome::Render,
        },
        SurfaceStatus::Timeout | SurfaceStatus::Occluded => AcquireDecision {
            reconfigure: false,
            outcome: AcquireOutcome::Skip,
        },
        SurfaceStatus::Outdated | SurfaceStatus::Lost => AcquireDecision {
            reconfigure: true,
            outcome: AcquireOutcome::Skip,
        },
        SurfaceStatus::Validation => AcquireDecision {
            reconfigure: false,
            outcome: AcquireOutcome::Fail,
        },
    }
}

/// Decides what to do with the surface's answer.
pub fn acquire_decision(status: SurfaceStatus) -> (decision: AcquireDecision)
    ensures
        decision == spec_acquire_decision(status),
{
    match status {
        SurfaceStatus::Success => AcquireDecision { reconfigure: false, outcome: AcquireOutcome::Render },
        SurfaceStatus::Suboptimal => AcquireDecision {
            reconfigure: true,
            outcome: AcquireOutcome::Render,
        },
        SurfaceStatus::Timeout | SurfaceStatus::Occluded => AcquireDecision {
            reconfigure: false,
            outcome: AcquireOutcome::Skip,
        },
        SurfaceStatus::Outdated | SurfaceStatus::Lost => AcquireDecision {
            reconfigure: true,
            outcome: AcquireOutcome::Skip,
        },
        SurfaceStatus::Validation => AcquireDecision {
            reconfigure: false,
            outcome: AcquireOutcome::Fail,
        },
    }
}

/// What each answer of the surface leads to. The surface is configured again exactly when
/// it no longer fits the window (a suboptimal, outdated or lost surface); the frame is
/// rendered exactly when the surface handed one out (success or suboptimal); and only a
/// validation error fails.
pub proof fn lemma_acquire_decisions(status: SurfaceStatus)
    ensures
        spec_acquire_decision(status).reconfigure <==> (status == SurfaceStatus::Suboptimal
            || status == SurfaceStatus::Outdated || status == SurfaceStatus::Lost),
        spec_acquire_decision(status).outcome == AcquireOutcome::Render <==> (status
            == SurfaceStatus::Success || status == SurfaceStatus::Suboptimal),
        spec_acquire_decision(status).outcome == AcquireOutcome::Fail <==> status
            == SurfaceStatus::Validation,
        spec_acquire_decision(status).outcome == AcquireOutcome::Skip <==> (status
            == SurfaceStatus::Timeout || status == SurfaceStatus::Occluded || status
            == SurfaceStatus::Outdated || status == SurfaceStatus::Lost),
{
}

/// The ways a surface can present frames.
#[derive(Clone, Copy, Debug, PartialEq, Eq, Structural)]
pub enum SurfacePresentMode {
    AutoVsync,
    AutoNoVsync,
    Fifo,
    FifoRelaxed,
    Immediate,
    Mailbox,
}

/// The present mode to configure: `Immediate` where the surface offers it, else `Mailbox`
/// where it offers that, else the mode already configured.
pub open spec fn spec_present_mode(
    available: Seq<SurfacePresentMode>,
    configured: SurfacePresentMode,
) -> SurfacePresentMode {
    if available.contains(SurfacePresentMode::Immediate) {
        SurfacePresentMode::Immediate
    } else if available.contains(SurfacePresentMode::Mailbox) {
        SurfacePresentMode::Mailbox
    } else {
        configured
    }
}

/// Whether `mode` is among `available`.
fn offers_present_mode(available: &[SurfacePresentMode], mode: SurfacePresentMode) -> (offered:
    bool)
    ensures
        offered == available@.contains(mode),
{
    let mut i: usize = 0;
    while i < available.len()
        invariant
            i <= available@.len(),
            forall|j: int| 0 <= j < i ==> available@[j] != mode,
        decreases available@.len() - i,
    {
        if available[i] == mode {
            return true;
        }
        i = i + 1;
    }
    false
}

/// The chosen present mode is one the surface offers, or the configured one when it
/// offers neither preferred mode. A surface that offers `Immediate` always gets it, whatever
/// else it offers; one that offers `Mailbox` and not `Immediate` gets `Mailbox`. The choice
/// depends only on which modes are offered, not on their order or repetition.
pub proof fn lemma_present_mode_preference(
    available: Seq<SurfacePresentMode>,
    other: Seq<SurfacePresentMode>,
    configured: SurfacePresentMode,
)
    ensures
        available.contains(spec_present_mode(available, configured)) || spec_present_mode(
            available,
            configured,
        ) == configured,
        available.contains(SurfacePresentMode::Immediate) ==> spec_present_mode(
            available,
            configured,
        ) == SurfacePresentMode::Immediate,
        !available.contains(SurfacePresentMode::Immediate) && available.contains(
            SurfacePresentMode::Mailbox,
        ) ==> spec_present_mode(available, configured) == SurfacePresentMode::Mailbox,
        !available.contains(SurfacePresentMode::Immediate) && !available.contains(
            SurfacePresentMode::Mailbox,
        ) ==> spec_present_mode(available, configured) == configured,
        (forall|mode: SurfacePresentMode| available.contains(mode) <==> other.contains(mode))
            ==> spec_present_mode(available, configured) == spec_present_mode(other, configured),
{
}

/// Chooses the present mode among those the surface offers, preferring frames without
/// waiting for the display: see `spec_present_mode`.
pub fn choose_present_mode(
    available: &[SurfacePresentMode],
    configured: SurfacePresentMode,
) -> (mode: SurfacePresentMode)
    ensures
        mode == spec_present_mode(available@, configured),
{
    if offers_present_mode(available, SurfacePresentMode::Immediate) {
        SurfacePresentMode::Immediate
    } else if offers_present_mode(available, SurfacePresentMode::Mailbox) {
        SurfacePresentMode::Mailbox
    } else {
        configured
    }
}

/// The surface format to configure, given for each offered format whether it is sRGB:
/// the first sRGB one, or `None` to keep the configured format.
pub fn choose_srgb_format(is_srgb: &[bool]) -> (chosen: Option<usize>)
    ensures
        match chosen {
            Some(index) => {
                &&& index < is_srgb@.len()
                &&& is_srgb@[index as int]
                &&& forall|j: int| 0 <= j < index ==> !is_srgb@[j]
            },
            None => forall|j: int| 0 <= j < is_srgb@.len() ==> !is_srgb@[j],
        },
{
    let mut i: usize = 0;
    while i < is_srgb.len()
        invariant
            i <= is_srgb@.len(),
            forall|j: int| 0 <= j < i ==> !is_srgb@[j],
        decreases is_srgb@.len() - i,
    {
        if is_srgb[i] {
            return Some(i);
        }
        i = i + 1;
    }
    None
}

/// Over two frames the targets are written in turn: the first frame writes the other
/// target (copying when there is no history yet), the second blends that frame back into
/// the first target, and the latest target is then the one the two frames started from.
pub proof fn lemma_history_two_frames(index: int, valid: bool)
    requires
        0 <= index < 2,
    ensures
        history_action(index, valid) == (if valid {
            TemporalAction::Blend { write_index: (1 - index) as usize, read_index: index as usize }
        } else {
            TemporalAction::CopyOutput { write_index: (1 - index) as usize }
        }),
        history_action(1 - index, true) == (TemporalAction::Blend {
            write_index: index as usize,
            read_index: (1 - index) as usize,
        }),
        0 <= 1 - index < 2,
        1 - (1 - index) == index,
{
}

} // verus!
