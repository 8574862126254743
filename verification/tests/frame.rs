use wgpu_voxels::debug_view::DebugView;
use wgpu_voxels::frame::{
    acquire_decision, choose_present_mode, choose_srgb_format, AcquireDecision, AcquireOutcome,
    FrameState, SurfacePresentMode, SurfaceStatus, TemporalAction,
};

#[test]
fn history_starts_with_a_copy_then_blends_alternately() {
    let mut state = FrameState::new();
    assert_eq!(state.accumulate_temporal_history(), TemporalAction::CopyOutput { write_index: 1 });
    assert_eq!(state.temporal_history_index(), 1);
    assert_eq!(
        state.accumulate_temporal_history(),
        TemporalAction::Blend { write_index: 0, read_index: 1 }
    );
    assert_eq!(
        state.accumulate_temporal_history(),
        TemporalAction::Blend { write_index: 1, read_index: 0 }
    );
    assert_eq!(state.temporal_history_index(), 1);
}

#[test]
fn changing_the_view_resets_the_history() {
    let mut state = FrameState::new();
    state.accumulate_temporal_history();
    assert!(!state.set_debug_view(DebugView::Default));
    assert_eq!(state.temporal_history_index(), 1);
    assert!(state.set_debug_view(DebugView::Depth));
    assert_eq!(state.debug_view(), DebugView::Depth);
    assert_eq!(state.temporal_history_index(), 0);
    assert_eq!(state.accumulate_temporal_history(), TemporalAction::CopyOutput { write_index: 1 });
}

#[test]
fn surface_answers_map_to_decisions() {
    assert_eq!(
        acquire_decision(SurfaceStatus::Success),
        AcquireDecision { reconfigure: false, outcome: AcquireOutcome::Render }
    );
    assert_eq!(
        acquire_decision(SurfaceStatus::Suboptimal),
        AcquireDecision { reconfigure: true, outcome: AcquireOutcome::Render }
    );
    assert_eq!(
        acquire_decision(SurfaceStatus::Occluded),
        AcquireDecision { reconfigure: false, outcome: AcquireOutcome::Skip }
    );
    assert_eq!(
        acquire_decision(SurfaceStatus::Lost),
        AcquireDecision { reconfigure: true, outcome: AcquireOutcome::Skip }
    );
    assert_eq!(
        acquire_decision(SurfaceStatus::Validation),
        AcquireDecision { reconfigure: false, outcome: AcquireOutcome::Fail }
    );
}

#[test]
fn views_have_names_codes_and_keys() {
    assert_eq!(DebugView::from_name("world-position"), Some(DebugView::WorldPosition));
    assert_eq!(DebugView::from_name("sampling-rate"), Some(DebugView::SamplingRate));
    assert_eq!(DebugView::from_name("Depth"), None);
    assert_eq!(DebugView::Default.code(), 0);
    assert_eq!(DebugView::SamplingRate.code(), 5);
    assert_eq!(DebugView::Interpolated.code(), 7);
    assert_eq!(DebugView::for_digit_key(1), Some(DebugView::Default));
    assert_eq!(DebugView::for_digit_key(6), Some(DebugView::SamplingRate));
    assert_eq!(DebugView::for_digit_key(8), Some(DebugView::Interpolated));
    assert_eq!(DebugView::for_digit_key(0), None);
    assert_eq!(DebugView::for_digit_key(9), None);
}

#[test]
fn present_mode_prefers_immediate_then_mailbox() {
    let (fifo, relaxed, mailbox, immediate, auto) = (
        SurfacePresentMode::Fifo,
        SurfacePresentMode::FifoRelaxed,
        SurfacePresentMode::Mailbox,
        SurfacePresentMode::Immediate,
        SurfacePresentMode::AutoVsync,
    );
    assert_eq!(choose_present_mode(&[fifo, mailbox, immediate], fifo), immediate);
    assert_eq!(choose_present_mode(&[fifo, mailbox], fifo), mailbox);
    assert_eq!(choose_present_mode(&[fifo, relaxed], auto), auto);
    assert_eq!(choose_present_mode(&[], fifo), fifo);
}

#[test]
fn surface_format_is_the_first_srgb_one() {
    assert_eq!(choose_srgb_format(&[false, true, true]), Some(1));
    assert_eq!(choose_srgb_format(&[true]), Some(0));
    assert_eq!(choose_srgb_format(&[false, false]), None);
    assert_eq!(choose_srgb_format(&[]), None);
}
