//! Verified core logic of the flui engine: animation status algebra, the
//! clock-driven ticker, listener storage, the app borrow-state machine,
//! element identity normalization and the system window-tab controller.

mod animation;
mod cell;
mod controller;
mod draw;
mod effects;
mod frame;
mod identity;
mod listeners;
mod reentry;
mod status;
mod tabs;
mod ticker;
mod ticking;

pub use identity::{
    law_local_occurrences_count_up, law_normalize_idempotent, law_occurrences_are_per_location,
    law_pop_undoes_push, normalize_value, decimal, digit_char, id_text, location_text, resolved, seen, uuid_text, value_like, ElementId, ElementIdStack,
    GlobalKey, IdValue, Key, LocalElementId, NotAName, SourceLocation, ValueKey,
};
pub use status::{
    combined, combined_status, law_combine_algebra, law_combine_moving, law_reverse_involution,
    law_reverse_preserves_motion, reverse_status, AnimationBehavior, AnimationStatus, Brightness,
};
pub use ticker::{
    fresh_model, law_active_follows_latest_call, law_elapsed_adds_up, law_future_settled_by_next_call,
    law_one_future_per_start, law_only_latest_future_pending, law_settled_futures_stay_settled,
    law_stop_when_idle_changes_nothing, outcome, replay, saturating_gap, settle_pending, starts, step,
    Clock, Instant, TestClock, Ticker, TickerCanceled, TickerFuture, TickerFutureState, TickerModel,
    TickerOp,
};
pub use ticking::{
    distinct_targets, kept, law_only_continuing_targets_stay, law_register_then_unregister_restores, ticked,
    ActiveAnimations, TickReport,
};
pub use cell::{
    after_borrow, after_borrow_mut, after_release_shared, law_mut_is_exclusive,
    law_shared_borrow_round_trip, law_shared_count_caps, BorrowState, ReentryError,
};
pub use listeners::{
    law_add_then_remove_restores, law_ids_increase, EagerListenable, LazyListenable, ListenerId,
    ListenerIdSource, LocalListeners, LocalStatusListeners,
};
pub use reentry::{law_window_update_round_trip, EntityUpdateSlot, WindowUpdateStack};
pub use frame::{
    admitted, frame_order, law_each_placement_has_its_phase, law_update_is_balanced, DeferPlacement,
    FlushScope, FrameOutcome, FramePhase, GpuiMode, QuitMode, UpdateState,
};
pub use tabs::{
    handles_match, law_add_tab_places_window, law_merge_keeps_every_tab, law_merge_adds_initial_tabs_once, law_move_tab_lands_at_target, law_remove_takes_one_tab, law_move_tab_is_reordering, law_next_then_previous_tab,
    law_remove_clears_window, single_tab_per_group, unique_windows, AnyWindowHandle, SystemWindowTab,
    SystemWindowTabController, TabValue, WindowId,
};
pub use controller::{
    animating, announce_of, law_repeat_keeps_animating, law_segment_runs_for_its_duration, law_style_duration_overrides, law_tick_duration_by_direction,
    law_status_announced_on_change, law_stop_and_reset_settle, law_toggle_turns_around, points_up,
    reset_view, segment_duration_of, started, stopped, tick_duration_of, toggled, ControllerState,
    ControllerView, Reaction, StopPosition, TickRegistration,
};
pub use draw::{laid_out, law_draw_phases_move_forward, phase_rank, DrawPhase, RootLayoutStep};
pub use effects::{
    drained, drains_at, globals_after_push, globals_after_take, held_back, law_flush_ends_holding_back,
    law_flush_keeps_order, law_only_notifications_deduplicated, law_notification_queued_once,
    notifications_agree, notified_after_push, notified_after_take, push_queues, Effect, EffectKind,
    EffectQueue,
};
pub use animation::{AlwaysStoppedAnimation, ConstantTween, Empty, IntTween, SawTooth, StepTween};
