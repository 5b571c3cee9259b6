use flui_core::{DrawPhase, RootLayoutStep};

#[test]
fn draw_lifecycle_runs_in_order() {
    let p = DrawPhase::Start.request_layout();
    assert_eq!(p, DrawPhase::RequestLayout);
    let p = p.prepaint();
    assert_eq!(p, DrawPhase::Prepaint);
    assert_eq!(p.paint(), DrawPhase::Painted);
}

#[test]
fn measuring_as_root_requests_then_computes_once_per_space() {
    assert_eq!(
        DrawPhase::Start.layout_as_root(false),
        RootLayoutStep { request_first: true, compute: true, next: DrawPhase::LayoutComputed }
    );
    assert_eq!(
        DrawPhase::RequestLayout.layout_as_root(false),
        RootLayoutStep { request_first: false, compute: true, next: DrawPhase::LayoutComputed }
    );
    assert_eq!(
        DrawPhase::LayoutComputed.layout_as_root(false),
        RootLayoutStep { request_first: false, compute: false, next: DrawPhase::LayoutComputed }
    );
    assert!(DrawPhase::LayoutComputed.layout_as_root(true).compute);
    assert_eq!(DrawPhase::LayoutComputed.prepaint(), DrawPhase::Prepaint);
}
