use flui_core::{AnyWindowHandle, Instant, SystemWindowTab, SystemWindowTabController, WindowId};

fn handle(id: u64) -> AnyWindowHandle {
    AnyWindowHandle { id: WindowId(id) }
}

fn tab(id: u64, title: &str, at: u64) -> SystemWindowTab {
    SystemWindowTab::new(title.to_string(), handle(id), Instant::from_nanos(at))
}

fn ids(tabs: &[SystemWindowTab]) -> Vec<u64> {
    tabs.iter().map(|t| t.id.0).collect()
}

/// Two groups: {1, 2} under key 0 and {3} under key 1.
fn two_groups() -> SystemWindowTabController {
    let mut c = SystemWindowTabController::new();
    c.add_tab(WindowId(1), vec![tab(1, "one", 10)]);
    c.add_tab(WindowId(2), vec![tab(1, "one", 10), tab(2, "two", 20)]);
    c.add_tab(WindowId(3), vec![tab(3, "three", 30)]);
    c
}

#[test]
fn new_controller_is_empty_and_hidden() {
    let c = SystemWindowTabController::new();
    assert!(c.tab_groups().is_empty());
    assert!(!c.is_visible());
    assert!(c.tabs(WindowId(1)).is_none());
}

#[test]
fn add_tab_joins_the_group_of_its_other_windows() {
    let c = two_groups();
    let groups = c.tab_groups();
    assert_eq!(groups.len(), 2);
    assert_eq!(groups[0].0, 0);
    assert_eq!(ids(&groups[0].1), vec![1, 2]);
    assert_eq!(groups[1].0, 1);
    assert_eq!(ids(&groups[1].1), vec![3]);
    assert_eq!(ids(c.tabs(WindowId(2)).unwrap()), vec![1, 2]);
}

#[test]
fn add_tab_matches_other_windows_in_any_order() {
    let mut c = SystemWindowTabController::new();
    c.add_tab(WindowId(5), vec![tab(5, "a", 1), tab(4, "b", 2)]);
    // The reported list names windows 4 and 5 in another order.
    c.add_tab(WindowId(6), vec![tab(4, "b", 2), tab(6, "c", 3), tab(5, "a", 1)]);
    assert_eq!(c.tab_groups().len(), 1);
    assert_eq!(ids(&c.tab_groups()[0].1), vec![5, 4, 6]);
}

#[test]
fn add_tab_without_its_own_tab_changes_nothing() {
    let mut c = two_groups();
    c.add_tab(WindowId(9), vec![tab(1, "one", 10)]);
    assert_eq!(c.tab_groups().len(), 2);
    assert_eq!(ids(&c.tab_groups()[0].1), vec![1, 2]);
}

#[test]
fn visibility_initializes_once() {
    let mut c = SystemWindowTabController::new();
    c.init_visible(true);
    c.init_visible(false);
    assert!(c.is_visible());
    c.set_visible(false);
    assert!(!c.is_visible());
}

#[test]
fn next_and_previous_tab_wrap_around() {
    let c = two_groups();
    assert_eq!(c.select_next_tab(WindowId(1)), Some(handle(2)));
    assert_eq!(c.select_next_tab(WindowId(2)), Some(handle(1)));
    assert_eq!(c.select_previous_tab(WindowId(1)), Some(handle(2)));
    assert_eq!(c.select_previous_tab(WindowId(3)), Some(handle(3)));
    assert_eq!(c.select_next_tab(WindowId(7)), None);
    assert_eq!(c.select_previous_tab(WindowId(7)), None);
}

#[test]
fn next_then_previous_returns_to_start() {
    let c = two_groups();
    for id in [1u64, 2, 3] {
        let next = c.select_next_tab(WindowId(id)).unwrap();
        assert_eq!(c.select_previous_tab(next.id), Some(handle(id)));
    }
}

#[test]
fn group_navigation_picks_most_recently_active_tab() {
    let c = two_groups();
    assert_eq!(c.get_next_tab_group_window(WindowId(1)), Some(handle(3)));
    assert_eq!(c.get_next_tab_group_window(WindowId(3)), Some(handle(2)));
    assert_eq!(c.get_prev_tab_group_window(WindowId(1)), Some(handle(3)));
    assert_eq!(c.get_prev_tab_group_window(WindowId(3)), Some(handle(2)));
    assert_eq!(c.get_next_tab_group_window(WindowId(8)), None);
}

#[test]
fn update_last_active_changes_group_navigation() {
    let mut c = two_groups();
    c.update_last_active(WindowId(1), Instant::from_nanos(99));
    assert_eq!(c.get_next_tab_group_window(WindowId(3)), Some(handle(1)));
    assert_eq!(c.tabs(WindowId(1)).unwrap()[0].last_active_at.as_nanos(), 99);
}

#[test]
fn equal_activity_picks_the_later_tab() {
    let mut c = SystemWindowTabController::new();
    c.add_tab(WindowId(1), vec![tab(1, "one", 5), tab(2, "two", 5)]);
    c.add_tab(WindowId(3), vec![tab(3, "three", 1)]);
    assert_eq!(c.get_prev_tab_group_window(WindowId(3)), Some(handle(2)));
}

#[test]
fn update_tab_title_renames_the_tab() {
    let mut c = two_groups();
    c.update_tab_title(WindowId(2), "renamed".to_string());
    assert_eq!(c.tabs(WindowId(2)).unwrap()[1].title, "renamed");
    c.update_tab_title(WindowId(42), "nobody".to_string());
    assert_eq!(c.tab_groups().len(), 2);
}

#[test]
fn update_tab_position_moves_within_the_group() {
    let mut c = two_groups();
    c.update_tab_position(WindowId(2), 0);
    assert_eq!(ids(c.tabs(WindowId(2)).unwrap()), vec![2, 1]);
    // Out of range: nothing moves.
    c.update_tab_position(WindowId(2), 5);
    assert_eq!(ids(c.tabs(WindowId(2)).unwrap()), vec![2, 1]);
}

#[test]
fn remove_tab_returns_it_and_drops_empty_groups() {
    let mut c = two_groups();
    let removed = c.remove_tab(WindowId(3)).unwrap();
    assert_eq!(removed.id, WindowId(3));
    assert_eq!(removed.title, "three");
    assert_eq!(c.tab_groups().len(), 1);
    assert!(c.tabs(WindowId(3)).is_none());
    assert!(c.remove_tab(WindowId(3)).is_none());
}

#[test]
fn move_tab_to_new_window_uses_next_key() {
    let mut c = two_groups();
    c.move_tab_to_new_window(WindowId(1));
    let groups = c.tab_groups();
    assert_eq!(groups.len(), 3);
    assert_eq!(ids(&groups[0].1), vec![2]);
    assert_eq!(groups[2].0, 2);
    assert_eq!(ids(&groups[2].1), vec![1]);
}

#[test]
fn merge_all_windows_keeps_every_tab_once() {
    let mut c = two_groups();
    c.merge_all_windows(WindowId(3));
    let groups = c.tab_groups();
    assert_eq!(groups.len(), 1);
    assert_eq!(groups[0].0, 0);
    assert_eq!(ids(&groups[0].1), vec![3, 1, 2]);
    c.merge_all_windows(WindowId(77));
    assert_eq!(c.tab_groups().len(), 1);
}

#[test]
fn tab_copies_compare_equal() {
    let t = tab(4, "four", 7);
    assert!(t.same(&t.duplicate()));
    assert!(!t.same(&tab(4, "four", 8)));
}

#[test]
fn add_tab_never_replaces_an_existing_group() {
    let mut c = SystemWindowTabController::new();
    c.add_tab(WindowId(5), vec![tab(5, "five", 1)]);
    c.add_tab(WindowId(6), vec![tab(6, "six", 2)]);
    c.remove_tab(WindowId(5));
    assert_eq!(c.tab_groups().len(), 1);
    assert_eq!(c.tab_groups()[0].0, 1);
    // The group count (1) is taken, so the new group gets the free key 0.
    c.add_tab(WindowId(7), vec![tab(7, "seven", 3), tab(8, "eight", 4)]);
    let groups = c.tab_groups();
    assert_eq!(groups.len(), 2);
    assert_eq!(ids(c.tabs(WindowId(6)).unwrap()), vec![6]);
    assert_eq!(groups[1].0, 0);
    assert_eq!(ids(&groups[1].1), vec![7, 8]);
}
