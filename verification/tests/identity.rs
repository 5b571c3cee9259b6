use flui_core::{ElementId, ElementIdStack, GlobalKey, Key, SourceLocation, ValueKey};

fn same_location() -> SourceLocation {
    SourceLocation::new("src/identity_tests.rs".to_string(), 12, 5)
}

fn occurrence_at(stack: &ElementIdStack, index: usize) -> Option<u32> {
    match &stack.as_slice()[index] {
        ElementId::Local(local) => Some(local.occurrence()),
        _ => None,
    }
}

#[test]
fn code_locations_are_normalized_by_parent_occurrence() {
    let location = same_location();
    let mut stack = ElementIdStack::default();

    stack.push(ElementId::CodeLocation(location.duplicate()));
    assert_eq!(occurrence_at(&stack, 0), Some(0));
    stack.pop();

    stack.push(ElementId::CodeLocation(location.duplicate()));
    assert_eq!(occurrence_at(&stack, 0), Some(1));
}

#[test]
fn local_occurrences_are_scoped_by_parent_namespace() {
    let location = same_location();
    let mut stack = ElementIdStack::default();

    stack.push(ElementId::from_name("first-parent".to_string()));
    stack.push(ElementId::CodeLocation(location.duplicate()));
    assert_eq!(occurrence_at(&stack, 1), Some(0));
    stack.pop();
    stack.pop();

    stack.push(ElementId::from_name("second-parent".to_string()));
    stack.push(ElementId::CodeLocation(location.duplicate()));
    assert_eq!(occurrence_at(&stack, 1), Some(0));
}

#[test]
fn begin_pass_resets_local_occurrences_for_lifecycle_replay() {
    let location = same_location();
    let mut stack = ElementIdStack::default();

    stack.push(ElementId::CodeLocation(location.duplicate()));
    assert_eq!(occurrence_at(&stack, 0), Some(0));
    stack.pop();

    stack.begin_pass();
    stack.push(ElementId::CodeLocation(location.duplicate()));
    assert_eq!(occurrence_at(&stack, 0), Some(0));
}

#[test]
fn begin_pass_allows_same_explicit_key_across_lifecycle_phases() {
    let mut stack = ElementIdStack::default();

    stack.push(ElementId::from_name("same-key".to_string()));
    stack.pop();
    stack.begin_pass();
    stack.push(ElementId::from_name("same-key".to_string()));
    stack.pop();
    assert_eq!(stack.len(), 0);
}

#[test]
fn pop_empty_stack_preserves_root_scope() {
    let location = same_location();
    let mut stack = ElementIdStack::default();

    assert_eq!(stack.pop(), None);
    stack.push(ElementId::CodeLocation(location));

    assert_eq!(occurrence_at(&stack, 0), Some(0));
}

#[test]
fn signed_integer_identity_rejects_negative_values() {
    assert_eq!(ElementId::try_from_i32(7).unwrap(), ElementId::Integer(7));
    assert!(ElementId::try_from_i32(-1).is_err());

    assert_eq!(
        ValueKey::try_from_i32(7).unwrap().into_element_id(),
        ElementId::Integer(7)
    );
    assert!(ValueKey::try_from_i32(-1).is_err());
}

#[test]
fn key_conversions_preserve_value_and_global_identity() {
    let row = ValueKey::from_name("row".to_string());
    assert_eq!(
        Key::value(row).into_element_id(),
        ElementId::from_name("row".to_string())
    );

    let global = GlobalKey::new("app-root".to_string());
    assert_eq!(
        Key::global(global.duplicate()).into_element_id(),
        ElementId::GlobalKey(global)
    );
}

#[test]
fn distinct_locations_count_separately_in_one_scope() {
    let a = SourceLocation::new("src/a.rs".to_string(), 1, 1);
    let b = SourceLocation::new("src/a.rs".to_string(), 2, 1);
    let mut stack = ElementIdStack::new();

    stack.push(ElementId::CodeLocation(a.duplicate()));
    stack.pop();
    stack.push(ElementId::CodeLocation(b.duplicate()));
    assert_eq!(occurrence_at(&stack, 0), Some(0));
    stack.pop();
    stack.push(ElementId::CodeLocation(a));
    assert_eq!(occurrence_at(&stack, 0), Some(1));
}

#[test]
fn named_child_normalizes_its_base() {
    let location = same_location();
    let mut stack = ElementIdStack::new();

    stack.push(ElementId::CodeLocation(location.duplicate()));
    stack.pop();
    stack.push(ElementId::child(
        ElementId::CodeLocation(location),
        "label".to_string(),
    ));
    match &stack.as_slice()[0] {
        ElementId::NamedChild(base, name) => {
            assert_eq!(name.as_str(), "label");
            match &**base {
                ElementId::Local(local) => assert_eq!(local.occurrence(), 1),
                other => panic!("base was not normalized: {:?}", other),
            }
        }
        other => panic!("expected a named child, got {:?}", other),
    }
}

#[test]
fn push_resolved_keeps_the_id_and_clear_empties_the_path() {
    let mut stack = ElementIdStack::new();
    stack.push_resolved(ElementId::named_usize("item".to_string(), 3));
    stack.push(ElementId::from_usize(9));
    assert_eq!(stack.len(), 2);
    assert_eq!(stack.as_slice()[0], ElementId::NamedInteger("item".to_string(), 3));
    assert_eq!(stack.pop(), Some(ElementId::Integer(9)));
    stack.clear();
    assert_eq!(stack.len(), 0);
    assert_eq!(stack.pop(), None);
}

#[test]
fn local_key_becomes_a_code_location() {
    let location = same_location();
    let id = Key::local(location.duplicate()).into_element_id();
    assert_eq!(id, ElementId::CodeLocation(location));
}

#[test]
fn source_location_accessors_report_fields() {
    let location = SourceLocation::new("src/lib.rs".to_string(), 40, 7);
    assert_eq!(location.file(), "src/lib.rs");
    assert_eq!(location.line(), 40);
    assert_eq!(location.column(), 7);
    assert!(location.same(&location.duplicate()));
    assert!(!location.same(&SourceLocation::new("src/lib.rs".to_string(), 40, 8)));
}

#[test]
fn global_key_from_uuid_uses_hyphenated_lowercase_text() {
    let key = GlobalKey::from_uuid(0x67e5_5044_10b1_426f_9247_bb68_0e5f_e0c8);
    assert_eq!(key.as_str(), "67e55044-10b1-426f-9247-bb680e5fe0c8");
    let zero = GlobalKey::from_uuid(0);
    assert_eq!(zero.as_str(), "00000000-0000-0000-0000-000000000000");
}

#[test]
fn only_name_ids_convert_to_names() {
    assert_eq!(
        ElementId::from_name("row".to_string()).try_into_name().unwrap(),
        "row"
    );
    let err = ElementId::Integer(3).try_into_name().unwrap_err();
    assert_eq!(err.to_string(), "element id is not string");
}

#[test]
fn fresh_stack_has_room_to_push() {
    let mut stack = ElementIdStack::new();
    assert!(stack.has_room());
    stack.push(ElementId::Integer(1));
    assert!(stack.has_room());
}

#[test]
fn value_keys_are_built_from_values() {
    assert_eq!(ValueKey::from_usize(4).into_element_id(), ElementId::Integer(4));
    assert_eq!(
        ValueKey::from_path("a/b".to_string()).into_element_id(),
        ElementId::Path("a/b".to_string())
    );
    assert_eq!(ValueKey::from_focus_handle(9).into_element_id(), ElementId::FocusHandle(9));
    assert_eq!(
        ValueKey::named_integer("row".to_string(), 2).into_element_id(),
        ElementId::NamedInteger("row".to_string(), 2)
    );
    assert_eq!(ValueKey::from_uuid(5).into_element_id(), ElementId::Uuid(5));
    let child = ValueKey::child(ValueKey::from_name("list".to_string()), "item".to_string());
    assert_eq!(
        Key::value(child).into_element_id(),
        ElementId::child(ElementId::from_name("list".to_string()), "item".to_string())
    );
}

#[test]
fn global_keys_compare_by_text() {
    assert_eq!(GlobalKey::new("a".to_string()), GlobalKey::new("a".to_string()));
    assert_ne!(GlobalKey::new("a".to_string()), GlobalKey::new("b".to_string()));
}

#[test]
fn element_ids_display_like_their_values() {
    assert_eq!(ElementId::View(7).to_string(), "view-7");
    assert_eq!(ElementId::Integer(1203).to_string(), "1203");
    assert_eq!(ElementId::Integer(0).to_string(), "0");
    assert_eq!(ElementId::Name("header".to_string()).to_string(), "header");
    assert_eq!(ElementId::FocusHandle(3).to_string(), "FocusHandle");
    assert_eq!(ElementId::NamedInteger("row".to_string(), 12).to_string(), "row-12");
    assert_eq!(ElementId::Path("/tmp/a.txt".to_string()).to_string(), "/tmp/a.txt");
    assert_eq!(
        ElementId::CodeLocation(SourceLocation::new("src/main.rs".to_string(), 10, 5)).to_string(),
        "src/main.rs:10:5"
    );
    assert_eq!(ElementId::GlobalKey(GlobalKey::new("app".to_string())).to_string(), "global:app");
    assert_eq!(
        ElementId::Uuid(0x67e55044_10b1_426f_9247_bb680e5fe0c8).to_string(),
        "67e55044-10b1-426f-9247-bb680e5fe0c8"
    );
    let child = ElementId::NamedChild(Box::new(ElementId::Integer(4)), "label".to_string());
    assert_eq!(child.to_string(), "4-label");
    assert_eq!(GlobalKey::new("k".to_string()).to_string(), "k");
}

#[test]
fn local_ids_display_location_and_occurrence() {
    let mut stack = ElementIdStack::default();
    stack.push(ElementId::CodeLocation(same_location()));
    stack.pop();
    stack.push(ElementId::CodeLocation(same_location()));
    assert_eq!(stack.as_slice()[0].to_string(), "src/identity_tests.rs:12:5#1");
}
