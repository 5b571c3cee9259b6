use flui_core::{BorrowState, ReentryError};

fn is_app_borrowed(result: Result<BorrowState, ReentryError>) -> bool {
    matches!(result, Err(ReentryError::AppBorrowed))
}

#[test]
fn borrow_mut_then_borrow_mut_returns_app_borrowed() {
    let mut state = BorrowState::Free;
    for _ in 0..32 {
        let held = state.try_borrow_mut().unwrap();
        assert_eq!(held, BorrowState::Mut);
        assert!(is_app_borrowed(held.try_borrow_mut()));
        assert!(is_app_borrowed(held.try_borrow()));
        state = held.release_mut();
        assert_eq!(state, BorrowState::Free);
    }
}

#[test]
fn drop_releases_borrow() {
    let kinds = [true, false, true, true, false, false, true];
    let mut state = BorrowState::Free;
    for shared in kinds {
        if shared {
            let held = state.try_borrow().unwrap();
            assert!(is_app_borrowed(held.try_borrow_mut()));
            state = held.release_shared();
        } else {
            let held = state.try_borrow_mut().unwrap();
            assert!(is_app_borrowed(held.try_borrow_mut()));
            state = held.release_mut();
        }
        assert_eq!(state, BorrowState::Free);
        assert!(state.try_borrow_mut().is_ok());
    }
}

#[test]
fn shared_borrows_stack_and_unwind() {
    let one = BorrowState::Free.try_borrow().unwrap();
    assert_eq!(one, BorrowState::Shared(1));
    let two = one.try_borrow().unwrap();
    assert_eq!(two, BorrowState::Shared(2));
    assert_eq!(two.release_shared(), BorrowState::Shared(1));
    assert_eq!(one.release_shared(), BorrowState::Free);
}

#[test]
fn borrow_share_count_caps() {
    for distance_from_cap in 0u32..3 {
        let count = u32::MAX - distance_from_cap;
        let state = BorrowState::Shared(count);
        if count == u32::MAX {
            assert!(is_app_borrowed(state.try_borrow()));
        } else {
            let held = state.try_borrow().expect("shared borrow below cap should succeed");
            assert_eq!(held, BorrowState::Shared(count + 1));
            assert_eq!(held.release_shared(), BorrowState::Shared(count));
        }
    }
}

#[test]
fn misplaced_shared_release_resets_to_free() {
    assert_eq!(BorrowState::Mut.release_shared(), BorrowState::Free);
    assert_eq!(BorrowState::Free.release_shared(), BorrowState::Free);
}
