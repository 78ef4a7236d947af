use muharrir::dirty::DirtyState;

#[test]
fn new_is_clean() {
    let state = DirtyState::new();
    assert!(state.is_clean());
    assert!(!state.is_dirty());
    assert_eq!(state.changes_since_save(), 0);
}

#[test]
fn mark_dirty() {
    let mut state = DirtyState::new();
    state.mark_dirty();
    assert!(state.is_dirty());
    assert_eq!(state.generation(), 1);
    assert_eq!(state.changes_since_save(), 1);
}

#[test]
fn mark_clean_after_dirty() {
    let mut state = DirtyState::new();
    state.mark_dirty();
    state.mark_dirty();
    state.mark_clean();
    assert!(state.is_clean());
    assert_eq!(state.changes_since_save(), 0);
}

#[test]
fn dirty_after_save_then_edit() {
    let mut state = DirtyState::new();
    state.mark_dirty();
    state.mark_clean();
    assert!(state.is_clean());

    state.mark_dirty();
    assert!(state.is_dirty());
    assert_eq!(state.changes_since_save(), 1);
}

#[test]
fn multiple_edits_between_saves() {
    let mut state = DirtyState::new();
    for _ in 0..10 {
        state.mark_dirty();
    }
    assert_eq!(state.changes_since_save(), 10);

    state.mark_clean();
    assert_eq!(state.changes_since_save(), 0);
}

#[test]
fn reset() {
    let mut state = DirtyState::new();
    state.mark_dirty();
    state.mark_dirty();
    state.mark_clean();
    state.mark_dirty();

    state.reset();
    assert!(state.is_clean());
    assert_eq!(state.generation(), 0);
    assert_eq!(state.save_point(), 0);
}

#[test]
fn default_is_clean() {
    let state = DirtyState::default();
    assert!(state.is_clean());
}

#[test]
fn save_point_tracks_generation() {
    let mut state = DirtyState::new();
    state.mark_dirty();
    state.mark_dirty();
    state.mark_dirty();
    state.mark_clean();
    assert_eq!(state.save_point(), 3);
    assert_eq!(state.generation(), 3);
    state.mark_dirty();
    assert_eq!(state.changes_since_save(), 1);
}
