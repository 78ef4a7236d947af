use muharrir::selection::{PanelStates, Selection};

// === Selection ===

#[test]
fn selection_empty() {
    let sel: Selection<u64> = Selection::new();
    assert!(sel.is_empty());
    assert_eq!(sel.len(), 0);
    assert!(sel.primary().is_none());
}

#[test]
fn selection_select_single() {
    let mut sel = Selection::new();
    sel.select(42u64);
    assert_eq!(sel.len(), 1);
    assert!(sel.is_single());
    assert!(sel.contains(&42));
    assert_eq!(sel.primary(), Some(&42));
}

#[test]
fn selection_select_replaces() {
    let mut sel = Selection::new();
    sel.select(1u64);
    sel.select(2);
    assert_eq!(sel.len(), 1);
    assert!(!sel.contains(&1));
    assert!(sel.contains(&2));
}

#[test]
fn selection_toggle_add_remove() {
    let mut sel = Selection::new();
    sel.toggle(1u64);
    assert!(sel.contains(&1));
    sel.toggle(2);
    assert_eq!(sel.len(), 2);
    sel.toggle(1);
    assert_eq!(sel.len(), 1);
    assert!(!sel.contains(&1));
    assert!(sel.contains(&2));
}

#[test]
fn selection_add_no_duplicates() {
    let mut sel = Selection::new();
    sel.add(1u64);
    sel.add(1);
    sel.add(2);
    assert_eq!(sel.len(), 2);
}

#[test]
fn selection_remove() {
    let mut sel = Selection::new();
    sel.select_many(vec![1u64, 2, 3]);
    sel.remove(&2);
    assert_eq!(sel.items(), &[1, 3]);
}

#[test]
fn selection_clear() {
    let mut sel = Selection::new();
    sel.select_many(vec![1u64, 2, 3]);
    sel.clear();
    assert!(sel.is_empty());
    assert!(sel.primary().is_none());
}

#[test]
fn selection_primary_tracks_last() {
    let mut sel = Selection::new();
    sel.select_many(vec![1u64, 2, 3]);
    assert_eq!(sel.primary(), Some(&3));

    sel.toggle(2);
    assert_eq!(sel.primary(), Some(&3));

    sel.toggle(5);
    assert_eq!(sel.primary(), Some(&5));
}

#[test]
fn selection_select_many_deduplicates() {
    let mut sel = Selection::new();
    sel.select_many(vec![1u64, 2, 1, 3, 2]);
    assert_eq!(sel.len(), 3);
    assert_eq!(sel.items(), &[1, 2, 3]);
}

#[test]
fn selection_remove_preserves_primary() {
    let mut sel = Selection::new();
    sel.select_many(vec![1u64, 2, 3, 4, 5]);
    assert_eq!(sel.primary(), Some(&5));

    sel.remove(&2);
    assert_eq!(sel.items(), &[1, 3, 4, 5]);
    assert_eq!(sel.primary(), Some(&5));

    sel.remove(&5);
    assert_eq!(sel.items(), &[1, 3, 4]);
    assert_eq!(sel.primary(), Some(&4));
}

#[test]
fn selection_toggle_off_preserves_primary() {
    let mut sel = Selection::new();
    sel.select_many(vec![1u64, 2, 3]);
    assert_eq!(sel.primary(), Some(&3));

    sel.toggle(1);
    assert_eq!(sel.items(), &[2, 3]);
    assert_eq!(sel.primary(), Some(&3));
}

#[test]
fn selection_remove_after_primary_no_shift() {
    let mut sel = Selection::new();
    sel.select(1u64);
    sel.add(2);
    sel.add(3);
    assert_eq!(sel.primary(), Some(&3));

    sel.add(1);
    assert_eq!(sel.primary(), Some(&1));

    sel.remove(&3);
    assert_eq!(sel.primary(), Some(&1));
}

#[test]
fn selection_default() {
    let sel: Selection<u32> = Selection::default();
    assert!(sel.is_empty());
}

#[test]
fn selection_toggle_twice_restores_membership() {
    let mut sel = Selection::new();
    sel.select_many(vec![4u64, 7]);
    sel.toggle(9);
    sel.toggle(9);
    assert!(!sel.contains(&9));
    assert_eq!(sel.items(), &[4, 7]);
    sel.toggle(4);
    sel.toggle(4);
    assert!(sel.contains(&4));
    assert_eq!(sel.len(), 2);
}

#[test]
fn selection_remove_missing_is_noop() {
    let mut sel = Selection::new();
    sel.select_many(vec![1u64, 2]);
    sel.remove(&9);
    assert_eq!(sel.items(), &[1, 2]);
    assert_eq!(sel.primary(), Some(&2));
}

#[test]
fn selection_remove_last_clears_primary() {
    let mut sel = Selection::new();
    sel.select(3u64);
    sel.remove(&3);
    assert!(sel.is_empty());
    assert!(sel.primary().is_none());
}

#[test]
fn selection_select_many_empty() {
    let mut sel = Selection::new();
    sel.select(3u64);
    sel.select_many(vec![]);
    assert!(sel.is_empty());
    assert!(sel.primary().is_none());
}

#[test]
fn selection_add_existing_makes_primary() {
    let mut sel = Selection::new();
    sel.select_many(vec![1u64, 2, 3]);
    sel.add(2);
    assert_eq!(sel.items(), &[1, 2, 3]);
    assert_eq!(sel.primary(), Some(&2));
}

// === PanelStates ===

#[test]
fn panel_states_register_and_query() {
    let mut panels = PanelStates::new();
    panels.register("inspector", true);
    panels.register("hierarchy", true);
    panels.register("viewport", false);

    assert!(panels.is_visible("inspector"));
    assert!(panels.is_visible("hierarchy"));
    assert!(!panels.is_visible("viewport"));
    assert!(!panels.is_visible("unknown"));
    assert_eq!(panels.len(), 3);
}

#[test]
fn panel_states_set_visible() {
    let mut panels = PanelStates::new();
    panels.register("inspector", true);
    panels.set_visible("inspector", false);
    assert!(!panels.is_visible("inspector"));
}

#[test]
fn panel_states_toggle() {
    let mut panels = PanelStates::new();
    panels.register("inspector", true);

    let new_state = panels.toggle("inspector");
    assert_eq!(new_state, Some(false));
    assert!(!panels.is_visible("inspector"));

    let new_state = panels.toggle("inspector");
    assert_eq!(new_state, Some(true));
}

#[test]
fn panel_states_toggle_unregistered() {
    let mut panels = PanelStates::new();
    assert_eq!(panels.toggle("nope"), None);
}

#[test]
fn panel_states_show_hide_all() {
    let mut panels = PanelStates::new();
    panels.register("a", true);
    panels.register("b", false);
    panels.register("c", true);

    panels.hide_all();
    assert!(!panels.is_visible("a"));
    assert!(!panels.is_visible("b"));
    assert!(!panels.is_visible("c"));

    panels.show_all();
    assert!(panels.is_visible("a"));
    assert!(panels.is_visible("b"));
    assert!(panels.is_visible("c"));
}

#[test]
fn panel_states_default_empty() {
    let panels = PanelStates::default();
    assert!(panels.is_empty());
}

#[test]
fn panel_states_register_twice_updates() {
    let mut panels = PanelStates::new();
    panels.register("a", true);
    panels.register("a", false);
    assert_eq!(panels.len(), 1);
    assert!(!panels.is_visible("a"));
    assert_eq!(panels.panels()[0], ("a".to_string(), false));
}

#[test]
fn panel_states_set_visible_unregistered_is_noop() {
    let mut panels = PanelStates::new();
    panels.set_visible("ghost", true);
    assert!(panels.is_empty());
    assert!(!panels.is_visible("ghost"));
}

#[test]
fn select_many_makes_last_given_item_primary() {
    let mut sel = Selection::new();
    sel.select_many(vec![1u64, 2, 1, 3, 2]);
    assert_eq!(sel.items(), &[1, 2, 3]);
    assert_eq!(sel.primary(), Some(&2));
}
