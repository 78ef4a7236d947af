use muharrir::hierarchy::{build_hierarchy, build_hierarchy_from_parents, flatten, FlatEntry, NodeId};
use std::collections::HashMap;

fn parents() -> HashMap<NodeId, NodeId> {
    let mut m = HashMap::new();
    m.insert(2, 1);
    m.insert(3, 1);
    m.insert(4, 2);
    m
}

fn names(id: NodeId) -> String {
    match id {
        1 => "Root".into(),
        2 => "Child A".into(),
        3 => "Child B".into(),
        4 => "Grandchild".into(),
        _ => format!("Node {id}"),
    }
}

#[test]
fn build_simple_tree() {
    let p = parents();
    let tree = build_hierarchy(&[1, 2, 3, 4], |id| p.get(&id).copied(), names);
    assert_eq!(tree.len(), 1);
    assert_eq!(tree[0].name, "Root");
    assert_eq!(tree[0].children.len(), 2);
}

#[test]
fn flatten_depth_first() {
    let p = parents();
    let tree = build_hierarchy(&[1, 2, 3, 4], |id| p.get(&id).copied(), names);
    let flat = flatten(&tree);
    assert_eq!(flat.len(), 4);
    assert_eq!(flat[0].name, "Root");
    assert_eq!(flat[0].depth, 0);
    assert_eq!(flat[1].name, "Child A");
    assert_eq!(flat[1].depth, 1);
    assert_eq!(flat[2].name, "Grandchild");
    assert_eq!(flat[2].depth, 2);
    assert_eq!(flat[3].name, "Child B");
    assert_eq!(flat[3].depth, 1);
}

#[test]
fn flatten_empty() {
    let flat = flatten(&[]);
    assert!(flat.is_empty());
}

#[test]
fn flat_list_no_parents() {
    let tree = build_hierarchy(&[1, 2, 3], |_| None, names);
    assert_eq!(tree.len(), 3);
    for node in &tree {
        assert!(node.children.is_empty());
    }
}

#[test]
fn orphan_treated_as_root() {
    let tree = build_hierarchy(&[1, 10], |id| if id == 10 { Some(99) } else { None }, names);
    assert_eq!(tree.len(), 2);
}

#[test]
fn self_parent_treated_as_root() {
    let tree = build_hierarchy(&[1, 2], |id| if id == 1 { Some(1) } else { None }, names);
    assert_eq!(tree.len(), 2);
}

#[test]
fn mutual_cycle_treated_as_roots() {
    let tree = build_hierarchy(&[1, 2], |id| if id == 1 { Some(2) } else { Some(1) }, names);
    let flat = flatten(&tree);
    assert!(flat.len() <= 2);
}

#[test]
fn deep_nesting() {
    let tree = build_hierarchy(
        &[1, 2, 3, 4, 5],
        |id| if id > 1 { Some(id - 1) } else { None },
        |id| format!("L{id}"),
    );
    assert_eq!(tree.len(), 1);
    let flat = flatten(&tree);
    assert_eq!(flat.len(), 5);
    assert_eq!(flat[4].depth, 4);
}

#[test]
fn hierarchy_with_inspector() {
    let parents = HashMap::from([(2u64, 1u64), (3, 1)]);
    let tree = build_hierarchy(&[1, 2, 3], |id| parents.get(&id).copied(), |id| format!("Node {id}"));
    let flat = flatten(&tree);
    assert_eq!(flat.len(), 3);
    assert_eq!(flat[0].depth, 0);
}

#[test]
fn children_keep_list_order() {
    // Children appear in the order their ids occur in the input, even when
    // the child comes before its parent.
    let tree = build_hierarchy_from_parents(&[5, 1, 3], &[Some(1), None, Some(1)], |id| format!("n{id}"));
    assert_eq!(tree.len(), 1);
    assert_eq!(tree[0].id, 1);
    let kids: Vec<NodeId> = tree[0].children.iter().map(|c| c.id).collect();
    assert_eq!(kids, vec![5, 3]);
    assert_eq!(tree[0].children[0].depth, 1);
}

#[test]
fn flatten_entries_carry_depth_id_and_name() {
    let tree = build_hierarchy_from_parents(&[7, 8], &[None, Some(7)], |id| format!("n{id}"));
    let flat = flatten(&tree);
    assert_eq!(
        flat,
        vec![
            FlatEntry { depth: 0, id: 7, name: "n7".to_string() },
            FlatEntry { depth: 1, id: 8, name: "n8".to_string() },
        ]
    );
}

#[test]
fn clone_keeps_the_subtree() {
    let tree = build_hierarchy_from_parents(&[1, 2, 3], &[None, Some(1), Some(2)], |id| format!("n{id}"));
    let copy = tree[0].clone();
    assert_eq!(flatten(&[copy]), flatten(&tree));
}
