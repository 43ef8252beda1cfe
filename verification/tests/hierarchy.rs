use pmx_model_core::hierarchy::{build, traverse, BoneTree, DiagnosticKind};
use pmx_model_core::model::BoneRecord;

fn bone(name: &str, parent: i32) -> BoneRecord {
    BoneRecord {
        name: name.to_string(),
        english_name: name.to_string(),
        parent,
        deform_depth: 0,
        boneflag: 0,
    }
}

fn bones_of(parents: &[i32]) -> Vec<BoneRecord> {
    parents
        .iter()
        .enumerate()
        .map(|(i, p)| bone(&format!("b{}", i), *p))
        .collect()
}

fn count_nodes(t: &BoneTree) -> usize {
    1 + t.child.iter().map(count_nodes).sum::<usize>()
}

fn root_child_ids(t: &BoneTree) -> Vec<i32> {
    t.child.iter().map(|c| c.id).collect()
}

#[test]
fn build_empty_list_is_root_only() {
    let (tree, diags) = build(&Vec::new());
    assert_eq!(tree.id, -1);
    assert!(tree.child.is_empty());
    assert!(diags.is_empty());
    assert!(traverse(&tree).is_empty());
}

#[test]
fn build_well_formed_chain() {
    // 0 -> root, 1 -> 0, 2 -> 1
    let (tree, diags) = build(&bones_of(&[-1, 0, 1]));
    assert!(diags.is_empty());
    assert_eq!(tree.id, -1);
    assert_eq!(root_child_ids(&tree), vec![0]);
    assert_eq!(root_child_ids(&tree.child[0]), vec![1]);
    assert_eq!(root_child_ids(&tree.child[0].child[0]), vec![2]);
    assert_eq!(
        traverse(&tree),
        vec![(0, 0), (1, 1), (2, 2)]
    );
}

#[test]
fn build_counts_all_bones_plus_root() {
    // A small forest: two roots, children out of order.
    let (tree, diags) = build(&bones_of(&[2, -1, -1, 1, 1]));
    assert!(diags.is_empty());
    assert_eq!(count_nodes(&tree), 6);
}

#[test]
fn build_children_ordered_by_identity() {
    let (tree, _) = build(&bones_of(&[-1, 0, 0, 0]));
    assert_eq!(root_child_ids(&tree), vec![0]);
    assert_eq!(root_child_ids(&tree.child[0]), vec![1, 2, 3]);
}

#[test]
fn build_twice_yields_identical_trees() {
    let bones = bones_of(&[3, -1, 1, 1, 0]);
    let (t1, d1) = build(&bones);
    let (t2, d2) = build(&bones);
    assert_eq!(traverse(&t1), traverse(&t2));
    assert_eq!(d1, d2);
    assert_eq!(count_nodes(&t1), count_nodes(&t2));
}

#[test]
fn orphan_bones_sit_under_virtual_root() {
    let (tree, diags) = build(&bones_of(&[-1, 0, -1, 2]));
    assert!(diags.is_empty());
    assert_eq!(root_child_ids(&tree), vec![0, 2]);
}

#[test]
fn self_parent_recovered_under_root() {
    // Bone 3 names itself as parent among 5 bones; the tree still ends.
    let (tree, diags) = build(&bones_of(&[-1, 0, 1, 3, 3]));
    assert_eq!(count_nodes(&tree), 6);
    assert!(root_child_ids(&tree).contains(&3));
    // Bone 4 keeps its valid parent 3.
    let three = tree.child.iter().find(|c| c.id == 3).unwrap();
    assert_eq!(root_child_ids(three), vec![4]);
    assert_eq!(diags.len(), 1);
    assert_eq!(diags[0].bone, 3);
    assert_eq!(diags[0].kind, DiagnosticKind::InvalidParentReference);
    // Traversal of the repaired tree ends and reports every bone once.
    let mut ids: Vec<i32> = traverse(&tree).iter().map(|p| p.0).collect();
    ids.sort();
    assert_eq!(ids, vec![0, 1, 2, 3, 4]);
}

#[test]
fn out_of_range_parent_recovered_under_root() {
    let (tree, diags) = build(&bones_of(&[-1, 99, -5]));
    assert_eq!(root_child_ids(&tree), vec![0, 1, 2]);
    let repaired: Vec<usize> = diags.iter().map(|d| d.bone).collect();
    assert_eq!(repaired, vec![1, 2]);
}

#[test]
fn parent_cycle_recovered_under_root() {
    // 1 and 2 reference each other; 3 hangs below the cycle.
    let (tree, diags) = build(&bones_of(&[-1, 2, 1, 1]));
    assert_eq!(count_nodes(&tree), 5);
    let repaired: Vec<usize> = diags.iter().map(|d| d.bone).collect();
    assert_eq!(repaired, vec![1, 2, 3]);
    assert_eq!(root_child_ids(&tree), vec![0, 1, 2, 3]);
    let walk = traverse(&tree);
    assert_eq!(walk.len(), 4);
    assert!(walk.iter().all(|p| p.1 == 0));
}

#[test]
fn editing_parent_relocates_subtree() {
    // 0 -> root; 1 -> 0; 2, 3 -> 1; 4 -> root.
    let mut bones = bones_of(&[-1, 0, 1, 1, -1]);
    let (before, _) = build(&bones);
    assert_eq!(
        traverse(&before),
        vec![(0, 0), (1, 1), (2, 2), (3, 2), (4, 0)]
    );
    // Move bone 1 (with its subtree 2, 3) under bone 4.
    bones[1].parent = 4;
    let (after, diags) = build(&bones);
    assert!(diags.is_empty());
    assert_eq!(
        traverse(&after),
        vec![(0, 0), (4, 0), (1, 1), (2, 2), (3, 2)]
    );
    // Outside the moved subtree the children sets are unchanged; inside
    // it, the shape is the same.
    assert_eq!(root_child_ids(&before.child[0]), vec![1]);
    assert_eq!(root_child_ids(&after.child[0]), Vec::<i32>::new());
    let one_before = &before.child[0].child[0];
    let one_after = &after.child[1].child[0];
    assert_eq!(one_before.id, 1);
    assert_eq!(one_after.id, 1);
    assert_eq!(traverse(one_before), traverse(one_after));
}

#[test]
fn traverse_depth_counts_from_root_children() {
    let (tree, _) = build(&bones_of(&[-1, 0, 1, 2]));
    let walk = traverse(&tree);
    assert_eq!(walk, vec![(0, 0), (1, 1), (2, 2), (3, 3)]);
}
