use zawgl::btree::{
    checked_tree_search_step, key_search, str_lt, tree_search_step, BTreeNode, Cell, SearchStep,
    NB_CELL,
};

#[test]
fn test_ser() {}

fn leaf(keys: &[(&str, Option<u64>, bool)]) -> BTreeNode {
    let cells = keys
        .iter()
        .map(|(k, p, active)| Cell::new(k, *p, Vec::new(), *active))
        .collect();
    BTreeNode::new(true, cells)
}

fn inner(keys: &[(&str, Option<u64>)]) -> BTreeNode {
    let cells = keys.iter().map(|(k, p)| Cell::new_ptr(k, *p)).collect();
    BTreeNode::new_with_id(Some(7), Some(3), false, cells)
}

#[test]
fn cells_record_their_content() {
    let c = Cell::new_leaf("key", 42);
    assert_eq!(c.get_key(), "key");
    assert_eq!(c.get_data_ptrs_ref(), &vec![42]);
    assert_eq!(c.get_node_ptr(), None);
    assert!(c.is_active());
    let mut c = Cell::new_ptr("k2", Some(5));
    assert_eq!(c.get_node_ptr(), Some(5));
    assert!(c.get_data_ptrs_ref().is_empty());
    c.append_data_ptr(9);
    c.append_data_ptr(10);
    assert_eq!(c.get_data_ptrs_ref(), &vec![9, 10]);
    let c = Cell::new("k3", Some(1), vec![1, 2], false);
    assert!(!c.is_active());
    assert_eq!(c.get_data_ptrs_ref(), &vec![1, 2]);
}

#[test]
fn node_edits_cells() {
    let mut n = BTreeNode::new(true, Vec::new());
    assert!(n.is_leaf());
    assert_eq!(n.get_id(), None);
    assert_eq!(n.get_node_ptr(), None);
    assert!(n.pop_cell().is_none());
    n.insert_cell(0, Cell::new_ptr("b", None));
    n.insert_cell(0, Cell::new_ptr("a", None));
    n.insert_cell(2, Cell::new_ptr("c", None));
    assert_eq!(n.get_keys(), vec!["a".to_string(), "b".to_string(), "c".to_string()]);
    assert_eq!(n.get_cell_ref(1).get_key(), "b");
    n.get_cell_mut(1).append_data_ptr(77);
    assert_eq!(n.get_cell_ref(1).get_data_ptrs_ref(), &vec![77]);
    assert_eq!(n.get_cells_ref().len(), 3);
    let last = n.pop_cell().unwrap();
    assert_eq!(last.get_key(), "c");
    assert_eq!(n.get_cells_ref().len(), 2);
    assert!(!n.is_full());
    n.set_node_ptr(Some(12));
    assert_eq!(n.get_node_ptr(), Some(12));
    let full = BTreeNode::new(true, (0..NB_CELL).map(|i| Cell::new_leaf(&i.to_string(), 0)).collect());
    assert!(full.is_full());
    let m = inner(&[("x", Some(1))]);
    assert_eq!(m.get_id(), Some(7));
    assert_eq!(m.get_node_ptr(), Some(3));
    assert!(!m.is_leaf());
}

#[test]
fn keys_skip_inactive_cells() {
    let n = leaf(&[("a", None, true), ("b", None, false), ("c", None, true)]);
    assert_eq!(n.get_keys(), vec!["a".to_string(), "c".to_string()]);
}

#[test]
fn string_order_is_lexicographic() {
    assert!(str_lt("a", "b"));
    assert!(str_lt("ab", "b"));
    assert!(str_lt("a", "ab"));
    assert!(!str_lt("ab", "ab"));
    assert!(!str_lt("b", "ab"));
    assert!(str_lt("", "a"));
    assert!(!str_lt("", ""));
    assert!(str_lt("Z", "a"));
    assert!(str_lt("é", "ü"));
}

#[test]
fn key_search_matches_binary_search_on_sorted_keys() {
    let keys: Vec<String> = vec!["b".into(), "d".into(), "f".into()];
    for probe in ["a", "b", "c", "d", "e", "f", "g"] {
        assert_eq!(key_search(&keys, probe), keys.binary_search(&probe.to_string()));
    }
    let empty: Vec<String> = Vec::new();
    assert_eq!(key_search(&empty, "x"), Err(0));
}

#[test]
fn leaf_search_returns_pointer_of_matching_cell() {
    let n = leaf(&[("a", Some(10), true), ("c", Some(30), true)]);
    assert_eq!(tree_search_step(&n, "c"), SearchStep::Done(Some(30)));
    assert_eq!(tree_search_step(&n, "a"), SearchStep::Done(Some(10)));
    assert_eq!(tree_search_step(&n, "b"), SearchStep::Done(None));
    assert_eq!(tree_search_step(&n, "z"), SearchStep::Done(None));
}

#[test]
fn inner_search_descends_to_child() {
    let n = inner(&[("b", Some(100)), ("d", Some(200)), ("f", None)]);
    assert_eq!(tree_search_step(&n, "a"), SearchStep::Descend(100));
    assert_eq!(tree_search_step(&n, "b"), SearchStep::Descend(100));
    assert_eq!(tree_search_step(&n, "c"), SearchStep::Descend(200));
    assert_eq!(tree_search_step(&n, "e"), SearchStep::Done(None));
    assert_eq!(checked_tree_search_step(&n, "g"), None);
    assert_eq!(checked_tree_search_step(&n, "c"), Some(SearchStep::Descend(200)));
}

#[test]
fn key_search_finds_first_equal_key() {
    let keys: Vec<String> = vec!["c".into(), "a".into(), "a".into()];
    assert_eq!(key_search(&keys, "a"), Ok(1));
    // not found: the number of keys that sort before the value
    assert_eq!(key_search(&keys, "b"), Err(2));
}

/// The search of a key over a two-level tree, one step per node.
fn descend(nodes: &std::collections::HashMap<u64, BTreeNode>, root: &BTreeNode, value: &str) -> Option<u64> {
    let mut node = root;
    loop {
        match tree_search_step(node, value) {
            SearchStep::Done(ptr) => return ptr,
            SearchStep::Descend(child) => node = nodes.get(&child)?,
        }
    }
}

#[test]
fn two_level_search_finds_what_the_leaves_store() {
    let root = BTreeNode::new(
        false,
        vec![Cell::new("m", Some(1), Vec::new(), true), Cell::new("", Some(2), Vec::new(), false)],
    );
    let mut nodes = std::collections::HashMap::new();
    nodes.insert(1, leaf(&[("c", Some(10), true), ("m", Some(20), true)]));
    nodes.insert(2, leaf(&[("t", Some(30), true)]));
    assert_eq!(descend(&nodes, &root, "c"), Some(10));
    assert_eq!(descend(&nodes, &root, "m"), Some(20));
    assert_eq!(descend(&nodes, &root, "t"), Some(30));
    assert_eq!(descend(&nodes, &root, "d"), None);
    assert_eq!(descend(&nodes, &root, "z"), None);
    assert_eq!(descend(&nodes, &root, "a"), None);
}
