use rtes::lineage::{compute_lineage_hash, encode_stack, StackFrame};

fn frame(split: &str, branch: &str, index: i32, total: i32) -> StackFrame {
    StackFrame {
        split_node_id: split.to_string(),
        branch_id: branch.to_string(),
        item_index: index,
        total_items: total,
    }
}

#[test]
fn lineage_hash_is_deterministic_and_distinguishes_branches() {
    let stack_a = vec![frame("split-1", "A", 0, 2)];
    let stack_b = vec![frame("split-1", "B", 1, 2)];

    let hash_a1 = compute_lineage_hash(&stack_a).expect("hash a1");
    let hash_a2 = compute_lineage_hash(&stack_a).expect("hash a2");
    let hash_b = compute_lineage_hash(&stack_b).expect("hash b");

    assert_eq!(hash_a1, hash_a2);
    assert_ne!(hash_a1, hash_b);
}

#[test]
fn empty_stack_has_no_hash() {
    assert_eq!(compute_lineage_hash(&[]), None);
}

#[test]
fn hash_is_a_hyphenated_uuid() {
    let h = compute_lineage_hash(&[frame("s", "b", 0, 1)]).unwrap();
    assert_eq!(h.len(), 36);
    assert_eq!(h.as_bytes()[8], b'-');
    assert_eq!(h.as_bytes()[14], b'5');
}

#[test]
fn each_field_changes_the_hash() {
    let base = vec![frame("split-1", "A", 0, 2)];
    let h = compute_lineage_hash(&base).unwrap();
    for other in [
        vec![frame("split-2", "A", 0, 2)],
        vec![frame("split-1", "B", 0, 2)],
        vec![frame("split-1", "A", 1, 2)],
        vec![frame("split-1", "A", 0, 3)],
        vec![frame("split-1", "A", 0, 2), frame("split-1", "A", 0, 2)],
    ] {
        assert_ne!(compute_lineage_hash(&other).unwrap(), h);
    }
}

#[test]
fn canonical_encoding_is_compact_json() {
    let bytes = encode_stack(&[frame("split-1", "A", 0, 2), frame("s\"2", "b\n", -7, 10)]);
    assert_eq!(
        String::from_utf8(bytes).unwrap(),
        "[{\"split_node_id\":\"split-1\",\"branch_id\":\"A\",\"item_index\":0,\"total_items\":2},{\"split_node_id\":\"s\\\"2\",\"branch_id\":\"b\\n\",\"item_index\":-7,\"total_items\":10}]"
    );
}

#[test]
fn canonical_encoding_escapes_control_bytes_and_keeps_unicode() {
    let bytes = encode_stack(&[frame("\u{1}é", "\\", i32::MIN, i32::MAX)]);
    assert_eq!(
        String::from_utf8(bytes).unwrap(),
        "[{\"split_node_id\":\"\\u0001é\",\"branch_id\":\"\\\\\",\"item_index\":-2147483648,\"total_items\":2147483647}]"
    );
}

#[test]
fn hash_matches_the_known_value_for_a_stack() {
    // Version-5 UUID of the encoding under the OID namespace, as printed by uuid.
    let stack = vec![frame("split-1", "A", 0, 2)];
    let bytes = encode_stack(&stack);
    let expected = uuid::Uuid::new_v5(&uuid::Uuid::NAMESPACE_OID, &bytes).to_string();
    assert_eq!(compute_lineage_hash(&stack).unwrap(), expected);
}
