use deet::pmap::drain_positions;

#[test]
fn draining_tags_each_value_with_its_slot() {
    let mut input = vec![10, 20, 30];
    let tagged = drain_positions(&mut input);
    assert!(input.is_empty());
    assert_eq!(tagged, vec![(2, 30), (1, 20), (0, 10)]);
}

#[test]
fn draining_an_empty_input_yields_nothing() {
    let mut input: Vec<u8> = Vec::new();
    let tagged = drain_positions(&mut input);
    assert!(tagged.is_empty());
}

#[test]
fn scattered_results_rebuild_the_order() {
    // Results placed by their tag land where the original values sat.
    let mut input = vec![1u64, 2, 3, 4];
    let tagged = drain_positions(&mut input);
    let mut output = vec![0u64; 4];
    for (pos, val) in tagged {
        output[pos] = val * val;
    }
    assert_eq!(output, vec![1, 4, 9, 16]);
}
