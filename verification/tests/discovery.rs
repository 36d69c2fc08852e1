use evm_analyzer::contract_analyzer::list_functions;

#[test]
fn empty_code_has_the_entry_at_zero() {
    assert_eq!(list_functions(&[]), vec![0]);
}

#[test]
fn jumpdest_at_zero_is_listed_once() {
    assert_eq!(list_functions(&[0x5b]), vec![0]);
    assert_eq!(list_functions(&[0x5b, 0x5b]), vec![0, 1]);
}

#[test]
fn jumpdests_are_entries() {
    // STOP; JUMPDEST; ADD; JUMPDEST
    assert_eq!(list_functions(&[0x00, 0x5b, 0x01, 0x5b]), vec![0, 1, 3]);
}

#[test]
fn push_data_is_no_entry() {
    // PUSH1 0x5b; JUMPDEST
    assert_eq!(list_functions(&[0x60, 0x5b, 0x5b]), vec![0, 2]);
    // PUSH2 0x5b5b; JUMPDEST
    assert_eq!(list_functions(&[0x61, 0x5b, 0x5b, 0x5b]), vec![0, 3]);
}

#[test]
fn push32_skips_thirty_two_bytes() {
    let mut code = vec![0x7f];
    code.extend(std::iter::repeat(0x5b).take(32));
    code.push(0x5b);
    assert_eq!(list_functions(&code), vec![0, 33]);
}

#[test]
fn truncated_push_ends_the_scan() {
    // PUSH4 with two bytes of data only
    assert_eq!(list_functions(&[0x00, 0x63, 0x5b, 0x5b]), vec![0]);
}

#[test]
fn entries_are_strictly_increasing() {
    let code = [0x5b, 0x60, 0x5b, 0x5b, 0x00, 0x5b, 0x7f, 0x5b];
    let list = list_functions(&code);
    assert_eq!(list, vec![0, 3, 5]);
    for pair in list.windows(2) {
        assert!(pair[0] < pair[1]);
    }
}
