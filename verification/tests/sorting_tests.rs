use quickstitch::sorting::{sort_paths, Sort};

fn names(list: &[&str]) -> Vec<String> {
    list.iter().map(|s| s.to_string()).collect()
}

#[test]
fn natural_orders_digit_runs_by_magnitude() {
    let sorted = sort_paths(names(&["9.jpeg", "10.jpeg", "8.jpeg", "11.jpeg"]), Sort::Natural);
    assert_eq!(sorted, names(&["8.jpeg", "9.jpeg", "10.jpeg", "11.jpeg"]));
}

#[test]
fn logical_orders_bytewise() {
    let sorted = sort_paths(names(&["9.jpeg", "10.jpeg", "8.jpeg", "11.jpeg"]), Sort::Logical);
    assert_eq!(sorted, names(&["10.jpeg", "11.jpeg", "8.jpeg", "9.jpeg"]));
}

#[test]
fn natural_handles_embedded_runs() {
    let sorted = sort_paths(names(&["a10b", "a2b", "a1c", "b1"]), Sort::Natural);
    assert_eq!(sorted, names(&["a1c", "a2b", "a10b", "b1"]));
}

#[test]
fn natural_is_stable_for_equal_values() {
    // "007" and "7" carry the same numeric value; their input order is kept.
    let sorted = sort_paths(names(&["007", "7", "08"]), Sort::Natural);
    assert_eq!(sorted, names(&["007", "7", "08"]));
}

#[test]
fn natural_mixes_digits_and_letters() {
    let sorted = sort_paths(names(&["ch-2", "ch-10", "ch-1", "cover"]), Sort::Natural);
    assert_eq!(sorted, names(&["ch-1", "ch-2", "ch-10", "cover"]));
}

#[test]
fn empty_and_single_names() {
    let sorted = sort_paths(names(&[]), Sort::Natural);
    assert!(sorted.is_empty());
    let sorted = sort_paths(names(&["only.png"]), Sort::Logical);
    assert_eq!(sorted, names(&["only.png"]));
}
