use kestrel::ui::locations::location_order;

#[test]
fn locations_sorted_by_name() {
    let names = vec!["Toulon, FR", "Hobart, AU", "San Francisco, US", "Zürich, CH", "Amsterdam, NL"];
    assert_eq!(location_order(&names), vec![4, 1, 2, 0, 3]);
}

#[test]
fn equal_names_keep_their_order() {
    let names = vec!["b", "a", "b", "a", ""];
    assert_eq!(location_order(&names), vec![4, 1, 3, 0, 2]);
}

#[test]
fn matches_the_standard_sort() {
    let names = vec![
        "Αθήνα, GR",
        "Bogotá, CO",
        "Zürich, CH",
        "København, DK",
        "Belgrade/Београд, RS",
        "Berlin, DE",
        "Kathmandu , NP",
        "Kathmandu, NP",
        "Hanoi/Hà Nội, VN",
    ];
    let mut expected: Vec<usize> = (0..names.len()).collect();
    expected.sort_by_key(|&i| names[i]);
    assert_eq!(location_order(&names), expected);
}
