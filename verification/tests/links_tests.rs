use infrabase::links::{LinkMap, NetworkLink};

fn link(name: &str, other: &str, priority: i32) -> NetworkLink {
    NetworkLink {
        name: name.to_string(),
        other_network: other.to_string(),
        priority,
    }
}

#[test]
fn test_best_link_prefers_low_priority() {
    let map = LinkMap::new(vec![link("A", "B", 5), link("A", "C", 1)]);
    let got = map.best_link(
        &vec!["A".to_string()],
        &vec!["B".to_string(), "C".to_string()],
    );
    assert_eq!(got, Some(("A".to_string(), "C".to_string(), 1)));
}

#[test]
fn test_best_link_none_when_unlinked() {
    let map = LinkMap::new(vec![link("A", "B", 5)]);
    let got = map.best_link(&vec!["X".to_string()], &vec!["Y".to_string()]);
    assert_eq!(got, None);
}

#[test]
fn test_best_link_tie_takes_earliest_pair() {
    let map = LinkMap::new(vec![link("A", "B", 3), link("A", "C", 3)]);
    let got = map.best_link(
        &vec!["A".to_string()],
        &vec!["C".to_string(), "B".to_string()],
    );
    assert_eq!(got, Some(("A".to_string(), "C".to_string(), 3)));
}

#[test]
fn test_links_are_directed() {
    let map = LinkMap::new(vec![link("A", "B", 1)]);
    assert_eq!(map.lookup(&"A".to_string(), &"B".to_string()), Some(1));
    assert_eq!(map.lookup(&"B".to_string(), &"A".to_string()), None);
}

#[test]
fn test_lookup_later_row_overrides() {
    let map = LinkMap::new(vec![link("A", "B", 1), link("A", "B", 9)]);
    assert_eq!(map.lookup(&"A".to_string(), &"B".to_string()), Some(9));
}

#[test]
fn test_best_link_tie_takes_earliest_source_row() {
    let map = LinkMap::new(vec![link("A", "X", 2), link("B", "Y", 2)]);
    let got = map.best_link(
        &vec!["B".to_string(), "A".to_string()],
        &vec!["X".to_string(), "Y".to_string()],
    );
    assert_eq!(got, Some(("B".to_string(), "Y".to_string(), 2)));
}
