use wpdm::monitors::{monitor_size, partition_by_size, MonitorMeta};

fn meta(name: &str, w: i32, h: i32) -> MonitorMeta {
    MonitorMeta { name: name.to_string(), width: w, height: h }
}

fn names(list: &[&str]) -> Vec<String> {
    list.iter().map(|s| s.to_string()).collect()
}

#[test]
fn groups_follow_first_appearance_and_drop_unknown_names() {
    let metas = vec![meta("A", 10, 10), meta("B", 20, 20), meta("C", 10, 10)];
    let groups = partition_by_size(&names(&["A", "B", "C", "A", "X"]), &metas);
    assert_eq!(groups.len(), 2);
    assert_eq!((groups[0].width, groups[0].height), (10, 10));
    assert_eq!(groups[0].monitors, names(&["A", "C"]));
    assert_eq!((groups[1].width, groups[1].height), (20, 20));
    assert_eq!(groups[1].monitors, names(&["B"]));
}

#[test]
fn no_names_no_groups() {
    let metas = vec![meta("A", 10, 10)];
    assert!(partition_by_size(&Vec::new(), &metas).is_empty());
    assert!(partition_by_size(&names(&["A"]), &Vec::new()).is_empty());
}

#[test]
fn size_lookup_takes_the_first_match() {
    let metas = vec![meta("A", 1, 2), meta("A", 3, 4)];
    assert_eq!(monitor_size(&metas, &"A".to_string()), Some((1, 2)));
    assert_eq!(monitor_size(&metas, &"B".to_string()), None);
}
