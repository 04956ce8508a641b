use geode_installer::disk::{probe, Disk, Lookup, Query};

#[test]
fn nothing_is_known_of_a_new_disk() {
    let disk = Disk::new();
    assert_eq!(disk.present("/a"), None);
    assert_eq!(disk.read("/a"), None);
    assert_eq!(probe(&disk, "/a"), Lookup::Needs(Query::Exists("/a".to_string())));
}

#[test]
fn observations_are_kept_by_path() {
    let mut disk = Disk::new();
    disk.record_existence("/a".to_string(), true);
    disk.record_existence("/b".to_string(), false);
    disk.record_content("/a".to_string(), Ok("text".to_string()));
    disk.record_content("/c".to_string(), Err("Is a directory".to_string()));
    assert_eq!(disk.present("/a"), Some(true));
    assert_eq!(disk.present("/b"), Some(false));
    assert_eq!(disk.present("/c"), None);
    assert_eq!(disk.read("/a"), Some(&Ok("text".to_string())));
    assert_eq!(disk.read("/c"), Some(&Err("Is a directory".to_string())));
    assert_eq!(disk.read("/b"), None);
    assert_eq!(probe(&disk, "/a"), Lookup::Done(true));
    assert_eq!(probe(&disk, "/b"), Lookup::Done(false));
}

#[test]
fn the_later_observation_counts() {
    let mut disk = Disk::new();
    disk.record_existence("/a".to_string(), true);
    disk.record_existence("/b".to_string(), true);
    disk.record_existence("/a".to_string(), false);
    disk.record_content("/a".to_string(), Err("old".to_string()));
    disk.record_content("/a".to_string(), Ok("new".to_string()));
    assert_eq!(disk.present("/a"), Some(false));
    assert_eq!(disk.present("/b"), Some(true));
    assert_eq!(disk.read("/a"), Some(&Ok("new".to_string())));
}
