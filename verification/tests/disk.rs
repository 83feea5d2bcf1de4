use cedar_folder_size_analyzer::disk::{
    disk_info_among, get_disk_info, get_disk_size, owner, report, resolve, DiskKind, Volume,
};

fn volume(mount_point: &str, total_space: u64, kind: DiskKind, label: &str) -> Volume {
    Volume { mount_point: Some(mount_point.to_string()), total_space, kind, kind_label: label.to_string() }
}

fn volumes() -> Vec<Volume> {
    vec![
        volume("/", 1_000, DiskKind::Hdd, "HDD"),
        volume("/mnt/data", 2_000, DiskKind::Ssd, "SSD"),
        volume("/mnt", 3_000, DiskKind::Unknown(-1), "Unknown(-1)"),
        volume("/mnt/data", 4_000, DiskKind::Hdd, "HDD"),
    ]
}

#[test]
fn the_longest_mount_point_owns_the_path() {
    let all = volumes();
    assert_eq!(owner(&all, &vec![true, true, true, false]), Some(1));
    assert_eq!(owner(&all, &vec![true, false, true, false]), Some(2));
    assert_eq!(owner(&all, &vec![true, false, false, false]), Some(0));
}

#[test]
fn of_equal_mount_points_the_first_owns_the_path() {
    let all = volumes();
    assert_eq!(owner(&all, &vec![true, true, true, true]), Some(1));
    assert_eq!(owner(&all, &vec![true, false, true, true]), Some(3));
}

#[test]
fn no_volume_owns_a_path_that_lies_under_none() {
    let all = volumes();
    assert_eq!(owner(&all, &vec![false, false, false, false]), None);
    assert_eq!(owner(&all, &Vec::new()), None);
    assert_eq!(owner(&Vec::new(), &vec![true]), None);
}

#[test]
fn an_empty_mount_point_owns_nothing() {
    let all = vec![volume("", 9, DiskKind::Ssd, "SSD")];
    assert_eq!(owner(&all, &vec![true]), None);
    let info = resolve(&all, &vec![true]);
    assert_eq!((info.total_space, info.kind_label.as_str(), info.prefer_parallel), (0, "Unknown", false));
}

#[test]
fn a_mount_point_that_is_no_text_owns_nothing() {
    let all = vec![
        Volume { mount_point: None, total_space: 9, kind: DiskKind::Ssd, kind_label: "SSD".to_string() },
        volume("/", 1_000, DiskKind::Hdd, "HDD"),
    ];
    assert_eq!(owner(&all, &vec![true, true]), Some(1));
    assert_eq!(owner(&all, &vec![true, false]), None);
    let info = disk_info_among("/home", &all);
    assert_eq!(info.total_space, 1_000);
    let alone = disk_info_among("/home", &vec![Volume {
        mount_point: None,
        total_space: 9,
        kind: DiskKind::Ssd,
        kind_label: "SSD".to_string(),
    }]);
    assert_eq!((alone.total_space, alone.kind_label.as_str(), alone.prefer_parallel), (0, "Unknown", false));
}

#[test]
fn answers_beyond_the_volumes_are_ignored() {
    let all = volumes();
    assert_eq!(owner(&all, &vec![false, false, true, false, true, true]), Some(2));
    assert_eq!(owner(&all, &vec![true]), Some(0));
}

#[test]
fn report_tells_capacity_kind_and_mode() {
    let all = volumes();
    let ssd = report(&all, Some(1));
    assert_eq!((ssd.total_space, ssd.kind_label.as_str(), ssd.prefer_parallel), (2_000, "SSD", true));
    let hdd = report(&all, Some(0));
    assert_eq!((hdd.total_space, hdd.kind_label.as_str(), hdd.prefer_parallel), (1_000, "HDD", false));
    let odd = report(&all, Some(2));
    assert_eq!((odd.total_space, odd.kind_label.as_str(), odd.prefer_parallel), (3_000, "Unknown(-1)", false));
    let none = report(&all, None);
    assert_eq!((none.total_space, none.kind_label.as_str(), none.prefer_parallel), (0, "Unknown", false));
    let beyond = report(&all, Some(4));
    assert_eq!((beyond.total_space, beyond.kind_label.as_str(), beyond.prefer_parallel), (0, "Unknown", false));
}

#[test]
fn a_path_is_matched_by_whole_components() {
    let all = vec![
        volume("/", 1_000, DiskKind::Hdd, "HDD"),
        volume("/mnt/data", 2_000, DiskKind::Ssd, "SSD"),
    ];
    let inside = disk_info_among("/mnt/data/photos", &all);
    assert_eq!(inside.total_space, 2_000);
    assert!(inside.prefer_parallel);
    let exact = disk_info_among("/mnt/data", &all);
    assert_eq!(exact.total_space, 2_000);
    let beside = disk_info_among("/mnt/data2/photos", &all);
    assert_eq!(beside.total_space, 1_000);
    assert!(!beside.prefer_parallel);
    assert_eq!(beside.kind_label, "HDD");
}

#[test]
fn a_path_under_no_volume_is_unknown() {
    let all = vec![volume("/mnt/data", 2_000, DiskKind::Ssd, "SSD")];
    let info = disk_info_among("/home/user", &all);
    assert_eq!((info.total_space, info.kind_label.as_str(), info.prefer_parallel), (0, "Unknown", false));
    let none = disk_info_among("/home/user", &Vec::new());
    assert_eq!(none.total_space, 0);
    let relative = disk_info_among("relative/path", &all);
    assert_eq!(relative.kind_label, "Unknown");
}

#[test]
fn the_mounted_volumes_can_be_asked() {
    for path in ["/", "/tmp", "/proc", "/home", "/usr/lib", "no/such/relative/path"] {
        let info = get_disk_info(path);
        assert_eq!(info.prefer_parallel, info.kind_label == "SSD", "{}", path);
        if info.kind_label == "Unknown" {
            assert_eq!(info.total_space, 0, "{}", path);
            assert!(!info.prefer_parallel, "{}", path);
        } else {
            let named = info.kind_label == "HDD"
                || info.kind_label == "SSD"
                || (info.kind_label.starts_with("Unknown(") && info.kind_label.ends_with(')'));
            assert!(named, "{}: {}", path, info.kind_label);
        }
        assert_eq!(get_disk_size(path), info.total_space, "{}", path);
    }
    let nowhere = get_disk_info("no/such/relative/path");
    assert_eq!((nowhere.total_space, nowhere.kind_label.as_str(), nowhere.prefer_parallel), (0, "Unknown", false));
    assert_eq!(get_disk_size("no/such/relative/path"), 0);
}

#[test]
fn kinds_are_written_by_the_names_of_their_variants() {
    assert_eq!(format!("{:?}", sysinfo::DiskKind::HDD), "HDD");
    assert_eq!(format!("{:?}", sysinfo::DiskKind::SSD), "SSD");
    assert_eq!(format!("{:?}", sysinfo::DiskKind::Unknown(-1)), "Unknown(-1)");
    assert_eq!(format!("{:?}", sysinfo::DiskKind::Unknown(0)), "Unknown(0)");
    assert_eq!(format!("{:?}", sysinfo::DiskKind::Unknown(42)), "Unknown(42)");
    assert_eq!(
        format!("{:?}", sysinfo::DiskKind::Unknown(isize::MIN)),
        format!("Unknown(-{})", (isize::MAX as u64) + 1)
    );
}
