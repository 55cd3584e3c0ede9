use cargo_cache::{reg_src_list_to_string, stats_from_file_desc_list, FileDesc, RgSrcInfo};

#[test]
fn stats_from_file_desc_none() {
    let list: Vec<FileDesc> = Vec::new();
    let stats = stats_from_file_desc_list(list);
    let is = reg_src_list_to_string(4, stats);
    let empty = String::new();
    assert_eq!(is, empty);
}

#[test]
fn stats_from_file_desc_one() {
    let list_fd: Vec<FileDesc> = vec![
        FileDesc { path: "crateA".to_string(), name: "crateA".to_string(), size: 1 }
    ];
    let list_cb: Vec<RgSrcInfo> = stats_from_file_desc_list(list_fd);
    let is: String = reg_src_list_to_string(1, list_cb);
    let wanted: String = String::new() +
        "Name   Count Average Total\ncrateA 1     1 B     1 B\n";
    assert_eq!(is, wanted);
}

#[test]
fn stats_from_file_desc_two() {
    let list_fd: Vec<FileDesc> = vec![
        FileDesc { path: "crate-A".to_string(), name: "crate-A".to_string(), size: 1 },
        FileDesc { path: "crate-B".to_string(), name: "crate-B".to_string(), size: 2 }
    ];
    let list_cb: Vec<RgSrcInfo> = stats_from_file_desc_list(list_fd);
    let is: String = reg_src_list_to_string(3, list_cb);
    let wanted: String = String::new() +
        "Name    Count Average Total\n" +
        "crate-B 1     2 B     2 B\n" +
        "crate-A 1     1 B     1 B\n";
    assert_eq!(is, wanted);
}

#[test]
fn stats_from_file_desc_multiple() {
    let list_fd: Vec<FileDesc> = vec![
        FileDesc { path: "crate-A".to_string(), name: "crate-A".to_string(), size: 1 },
        FileDesc { path: "crate-B".to_string(), name: "crate-B".to_string(), size: 2 },
        FileDesc { path: "crate-C".to_string(), name: "crate-C".to_string(), size: 10 },
        FileDesc { path: "crate-D".to_string(), name: "crate-D".to_string(), size: 6 },
        FileDesc { path: "crate-E".to_string(), name: "crate-E".to_string(), size: 4 }
    ];
    let list_cb: Vec<RgSrcInfo> = stats_from_file_desc_list(list_fd);
    let is: String = reg_src_list_to_string(6, list_cb);
    let wanted: String = String::new() +
        "Name    Count Average Total\n" +
        "crate-C 1     10 B    10 B\n" +
        "crate-D 1     6 B     6 B\n" +
        "crate-E 1     4 B     4 B\n" +
        "crate-B 1     2 B     2 B\n" +
        "crate-A 1     1 B     1 B\n";
    assert_eq!(is, wanted);
}

#[test]
fn stats_from_file_desc_same_name_2_one() {
    let list_fd: Vec<FileDesc> = vec![
        FileDesc { path: "crate-A".to_string(), name: "crate-A".to_string(), size: 3 },
        FileDesc { path: "crate-A".to_string(), name: "crate-A".to_string(), size: 3 }
    ];
    let list_cb: Vec<RgSrcInfo> = stats_from_file_desc_list(list_fd);
    let is: String = reg_src_list_to_string(2, list_cb);
    let wanted: String = String::new() +
        "Name    Count Average Total\ncrate-A 2     3 B     6 B\n";
    assert_eq!(is, wanted);
}

#[test]
fn stats_from_file_desc_same_name_3_one() {
    let list_fd: Vec<FileDesc> = vec![
        FileDesc { path: "crate-A".to_string(), name: "crate-A".to_string(), size: 3 },
        FileDesc { path: "crate-A".to_string(), name: "crate-A".to_string(), size: 3 },
        FileDesc { path: "crate-A".to_string(), name: "crate-A".to_string(), size: 3 }
    ];
    let list_cb: Vec<RgSrcInfo> = stats_from_file_desc_list(list_fd);
    let is: String = reg_src_list_to_string(3, list_cb);
    let wanted: String = String::new() +
        "Name    Count Average Total\ncrate-A 3     3 B     9 B\n";
    assert_eq!(is, wanted);
}

#[test]
fn stats_from_file_desc_same_name_3_one_2() {
    let list_fd: Vec<FileDesc> = vec![
        FileDesc { path: "crate-A".to_string(), name: "crate-A".to_string(), size: 2 },
        FileDesc { path: "crate-A".to_string(), name: "crate-A".to_string(), size: 4 },
        FileDesc { path: "crate-A".to_string(), name: "crate-A".to_string(), size: 12 }
    ];
    let list_cb: Vec<RgSrcInfo> = stats_from_file_desc_list(list_fd);
    let is: String = reg_src_list_to_string(3, list_cb);
    let wanted: String = String::new() +
        "Name    Count Average Total\ncrate-A 3     6 B     18 B\n";
    assert_eq!(is, wanted);
}

#[test]
fn stats_from_file_desc_multi() {
    let list_fd: Vec<FileDesc> = vec![
        FileDesc { path: "crate-A".to_string(), name: "crate-A".to_string(), size: 2 },
        FileDesc { path: "crate-A".to_string(), name: "crate-A".to_string(), size: 4 },
        FileDesc { path: "crate-A".to_string(), name: "crate-A".to_string(), size: 12 },
        FileDesc { path: "crate-B".to_string(), name: "crate-B".to_string(), size: 2 },
        FileDesc { path: "crate-B".to_string(), name: "crate-B".to_string(), size: 8 },
        FileDesc { path: "crate-C".to_string(), name: "crate-C".to_string(), size: 0 },
        FileDesc { path: "crate-C".to_string(), name: "crate-C".to_string(), size: 100 },
        FileDesc { path: "crate-D".to_string(), name: "crate-D".to_string(), size: 1 }
    ];
    let list_cb: Vec<RgSrcInfo> = stats_from_file_desc_list(list_fd);
    let is: String = reg_src_list_to_string(5, list_cb);
    let wanted: String = String::new() +
        "Name    Count Average Total\n" +
        "crate-C 2     50 B    100 B\n" +
        "crate-A 3     6 B     18 B\n" +
        "crate-B 2     5 B     10 B\n" +
        "crate-D 1     1 B     1 B\n";
    assert_eq!(is, wanted);
}
