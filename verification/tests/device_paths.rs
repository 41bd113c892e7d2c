use espuino_sync::device::{
    needs_mkdir, normalize_base_dir, preflight_target, remote_playlist_path, split_path,
    RemoteDirectoryEntry,
};

#[test]
fn upload_path_decomposition() {
    let (parent, name) = split_path(&b"/podcasts/show.m3u".to_vec());
    assert_eq!(parent, b"/podcasts".to_vec());
    assert_eq!(name, b"show.m3u".to_vec());
}

#[test]
fn file_directly_under_root() {
    let (parent, name) = split_path(&b"/show.m3u".to_vec());
    assert_eq!(parent, b"/".to_vec());
    assert_eq!(name, b"show.m3u".to_vec());
}

#[test]
fn path_without_slash_has_empty_parent() {
    let (parent, name) = split_path(&b"show.m3u".to_vec());
    assert_eq!(parent, b"".to_vec());
    assert_eq!(name, b"show.m3u".to_vec());
}

#[test]
fn base_dir_gets_trailing_separator() {
    assert_eq!(normalize_base_dir(&b"/podcasts".to_vec()), b"/podcasts/".to_vec());
    assert_eq!(normalize_base_dir(&b"/podcasts/".to_vec()), b"/podcasts/".to_vec());
    assert_eq!(normalize_base_dir(&b"".to_vec()), b"/".to_vec());
}

#[test]
fn preflight_checks_parent_for_basename() {
    let (parent, basename) = preflight_target(&b"/podcasts/".to_vec());
    assert_eq!(parent, b"/".to_vec());
    assert_eq!(basename, b"podcasts".to_vec());
}

#[test]
fn preflight_on_nested_base_dir() {
    let (parent, basename) = preflight_target(&b"/sd/audio/podcasts/".to_vec());
    assert_eq!(parent, b"/sd/audio".to_vec());
    assert_eq!(basename, b"podcasts".to_vec());
}

#[test]
fn remote_path_is_base_plus_name_plus_extension() {
    let path = remote_playlist_path(&b"/podcasts/".to_vec(), &b"showA".to_vec());
    assert_eq!(path, b"/podcasts/showA.m3u".to_vec());
}

#[test]
fn mkdir_skipped_when_directory_listed() {
    let listing = vec![
        RemoteDirectoryEntry { name: b"music".to_vec(), dir: Some(true) },
        RemoteDirectoryEntry { name: b"podcasts".to_vec(), dir: Some(true) },
    ];
    assert!(!needs_mkdir(&listing, &b"podcasts".to_vec()));
}

#[test]
fn mkdir_needed_when_name_absent() {
    let listing = vec![RemoteDirectoryEntry { name: b"music".to_vec(), dir: Some(true) }];
    assert!(needs_mkdir(&listing, &b"podcasts".to_vec()));
}

#[test]
fn mkdir_needed_when_entry_is_a_file() {
    let listing = vec![RemoteDirectoryEntry { name: b"podcasts".to_vec(), dir: Some(false) }];
    assert!(needs_mkdir(&listing, &b"podcasts".to_vec()));
}

#[test]
fn mkdir_needed_when_dir_flag_missing() {
    let listing = vec![RemoteDirectoryEntry { name: b"podcasts".to_vec(), dir: None }];
    assert!(needs_mkdir(&listing, &b"podcasts".to_vec()));
}

#[test]
fn mkdir_needed_on_empty_listing() {
    let listing: Vec<RemoteDirectoryEntry> = vec![];
    assert!(needs_mkdir(&listing, &b"podcasts".to_vec()));
}
