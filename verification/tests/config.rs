use upstream_seed::config::store_dir;

#[test]
fn store_dir_under_explicit_root() {
    let d = store_dir("profile-1", Some("/home/user/.rad"), "/home/user/.local/share");
    assert_eq!(d, "/home/user/.rad/profile-1/store");
}

#[test]
fn store_dir_falls_back_to_data_dir() {
    let d = store_dir("profile-1", None, "/home/user/.local/share");
    assert_eq!(d, "/home/user/.local/share/profile-1/store");
}
