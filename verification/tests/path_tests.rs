use ext4_rs::fs::Ext4;

fn names(v: &[&str]) -> Vec<Vec<u8>> {
    v.iter().map(|s| s.as_bytes().to_vec()).collect()
}

#[test]
fn split_simple_paths() {
    assert_eq!(Ext4::split_path("a/b/c"), names(&["a", "b", "c"]));
    assert_eq!(Ext4::split_path("/a/b"), names(&["a", "b"]));
    assert_eq!(Ext4::split_path("file"), names(&["file"]));
}

#[test]
fn split_drops_all_leading_slashes() {
    assert_eq!(Ext4::split_path("///x/y"), names(&["x", "y"]));
}

#[test]
fn split_empty_and_root_paths() {
    assert_eq!(Ext4::split_path(""), Vec::<Vec<u8>>::new());
    assert_eq!(Ext4::split_path("/"), Vec::<Vec<u8>>::new());
    assert_eq!(Ext4::split_path("////"), Vec::<Vec<u8>>::new());
}

#[test]
fn split_keeps_empty_inner_and_trailing_components() {
    assert_eq!(Ext4::split_path("a//b"), names(&["a", "", "b"]));
    assert_eq!(Ext4::split_path("a/b/"), names(&["a", "b", ""]));
}

#[test]
fn split_non_ascii_names() {
    assert_eq!(Ext4::split_path("目录/文件"), names(&["目录", "文件"]));
}

#[test]
fn split_then_join_gives_trimmed_path() {
    for p in ["a/b/c", "//a//b/", "x", "a/./..", "/"] {
        let parts = Ext4::split_path(p);
        let joined: Vec<u8> = parts.join(&b'/');
        assert_eq!(joined, p.trim_start_matches('/').as_bytes().to_vec());
        for part in &parts {
            assert!(!part.contains(&b'/'));
        }
    }
}
