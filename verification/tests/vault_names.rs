use valv::vault::{
    generate_random_filename, get_mount_dir, get_suffix_for_path, get_thumbnail_valv_name,
    has_v1_name, is_media_file, is_mount_source, is_thumbnail_valv_file, is_tracked_name,
    is_valv_file, name_from_draws, temp_valv_name, NAME_CHARSET, NAME_CHARSET_LEN, RANDOM_NAME_LEN,
};

#[test]
fn test_filename_suffixes() {
    assert_eq!(get_suffix_for_path("test.jpg"), "-i.valv");
    assert_eq!(get_suffix_for_path("anim.gif"), "-g.valv");
    assert_eq!(get_suffix_for_path("video.mp4"), "-v.valv");
    assert_eq!(get_suffix_for_path("doc.txt"), "-x.valv");
    assert_eq!(get_suffix_for_path("unknown.xyz"), "-i.valv");
}

#[test]
fn test_thumbnail_suffix_detection() {
    assert!(is_thumbnail_valv_file("abc123xyz-t.valv"));
    assert!(!is_thumbnail_valv_file("abc123xyz-i.valv"));
    assert!(!is_thumbnail_valv_file("abc123xyz-v.valv"));
}

#[test]
fn test_get_thumbnail_valv_name() {
    assert_eq!(
        get_thumbnail_valv_name("12345678901234567890123456789012-i.valv"),
        Some("12345678901234567890123456789012-t.valv".to_string())
    );
    assert_eq!(
        get_thumbnail_valv_name("12345678901234567890123456789012-v.valv"),
        Some("12345678901234567890123456789012-t.valv".to_string())
    );
    assert_eq!(
        get_thumbnail_valv_name("12345678901234567890123456789012-g.valv"),
        Some("12345678901234567890123456789012-t.valv".to_string())
    );
    assert_eq!(
        get_thumbnail_valv_name("12345678901234567890123456789012-x.valv"),
        None
    );
}

#[test]
fn suffix_ignores_extension_case_and_directories() {
    assert_eq!(get_suffix_for_path("/photos/IMG_0001.JPG"), "-i.valv");
    assert_eq!(get_suffix_for_path("Clip.MoV"), "-v.valv");
    assert_eq!(get_suffix_for_path("notes.Md"), "-x.valv");
    assert_eq!(get_suffix_for_path("README"), "-i.valv");
    assert_eq!(get_suffix_for_path(".hidden"), "-i.valv");
    assert_eq!(get_suffix_for_path("archive.tar.GIF"), "-g.valv");
}

#[test]
fn valv_file_names() {
    assert!(is_valv_file("dir/abc-i.valv"));
    assert!(is_valv_file(".valv.1234"));
    assert!(is_valv_file("/vault/.valv.x"));
    assert!(!is_valv_file("photo.jpg"));
    assert!(is_valv_file("abc.valv/") == is_valv_file("abc.valv"));
    assert!(!is_valv_file("valv"));
    assert!(!is_valv_file(""));
    assert!(!is_valv_file("/"));
}

#[test]
fn mount_sources_exclude_thumbnails() {
    assert!(is_mount_source("v/abc-i.valv"));
    assert!(is_mount_source("v/.valv.abc"));
    assert!(!is_mount_source("v/abc-t.valv"));
    assert!(!is_mount_source("v/notes.txt"));
}

#[test]
fn thumbnail_names_are_thumbnails() {
    let t = get_thumbnail_valv_name("abc-i.valv").unwrap();
    assert!(is_valv_file(&t));
    assert!(is_thumbnail_valv_file(&t));
    assert!(!is_mount_source(&t));
    assert_eq!(get_thumbnail_valv_name("abc-t.valv"), None);
    assert_eq!(get_thumbnail_valv_name("-i.valv"), Some("-t.valv".to_string()));
    assert_eq!(get_thumbnail_valv_name("i.valv"), None);
    for name in ["dir/abc-g.valv", "/v/x-v.valv", "a/-i.valv", "../-i.valv"] {
        let t = get_thumbnail_valv_name(name).unwrap();
        assert!(is_thumbnail_valv_file(&t));
        assert!(is_valv_file(&t));
    }
}

#[test]
fn path_names_and_joins() {
    assert_eq!(get_mount_dir("/srv/vault/", 1, None, "/tmp/"), "/tmp/vault-1");
    assert_eq!(get_mount_dir("/srv/vault/.", 2, None, ""), "vault-2");
    assert_eq!(get_mount_dir("/srv/..", 3, None, "/tmp"), "/tmp/vault-3");
    assert_eq!(get_mount_dir(".", 4, None, "/tmp"), "/tmp/vault-4");
    assert!(is_valv_file("dir/abc-i.valv/"));
    assert!(!is_valv_file("abc-i.valv/.."));
    assert_eq!(get_suffix_for_path(".gif"), "-i.valv");
    assert_eq!(get_suffix_for_path("a.b.GIF"), "-g.valv");
    assert_eq!(get_suffix_for_path("dir.gif/file"), "-i.valv");
}

#[test]
fn v1_name_hint() {
    assert!(has_v1_name("/vault/.valv.abcdef"));
    assert!(!has_v1_name("/vault/abc-i.valv"));
    assert!(!has_v1_name("/vault/x.valv.abc"));
    assert!(!has_v1_name(".."));
}

#[test]
fn media_files() {
    assert!(is_media_file("a.PNG"));
    assert!(is_media_file("a.webm"));
    assert!(is_media_file("a.gif"));
    assert!(!is_media_file("a.txt"));
    assert!(!is_media_file("a"));
}

#[test]
fn random_filenames() {
    for suffix in ["-i.valv", "-x.valv", ""] {
        let name = generate_random_filename(suffix);
        let chars: Vec<char> = name.chars().collect();
        assert_eq!(chars.len(), RANDOM_NAME_LEN + suffix.chars().count());
        assert!(name.ends_with(suffix));
        for c in &chars[..RANDOM_NAME_LEN] {
            assert!(NAME_CHARSET.contains(*c));
        }
    }
    let name = generate_random_filename(get_suffix_for_path("song.mp4"));
    assert!(is_valv_file(&name));
    assert!(!is_thumbnail_valv_file(&name));
    assert_ne!(generate_random_filename("-i.valv"), generate_random_filename("-i.valv"));
}

#[test]
fn mount_directories() {
    assert_eq!(get_mount_dir("/home/u/Vault", 4321, None, "/dev/shm/valv-1000"), "/dev/shm/valv-1000/Vault-4321");
    assert_eq!(get_mount_dir("/", 7, None, "/tmp/valv-0"), "/tmp/valv-0/vault-7");
    assert_eq!(get_mount_dir("a/b", 0, None, "base"), "base/b-0");
    assert_eq!(get_mount_dir("a/b", 4294967295, None, "base"), "base/b-4294967295");
    assert_eq!(get_mount_dir("a/b", 10, Some("/mnt/here"), "base"), "/mnt/here");
}

#[test]
fn temp_names_and_tracked_names() {
    assert_eq!(temp_valv_name("abc-i.valv"), ".abc-i.valv.tmp");
    assert!(is_tracked_name("photo.jpg"));
    assert!(!is_tracked_name(".valv_session.json"));
    assert!(!is_tracked_name(".valv_close"));
    assert!(!is_tracked_name(&temp_valv_name("abc-i.valv")));
}

#[test]
fn names_spelled_by_draws() {
    let zeros = vec![0usize; RANDOM_NAME_LEN];
    assert_eq!(name_from_draws(&zeros, "-i.valv"), format!("{}-i.valv", "a".repeat(32)));
    let draws: Vec<usize> = (0..RANDOM_NAME_LEN).map(|i| (i * 5) % NAME_CHARSET_LEN).collect();
    let name = name_from_draws(&draws, "-x.valv");
    let expected: String = draws.iter().map(|&d| NAME_CHARSET.chars().nth(d).unwrap()).collect();
    assert_eq!(name, format!("{}-x.valv", expected));
    assert!(name.starts_with("afkpuzEJOTY3"));
    let last = vec![NAME_CHARSET_LEN - 1; RANDOM_NAME_LEN];
    assert_eq!(name_from_draws(&last, ""), "9".repeat(32));
    assert_eq!(NAME_CHARSET.chars().count(), NAME_CHARSET_LEN);
}
