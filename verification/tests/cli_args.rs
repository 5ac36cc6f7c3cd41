use std::path::Path;

use valv::cli::{
    default_output_dir, mount_file_name, original_file_name, plaintext_name, resolve_output_path,
    should_skip_thumbnail, strip_line_ending, thumbnail_output_path, CliArgs, Command,
    DirectoryPrep, Mode,
};

fn args(command: Option<Command>, files: &[&str]) -> CliArgs {
    CliArgs {
        command,
        files: files.iter().map(|f| f.to_string()).collect(),
        password: None,
        stdin_password: false,
        output: None,
        watch_pid: None,
        foreground: false,
        force: false,
        iterations: None,
        to_stdout: false,
    }
}

fn is_dir(p: &String) -> bool {
    Path::new(p).is_dir()
}

// `valv encrypt -p secret file.txt`
#[test]
fn test_parse_args_encrypt() {
    let mut cli = args(Some(Command::Encrypt { files: vec!["file.txt".to_string()] }), &[]);
    cli.password = Some("secret".to_string());
    let (mode, files) = cli.resolve_mode_and_files(|_| false, is_dir);
    assert_eq!(mode, Mode::Encrypt);
    assert_eq!(cli.password.as_deref(), Some("secret"));
    assert_eq!(files, vec!["file.txt".to_string()]);
}

// `valv -f --stdout -i 10000 sample.valv`
#[test]
fn test_parse_args_options() {
    let mut cli = args(None, &["sample.valv"]);
    cli.force = true;
    cli.to_stdout = true;
    cli.iterations = Some(10000);
    let (mode, files) = cli.resolve_mode_and_files(|p| p.ends_with(".valv"), is_dir);
    assert_eq!(mode, Mode::Decrypt);
    assert!(cli.force);
    assert!(cli.to_stdout);
    assert_eq!(cli.iterations, Some(10000));
    assert_eq!(files, vec!["sample.valv".to_string()]);
}

// `valv open my_vault`
#[test]
fn test_mount_alias_open() {
    let cli = args(Some(Command::Mount { vault_dir: Some("my_vault".to_string()) }), &[]);
    let (mode, files) = cli.resolve_mode_and_files(|_| false, is_dir);
    assert_eq!(mode, Mode::Mount);
    assert_eq!(files, vec!["my_vault".to_string()]);
}

// `valv mounts` and `valv ls`
#[test]
fn test_mounts_command() {
    let cli = args(Some(Command::Mounts), &[]);
    let (mode, _) = cli.resolve_mode_and_files(|_| false, is_dir);
    assert_eq!(mode, Mode::Mounts);

    let cli_ls = args(Some(Command::Mounts), &[]);
    let (mode_ls, _) = cli_ls.resolve_mode_and_files(|_| false, is_dir);
    assert_eq!(mode_ls, Mode::Mounts);
}

// `valv`
#[test]
fn test_parse_args_no_args_mounts_current_dir() {
    let cli = args(None, &[]);
    let (mode, files) = cli.resolve_mode_and_files(|_| false, is_dir);
    assert_eq!(mode, Mode::Mount);
    assert_eq!(files, vec![".".to_string()]);
}

#[test]
fn subcommands_pick_files() {
    let cli = args(Some(Command::Unmount { target: None }), &[]);
    assert_eq!(cli.resolve_mode_and_files(|_| false, is_dir), (Mode::Unmount, vec![".".to_string()]));
    let cli = args(Some(Command::Mount { vault_dir: None }), &["v1", "v2"]);
    assert_eq!(
        cli.resolve_mode_and_files(|_| false, is_dir),
        (Mode::Mount, vec!["v1".to_string(), "v2".to_string()])
    );
    let cli = args(Some(Command::Decrypt { files: vec![] }), &[]);
    assert_eq!(cli.resolve_mode_and_files(|_| true, is_dir), (Mode::Decrypt, vec![]));
    let cli = args(Some(Command::Encrypt { files: vec![] }), &["a", "b"]);
    assert_eq!(
        cli.resolve_mode_and_files(|_| true, is_dir),
        (Mode::Encrypt, vec!["a".to_string(), "b".to_string()])
    );
    let cli = args(
        Some(Command::SyncDaemon { vault_dir: "v".to_string(), mount_dir: "m".to_string() }),
        &[],
    );
    assert_eq!(
        cli.resolve_mode_and_files(|_| false, is_dir),
        (Mode::SyncDaemon, vec!["v".to_string(), "m".to_string()])
    );
}

#[test]
fn no_command_decides_by_files() {
    let cli = args(None, &["a.txt", "b.txt"]);
    assert_eq!(cli.resolve_mode_and_files(|_| false, |_| true).0, Mode::Encrypt);
    let cli = args(None, &["a.txt", "b-i.valv"]);
    assert_eq!(cli.resolve_mode_and_files(|p| p.ends_with(".valv"), |_| true).0, Mode::Decrypt);
    let cli = args(None, &["dir"]);
    assert_eq!(cli.resolve_mode_and_files(|_| true, |_| true).0, Mode::Mount);
    assert_eq!(cli.resolve_mode_and_files(|_| true, |_| false).0, Mode::Decrypt);
}

#[test]
fn test_resolve_output_path_single_file() {
    let path = resolve_output_path(None, "/tmp", "foo.txt", false, false);
    assert_eq!(path.path, "/tmp/foo.txt");
    assert_eq!(path.prep, DirectoryPrep::Nothing);
}

#[test]
fn test_resolve_output_path_custom_dir() {
    let temp_dir = format!("/tmp/valv_out_test_{}", rand::random::<u32>());
    let path = resolve_output_path(Some(&temp_dir), "/tmp", "foo.txt", true, false);
    assert_eq!(path.path, format!("{}/foo.txt", temp_dir));
    assert_eq!(path.prep, DirectoryPrep::Create(temp_dir.clone()));
}

#[test]
fn output_paths() {
    let p = resolve_output_path(Some("out/"), "/src", "a.txt", false, false);
    assert_eq!(p.path, "out/a.txt");
    assert_eq!(p.prep, DirectoryPrep::Create("out/".to_string()));
    let p = resolve_output_path(Some("dir/new.bin"), "/src", "a.txt", false, false);
    assert_eq!(p.path, "dir/new.bin");
    assert_eq!(p.prep, DirectoryPrep::CreateParent("dir".to_string()));
    let p = resolve_output_path(Some("new.bin"), "/src", "a.txt", false, false);
    assert_eq!(p.path, "new.bin");
    assert_eq!(p.prep, DirectoryPrep::Nothing);
    let p = resolve_output_path(Some("existing"), "/src", "a.txt", false, true);
    assert_eq!(p.path, "existing/a.txt");
    assert_eq!(p.prep, DirectoryPrep::Create("existing".to_string()));

    assert_eq!(thumbnail_output_path(Some("dir/new.bin"), false, false, "/src", "t-t.valv"), "dir/t-t.valv");
    assert_eq!(thumbnail_output_path(Some("new.bin"), false, false, "/src", "t-t.valv"), "t-t.valv");
    assert_eq!(thumbnail_output_path(Some("out"), false, true, "/src", "t-t.valv"), "out/t-t.valv");
    assert_eq!(thumbnail_output_path(None, false, false, "/src", "t-t.valv"), "/src/t-t.valv");

    assert_eq!(default_output_dir("/a/b.txt"), "/a");
    assert_eq!(default_output_dir("b.txt"), "");
    assert_eq!(default_output_dir("/"), ".");
    assert_eq!(original_file_name("/a/b.txt"), "b.txt");
    assert_eq!(original_file_name("/"), "file");
    assert_eq!(plaintext_name(""), "decrypted_file");
    assert_eq!(plaintext_name("x.jpg"), "x.jpg");
    assert_eq!(plaintext_name("sub/x.jpg"), "sub/x.jpg");
    assert_eq!(mount_file_name(""), "decrypted_file");
}

#[test]
fn mount_file_names_stay_in_the_mount() {
    assert_eq!(mount_file_name("../../etc/passwd"), "passwd");
    assert_eq!(mount_file_name("/abs/path.txt"), "path.txt");
    assert_eq!(mount_file_name("a/.."), "decrypted_file");
    assert_eq!(mount_file_name(".."), "decrypted_file");
    assert_eq!(mount_file_name("."), "decrypted_file");
    assert_eq!(mount_file_name("dir/"), "decrypted_file");
    assert_eq!(mount_file_name("..."), "...");
    assert_eq!(mount_file_name(".hidden"), ".hidden");
    assert_eq!(mount_file_name("n\u{e4}me.jpg"), "n\u{e4}me.jpg");
}

#[test]
fn thumbnail_skipping() {
    let files = vec!["v/abc-i.valv".to_string(), "v/abc-t.valv".to_string()];
    assert!(should_skip_thumbnail(&files, "v/abc-t.valv"));
    assert!(!should_skip_thumbnail(&files, "v/abc-i.valv"));
    let alone = vec!["v/abc-t.valv".to_string()];
    assert!(!should_skip_thumbnail(&alone, "v/abc-t.valv"));
    let others = vec!["v/xyz-i.valv".to_string(), "v/abc-t.valv".to_string()];
    assert!(!should_skip_thumbnail(&others, "v/abc-t.valv"));
}

#[test]
fn line_endings() {
    assert_eq!(strip_line_ending("secret\n"), "secret");
    assert_eq!(strip_line_ending("secret\r\n"), "secret");
    assert_eq!(strip_line_ending("secret\n\r\n"), "secret");
    assert_eq!(strip_line_ending("se\ncret"), "se\ncret");
    assert_eq!(strip_line_ending("\n\n"), "");
    assert_eq!(strip_line_ending(" pw "), " pw ");
}
