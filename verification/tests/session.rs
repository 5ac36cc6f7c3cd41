use valv::crypto::DecryptError;
use valv::vault::{
    mount_step, ActiveMount, MountStep, SessionFileEntry, SessionFiles, SyncAction, ValvSession,
};

fn entry(name: &str, mtime: u64, size: u64) -> SessionFileEntry {
    SessionFileEntry { valv_name: name.to_string(), mtime_secs: mtime, size }
}

#[test]
fn session_insert_get_remove() {
    let mut files = SessionFiles::new();
    assert_eq!(files.len(), 0);
    assert!(files.get("a.txt").is_none());
    files.insert("a.txt".to_string(), entry("x-x.valv", 10, 5));
    files.insert("b.jpg".to_string(), entry("y-i.valv", 11, 6));
    assert_eq!(files.len(), 2);
    assert_eq!(files.get("a.txt").unwrap().valv_name, "x-x.valv");
    files.insert("a.txt".to_string(), entry("x-x.valv", 12, 7));
    assert_eq!(files.len(), 2);
    assert_eq!(files.get("a.txt").unwrap().mtime_secs, 12);
    let removed = files.remove("a.txt").unwrap();
    assert_eq!(removed.size, 7);
    assert!(files.remove("a.txt").is_none());
    assert_eq!(files.len(), 1);
    assert_eq!(files.name_at(0), "b.jpg");
    assert_eq!(files.entry_at(0).valv_name, "y-i.valv");
}

#[test]
fn sync_plans() {
    let mut files = SessionFiles::new();
    assert_eq!(files.plan_sync("new.txt", 1, 1), SyncAction::Create);
    files.insert("new.txt".to_string(), entry("abc-x.valv", 100, 20));
    assert_eq!(files.plan_sync("new.txt", 100, 20), SyncAction::Unchanged);
    assert_eq!(files.plan_sync("new.txt", 101, 20), SyncAction::Update("abc-x.valv".to_string()));
    assert_eq!(files.plan_sync("new.txt", 100, 21), SyncAction::Update("abc-x.valv".to_string()));
    files.remove("new.txt");
    assert_eq!(files.plan_sync("new.txt", 100, 20), SyncAction::Create);
}

#[test]
fn active_mount_from_session() {
    let mut session = ValvSession::default();
    assert_eq!(session.files.len(), 0);
    assert_eq!(session.daemon_pid, 0);
    session.vault_dir = "/v".to_string();
    session.daemon_pid = 42;
    session.watch_pid = Some(7);
    session.files.insert("a".to_string(), entry("a-i.valv", 1, 1));
    session.files.insert("b".to_string(), entry("b-i.valv", 1, 1));
    let m = ActiveMount::from_session("/dev/shm/valv-1/v-7".to_string(), &session);
    assert_eq!(
        m,
        ActiveMount {
            mount_dir: "/dev/shm/valv-1/v-7".to_string(),
            vault_dir: "/v".to_string(),
            daemon_pid: 42,
            watch_pid: Some(7),
            file_count: 2,
        }
    );
}

#[test]
fn missing_files_are_forgotten_with_their_vault_files() {
    let mut files = SessionFiles::new();
    files.insert("a.jpg".to_string(), entry("aaa-i.valv", 1, 1));
    files.insert("b.txt".to_string(), entry("bbb-x.valv", 2, 2));
    files.insert("c.mp4".to_string(), entry("ccc-v.valv", 3, 3));
    files.insert("d.gif".to_string(), entry("ddd-g.valv", 4, 4));
    let present: Vec<bool> = (0..files.len()).map(|i| files.name_at(i) == "b.txt").collect();
    let doomed = files.remove_missing(&present);
    assert_eq!(
        doomed,
        vec![
            "aaa-i.valv".to_string(),
            "aaa-t.valv".to_string(),
            "ccc-v.valv".to_string(),
            "ccc-t.valv".to_string(),
            "ddd-g.valv".to_string(),
            "ddd-t.valv".to_string(),
        ]
    );
    assert_eq!(files.len(), 1);
    assert_eq!(files.get("b.txt").unwrap().valv_name, "bbb-x.valv");
    assert!(files.get("a.jpg").is_none());

    let keep_all = vec![true];
    assert!(files.remove_missing(&keep_all).is_empty());
    assert_eq!(files.len(), 1);
    let drop_all = vec![false];
    assert_eq!(files.remove_missing(&drop_all), vec!["bbb-x.valv".to_string()]);
    assert_eq!(files.len(), 0);
    assert!(files.remove_missing(&Vec::new()).is_empty());
}

#[test]
fn mount_steps() {
    let ok: Result<u8, DecryptError> = Ok(1);
    assert_eq!(mount_step(&ok), MountStep::Decrypt);
    let wrong: Result<u8, DecryptError> = Err(DecryptError::InvalidPassword);
    assert_eq!(mount_step(&wrong), MountStep::Refuse);
    let corrupt: Result<u8, DecryptError> = Err(DecryptError::CorruptHeader("Missing initial newline"));
    assert_eq!(mount_step(&corrupt), MountStep::Skip);
    let io: Result<u8, DecryptError> =
        Err(DecryptError::Io(std::io::Error::new(std::io::ErrorKind::UnexpectedEof, "short")));
    assert_eq!(mount_step(&io), MountStep::Skip);
}
