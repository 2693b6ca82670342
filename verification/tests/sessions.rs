use zcode_cleaner::sessions::{
    group_sessions, loc_label, rollout_id, scan_fs_sessions, session_dir, session_dir_locs,
    valid_sess_id, DirListing, FoundDir, FoundFile, FsSession,
};

fn found(name: &str, is_dir: bool, size: u64, mtime: u128) -> FoundDir {
    FoundDir { name: name.to_string(), is_dir, size, mtime }
}

fn file(name: &str, size: u64, mtime: u128) -> FoundFile {
    FoundFile { name: name.to_string(), size, mtime }
}

fn listing(loc: &str, found: Vec<FoundDir>) -> DirListing {
    DirListing { loc: loc.to_string(), found }
}

fn by_id<'a>(all: &'a Vec<FsSession>, id: &str) -> &'a FsSession {
    all.iter().find(|s| s.id == id).unwrap()
}

#[test]
fn session_ids_are_checked() {
    for id in ["sess_a", "sess_0", "sess_-", "sess__", "sess_aZ09-_"] {
        assert!(valid_sess_id(id), "{}", id);
    }
    for id in ["", "sess_", "sess", "Sess_a", " sess_a", "sess_a/b", "sess_a.b", "sess_ä", "sess_.."]
    {
        assert!(!valid_sess_id(id), "{}", id);
    }
}

#[test]
fn locations_have_labels() {
    assert_eq!(loc_label("agents"), "转录");
    assert_eq!(loc_label("artifacts"), "产物");
    assert_eq!(loc_label("exec"), "Shell快照");
    assert_eq!(loc_label("image-cache"), "图片缓存");
    assert_eq!(loc_label("rollout"), "模型IO");
    assert_eq!(loc_label("other"), "other");
    assert_eq!(
        session_dir_locs(),
        vec![
            ("agents", "cli/agents"),
            ("artifacts", "cli/artifacts"),
            ("exec", "cli/exec"),
            ("image-cache", "cli/image-cache"),
        ]
    );
}

#[test]
fn only_session_directories_count() {
    assert!(session_dir("sess_", true));
    assert!(session_dir("sess_x y", true));
    assert!(!session_dir("sess_x", false));
    assert!(!session_dir("other", true));
}

#[test]
fn data_on_disk_is_grouped_by_session() {
    let listings = vec![
        listing(
            "agents",
            vec![
                found("sess_a", true, 10, 100),
                found("sess_b", true, 1, 7),
                found("sess_c", false, 99, 999),
                found("tmp", true, 99, 999),
            ],
        ),
        listing("exec", vec![found("sess_a", true, 5, 300)]),
    ];
    let rollout = vec![
        file("model-io-sess_a.jsonl", 2, 200),
        file("model-io-sess_d.jsonl", 8, 50),
        file("model-io-sess_e.json", 8, 50),
        file("sess_f.jsonl", 8, 50),
        file("model-io-foo.jsonl", 8, 50),
    ];
    let all = scan_fs_sessions(&listings, &rollout);
    assert_eq!(all.len(), 3);
    let a = by_id(&all, "sess_a");
    assert_eq!((a.size, a.mtime), (17, 300));
    let parts: Vec<(&str, &str, u64)> =
        a.parts.iter().map(|p| (p.loc.as_str(), p.label.as_str(), p.size)).collect();
    assert_eq!(
        parts,
        vec![("agents", "转录", 10), ("exec", "Shell快照", 5), ("rollout", "模型IO", 2)]
    );
    assert_eq!(a.size, a.parts.iter().map(|p| p.size).sum::<u64>());
    let b = by_id(&all, "sess_b");
    assert_eq!((b.size, b.mtime, b.parts.len()), (1, 7, 1));
    let d = by_id(&all, "sess_d");
    assert_eq!((d.size, d.mtime, d.parts.len()), (8, 50, 1));
}

#[test]
fn sessions_beyond_counting_are_told() {
    let listings = vec![listing("agents", vec![found("sess_a", true, u64::MAX, 1)])];
    assert!(group_sessions(&listings, &vec![]).is_some());
    assert!(group_sessions(&listings, &vec![file("model-io-sess_b.jsonl", 1, 1)]).is_some());
    assert!(group_sessions(&listings, &vec![file("model-io-sess_a.jsonl", 1, 1)]).is_none());
    let twice = vec![
        listing("agents", vec![found("sess_a", true, u64::MAX, 1)]),
        listing("exec", vec![found("sess_a", true, 1, 1)]),
    ];
    assert!(group_sessions(&twice, &vec![]).is_none());
}

#[test]
fn rollout_files_belong_to_sessions() {
    assert_eq!(rollout_id("model-io-sess_a.jsonl").as_deref(), Some("sess_a"));
    assert_eq!(rollout_id("model-io-sess_.jsonl").as_deref(), Some("sess_"));
    for name in ["model-io-foo.jsonl", "model-io-.jsonl", "model-io-sess_a", "sess_a.jsonl"] {
        assert_eq!(rollout_id(name), None, "{}", name);
    }
}
