use promptpetrol::codex_import::Discovery;
use promptpetrol::discovery::{
    codex_sessions_dir, collect_codex_session_files, collect_jsonl_files_recursive,
    default_sessions_dir, has_session_log_name, DirEntry,
};
use promptpetrol::models::AppConfig;

fn file(dir: &str, name: &str) -> DirEntry {
    DirEntry::File {
        name: name.to_string(),
        path: format!("{}/{}", dir, name),
    }
}

fn found(discovery: Discovery) -> Vec<String> {
    match discovery {
        Discovery::Found(files) => files,
        other => panic!("expected files, got {:?}", other),
    }
}

#[test]
fn walk_lists_session_logs_depth_first() {
    let tree = DirEntry::Dir {
        entries: vec![
            file("/s", "first.jsonl"),
            DirEntry::Dir {
                entries: vec![
                    file("/s/2026", "notes.txt"),
                    DirEntry::Dir {
                        entries: vec![file("/s/2026/02", "deep.jsonl")],
                    },
                    file("/s/2026", "second.jsonl"),
                    DirEntry::Dir { entries: vec![] },
                ],
            },
            file("/s", "last.jsonl"),
            file("/s", "archive.jsonl.gz"),
        ],
    };
    assert_eq!(
        found(collect_codex_session_files(Some(&tree))),
        vec![
            "/s/first.jsonl",
            "/s/2026/02/deep.jsonl",
            "/s/2026/second.jsonl",
            "/s/last.jsonl"
        ]
    );
}

#[test]
fn missing_root_differs_from_empty_root() {
    assert!(matches!(
        collect_codex_session_files(None),
        Discovery::MissingRoot
    ));
    let empty = DirEntry::Dir { entries: vec![] };
    assert!(found(collect_codex_session_files(Some(&empty))).is_empty());
}

#[test]
fn unreadable_subtree_fails_the_whole_walk() {
    let tree = DirEntry::Dir {
        entries: vec![
            file("/s", "first.jsonl"),
            DirEntry::Dir {
                entries: vec![file("/s/a", "x.jsonl"), DirEntry::Unreadable],
            },
            file("/s", "last.jsonl"),
        ],
    };
    assert!(matches!(
        collect_codex_session_files(Some(&tree)),
        Discovery::Failed
    ));
    assert!(matches!(
        collect_codex_session_files(Some(&DirEntry::Unreadable)),
        Discovery::Failed
    ));
    assert!(matches!(
        collect_codex_session_files(Some(&file("/", "root.jsonl"))),
        Discovery::Failed
    ));
}

#[test]
fn recursive_walk_appends_to_what_is_there() {
    let mut files = vec!["kept".to_string()];
    let tree = DirEntry::Dir {
        entries: vec![file("/s", "a.jsonl"), file("/s", "b.JSONL")],
    };
    assert!(collect_jsonl_files_recursive(&tree, &mut files));
    assert_eq!(files, vec!["kept", "/s/a.jsonl"]);
    assert!(!collect_jsonl_files_recursive(
        &DirEntry::Unreadable,
        &mut files
    ));
}

#[test]
fn session_log_names_have_the_extension_jsonl() {
    assert!(has_session_log_name("a.jsonl"));
    assert!(has_session_log_name("rollout-0001.jsonl"));
    assert!(has_session_log_name("a.b.jsonl"));
    assert!(has_session_log_name("..jsonl"));
    assert!(has_session_log_name("é.jsonl"));
    assert!(!has_session_log_name(".jsonl"));
    assert!(!has_session_log_name("jsonl"));
    assert!(!has_session_log_name("a.json"));
    assert!(!has_session_log_name("a.jsonl "));
    assert!(!has_session_log_name("a.JSONL"));
    assert!(!has_session_log_name("ajsonl"));
    assert!(!has_session_log_name(""));
    assert!(!has_session_log_name("a.jsonl.bak"));
}

#[test]
fn configured_sessions_dir_is_used_as_it_is() {
    let mut config = AppConfig::default();
    config.codex_import.sessions_dir = Some("/tmp/my sessions".to_string());
    assert_eq!(codex_sessions_dir(&config), "/tmp/my sessions");
}

#[test]
fn default_sessions_dir_lies_under_the_home_directory() {
    let under_home = default_sessions_dir(Some("/home/alice".to_string()));
    let expected = std::path::Path::new("/home/alice")
        .join(".codex")
        .join("sessions");
    assert_eq!(std::path::Path::new(&under_home), expected.as_path());
    assert_eq!(under_home, "/home/alice/.codex/sessions");
    assert_eq!(
        default_sessions_dir(Some("/home/alice/".to_string())),
        "/home/alice/.codex/sessions"
    );
    assert_eq!(default_sessions_dir(Some("/".to_string())), "/.codex/sessions");
    assert_eq!(default_sessions_dir(Some(String::new())), ".codex/sessions");
    for home in ["/home/alice", "/home/alice/", "/", "", "relative/é"] {
        let joined = default_sessions_dir(Some(home.to_string()));
        let expected = std::path::Path::new(home).join(".codex").join("sessions");
        assert_eq!(std::path::Path::new(&joined), expected.as_path(), "{}", home);
        assert!(!joined.contains("//"), "{}", joined);
    }
    let fallback = default_sessions_dir(None);
    assert_eq!(fallback, "./.codex/sessions");
    let expected = std::path::Path::new(".").join(".codex").join("sessions");
    assert_eq!(std::path::Path::new(&fallback), expected.as_path());

    let config = AppConfig::default();
    let dir = codex_sessions_dir(&config);
    assert!(std::path::Path::new(&dir).ends_with(std::path::Path::new(".codex").join("sessions")));
    assert_ne!(dir, ".codex");
}
