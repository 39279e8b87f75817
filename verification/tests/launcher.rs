use clearclip::launcher::{
    candidate_of, collect_candidates, default_search_dirs, launch_order, exe_probe_names, extract_version, first_other_program,
    no_candidates_message, no_program_message, order_candidates, Candidate, CandidateType,
    EntryFacts, FolderEntry, LauncherConfig,
};
use std::path::PathBuf;

fn facts(name: &str, is_dir: bool, ext: Option<&str>, stem: Option<&str>, is_launcher: bool) -> EntryFacts {
    EntryFacts {
        name: name.into(),
        is_dir,
        is_file: !is_dir,
        extension: ext.map(String::from),
        stem: stem.map(String::from),
        is_launcher,
    }
}

#[test]
fn versions_in_names() {
    assert_eq!(extract_version("0.1.0").as_deref(), Some("0.1.0"));
    assert_eq!(extract_version("ClearClip_v1.2.3").as_deref(), Some("1.2.3"));
    assert_eq!(extract_version("app-2.0.0-beta.1").as_deref(), Some("2.0.0-beta.1"));
    assert_eq!(extract_version("v1.4.0 (old)").as_deref(), Some("1.4.0"));
    assert_eq!(extract_version("release"), None);
    assert_eq!(extract_version("v1.0"), None);
}

#[test]
fn entries_become_candidates() {
    let dir = candidate_of(facts("1.2.0", true, None, None, false), PathBuf::from("versions/1.2.0")).expect("dir");
    assert_eq!(dir.version, "1.2.0");
    assert_eq!(dir.candidate_type, CandidateType::Directory);
    assert_eq!(dir.path, PathBuf::from("versions/1.2.0"));

    let exe = candidate_of(
        facts("ClearClip_v0.3.1.EXE", false, Some("EXE"), Some("ClearClip_v0.3.1"), false),
        PathBuf::from("ClearClip_v0.3.1.EXE"),
    )
    .expect("file");
    assert_eq!(exe.version, "0.3.1");
    assert_eq!(exe.candidate_type, CandidateType::File);

    assert!(candidate_of(facts("ClearClip_v0.3.1.exe", false, Some("exe"), Some("ClearClip_v0.3.1"), true), PathBuf::from("x")).is_none());
    assert!(candidate_of(facts("notes-1.0.0.txt", false, Some("txt"), Some("notes-1.0.0"), false), PathBuf::from("x")).is_none());
}

fn cand(version: &str, path: &str) -> Candidate {
    Candidate { version: version.into(), path: PathBuf::from(path), candidate_type: CandidateType::Directory }
}

#[test]
fn newest_versions_come_first() {
    let ordered = order_candidates(vec![
        cand("0.2.0", "a"),
        cand("0.10.0", "b"),
        cand("0.2.0-rc.1", "c"),
        cand("0.9.9", "d"),
        cand("0.2.0", "e"),
    ]);
    let paths: Vec<String> = ordered.iter().map(|c| c.path.to_string_lossy().to_string()).collect();
    assert_eq!(paths, vec!["b", "d", "a", "e", "c"]);
}

#[test]
fn program_names_probed() {
    assert_eq!(
        exe_probe_names(&Some("ClearClip".into()), &Some("launcher.exe".into())),
        vec!["ClearClip", "ClearClip.exe", "launcher.exe", "tauri-app.exe"]
    );
    assert_eq!(exe_probe_names(&Some("main.exe".into()), &None), vec!["main.exe", "tauri-app.exe"]);
    let entries = vec![
        FolderEntry { file_name: "launcher.exe".into(), is_file: true, extension: Some("exe".into()) },
        FolderEntry { file_name: "readme.txt".into(), is_file: true, extension: Some("txt".into()) },
        FolderEntry { file_name: "sub.exe".into(), is_file: false, extension: Some("exe".into()) },
        FolderEntry { file_name: "App.EXE".into(), is_file: true, extension: Some("EXE".into()) },
    ];
    assert_eq!(first_other_program(&entries, &Some("launcher.exe".into())), Some(3));
    assert_eq!(first_other_program(&entries, &None), Some(0));
    assert_eq!(first_other_program(&entries[1..3], &None), None);
}

#[test]
fn launcher_messages_and_defaults() {
    let m = no_candidates_message(&["\"/a/versions\"".to_string(), "\"/a/app\"".to_string()]);
    assert!(m.ends_with("已检索的路径：\n  - \"/a/versions\"\n  - \"/a/app\""));
    assert!(no_program_message().contains("主程序"));
    assert_eq!(default_search_dirs(), vec!["versions", "app", "."]);
    let config = LauncherConfig::default();
    assert_eq!(config.search_dirs.len(), 3);
    assert!(config.executable_name.is_none());
}

#[test]
fn search_folder_entries_in_launch_order() {
    let entries = vec![
        (facts("0.1.0", true, None, None, false), PathBuf::from("versions/0.1.0")),
        (facts("notes", true, None, None, false), PathBuf::from("versions/notes")),
        (facts("ClearClip_v0.2.0.exe", false, Some("exe"), Some("ClearClip_v0.2.0"), false), PathBuf::from("ClearClip_v0.2.0.exe")),
        (facts("launcher_v9.0.0.exe", false, Some("exe"), Some("launcher_v9.0.0"), true), PathBuf::from("launcher_v9.0.0.exe")),
    ];
    let collected: Vec<String> = collect_candidates(entries.iter().map(|(f, p)| (clone_facts(f), p.clone())).collect())
        .into_iter()
        .map(|c| c.version)
        .collect();
    assert_eq!(collected, vec!["0.1.0", "0.2.0"]);
    let order = launch_order(entries);
    assert_eq!(order.len(), 2);
    assert_eq!(order[0].version, "0.2.0");
    assert_eq!(order[0].candidate_type, CandidateType::File);
    assert_eq!(order[1].path, PathBuf::from("versions/0.1.0"));
}

fn clone_facts(f: &EntryFacts) -> EntryFacts {
    EntryFacts {
        name: f.name.clone(),
        is_dir: f.is_dir,
        is_file: f.is_file,
        extension: f.extension.clone(),
        stem: f.stem.clone(),
        is_launcher: f.is_launcher,
    }
}
