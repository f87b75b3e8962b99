use std::io::Write;
use std::path::{Component, Path, PathBuf};

use local_deploy::archive::{
    join_path_bytes, plan_extraction, prepare_extraction, ArchiveEntry, DecodedArchive,
    ExtractError, ExtractStep,
};
use local_deploy::paths::sanitize_tar_path;
use local_deploy::tools::archive_member_allowed;

fn sanitize(p: &str) -> Option<String> {
    sanitize_tar_path(p.as_bytes()).ok().map(|v| String::from_utf8(v).unwrap())
}

#[test]
fn sanitize_keeps_named_components() {
    assert_eq!(sanitize("index.html").as_deref(), Some("index.html"));
    assert_eq!(sanitize("assets/app.js").as_deref(), Some("assets/app.js"));
    assert_eq!(sanitize("./assets//app.js/").as_deref(), Some("assets/app.js"));
    assert_eq!(sanitize("a/./b/.").as_deref(), Some("a/b"));
    assert_eq!(sanitize(".").as_deref(), Some(""));
    assert_eq!(sanitize("").as_deref(), Some(""));
    assert_eq!(sanitize("a/..b/c..").as_deref(), Some("a/..b/c.."));
    assert_eq!(sanitize("...").as_deref(), Some("..."));
}

#[test]
fn sanitize_rejects_traversal() {
    assert_eq!(sanitize("../evil"), None);
    assert_eq!(sanitize("a/../../b"), None);
    assert_eq!(sanitize("a/.."), None);
    assert_eq!(sanitize("/etc/passwd"), None);
    assert_eq!(sanitize("//x"), None);
    assert_eq!(sanitize(".."), None);
}

#[test]
fn sanitize_agrees_with_std_components() {
    let samples = ["a/b", "./a", "a/./b", "a//b/", "../a", "/a", "a/..", "x/y/z/.", ".", "", "a\\b"];
    for s in samples {
        let mut out = PathBuf::new();
        let mut ok = true;
        for c in Path::new(s).components() {
            match c {
                Component::Prefix(_) | Component::RootDir | Component::ParentDir => ok = false,
                Component::Normal(p) => out.push(p),
                Component::CurDir => {}
            }
        }
        let expected = if ok { Some(out.to_str().unwrap().to_string()) } else { None };
        assert_eq!(sanitize(s), expected, "{s:?}");
    }
}

#[test]
fn traversal_error_is_reported() {
    assert_eq!(sanitize_tar_path(b"../x"), Err(ExtractError::PathTraversal));
}

#[test]
fn sanitizing_twice_changes_nothing() {
    for s in ["./a//b/.", "x/./y", "plain"] {
        let once = sanitize(s).unwrap();
        assert_eq!(sanitize(&once), Some(once.clone()));
    }
}

#[test]
fn archive_member_check_matches_traversal_rule() {
    assert!(archive_member_allowed(b"dist/index.html"));
    assert!(!archive_member_allowed(b"../index.html"));
    assert!(!archive_member_allowed(b"/index.html"));
}

#[test]
fn join_path_adds_one_separator() {
    assert_eq!(join_path_bytes(b"/data/x", b"a/b"), b"/data/x/a/b".to_vec());
    assert_eq!(join_path_bytes(b"/data/x/", b"a"), b"/data/x/a".to_vec());
    assert_eq!(join_path_bytes(b"/data/x", b""), b"/data/x/".to_vec());
    assert_eq!(join_path_bytes(b"", b"a"), b"a".to_vec());
    assert_eq!(join_path_bytes(b"/data", b"/abs"), b"/abs".to_vec());
    let joined = Path::new("/data/x").join("a/b");
    assert_eq!(joined.to_str().unwrap().as_bytes(), join_path_bytes(b"/data/x", b"a/b").as_slice());
}

fn entry(path: &str, is_dir: bool, contents: Option<&[u8]>) -> ArchiveEntry {
    ArchiveEntry { path: path.as_bytes().to_vec(), is_dir, contents: contents.map(|c| c.to_vec()) }
}

fn target(step: &ExtractStep) -> String {
    match step {
        ExtractStep::CreateDir(p) | ExtractStep::CreateParentDirs(p) | ExtractStep::WriteFile(p, _) => {
            String::from_utf8(p.clone()).unwrap()
        }
    }
}

#[test]
fn plan_writes_files_and_creates_directories() {
    let archive = DecodedArchive {
        entries: vec![
            entry("./", true, Some(b"")),
            entry("./index.html", false, Some(b"<html>")),
            entry("./assets/", true, Some(b"")),
            entry("./assets/app.js", false, Some(b"js")),
        ],
        failure: None,
    };
    let plan = plan_extraction(b"/data/u", &archive);
    assert_eq!(plan.outcome, Ok(2));
    let targets: Vec<String> = plan.steps.iter().map(target).collect();
    assert_eq!(
        targets,
        vec![
            "/data/u/",
            "/data/u/index.html",
            "/data/u/index.html",
            "/data/u/assets",
            "/data/u/assets/app.js",
            "/data/u/assets/app.js",
        ]
    );
    assert!(matches!(plan.steps[2], ExtractStep::WriteFile(_, 1)));
    assert!(matches!(plan.steps[5], ExtractStep::WriteFile(_, 3)));
    assert!(matches!(plan.steps[0], ExtractStep::CreateDir(_)));
    assert!(matches!(plan.steps[1], ExtractStep::CreateParentDirs(_)));
}

#[test]
fn plan_stops_at_traversal() {
    let archive = DecodedArchive {
        entries: vec![
            entry("ok.txt", false, Some(b"1")),
            entry("../evil.txt", false, Some(b"2")),
            entry("later.txt", false, Some(b"3")),
        ],
        failure: None,
    };
    let plan = plan_extraction(b"/data/u", &archive);
    assert_eq!(plan.outcome, Err(ExtractError::PathTraversal));
    assert_eq!(plan.steps.len(), 2);
    assert_eq!(plan.result_after(None), Err(ExtractError::PathTraversal));
    assert_eq!(plan.result_after(Some(1)), Err(ExtractError::WriteFile));
    assert_eq!(plan.result_after(Some(0)), Err(ExtractError::CreateParentDirectory));
    assert_eq!(ExtractError::PathTraversal.message(), "path traversal detected");
}

#[test]
fn plan_stops_at_unreadable_member() {
    let archive = DecodedArchive {
        entries: vec![entry("a.txt", false, None), entry("b.txt", false, Some(b"b"))],
        failure: None,
    };
    let plan = plan_extraction(b"/d", &archive);
    assert_eq!(plan.outcome, Err(ExtractError::UnreadableEntry));
    assert_eq!(plan.steps.len(), 1);
    assert!(matches!(plan.steps[0], ExtractStep::CreateParentDirs(_)));
}

#[test]
fn plan_reports_reading_failure_after_members() {
    let archive = DecodedArchive {
        entries: vec![entry("a.txt", false, Some(b"a"))],
        failure: Some(ExtractError::InvalidEntry),
    };
    let plan = plan_extraction(b"/d", &archive);
    assert_eq!(plan.outcome, Err(ExtractError::InvalidEntry));
    assert_eq!(plan.steps.len(), 2);
    let empty = DecodedArchive { entries: vec![], failure: None };
    assert_eq!(plan_extraction(b"/d", &empty).outcome, Ok(0));
}

fn tar_gz(members: &[(&str, Option<&[u8]>)]) -> Vec<u8> {
    let encoder = flate2::write::GzEncoder::new(Vec::new(), flate2::Compression::default());
    let mut builder = tar::Builder::new(encoder);
    for (path, contents) in members {
        let mut header = tar::Header::new_gnu();
        let name = path.as_bytes();
        header.as_gnu_mut().unwrap().name[..name.len()].copy_from_slice(name);
        match contents {
            Some(data) => {
                header.set_entry_type(tar::EntryType::Regular);
                header.set_size(data.len() as u64);
                header.set_mode(0o644);
                header.set_cksum();
                builder.append(&header, *data).unwrap();
            }
            None => {
                header.set_entry_type(tar::EntryType::Directory);
                header.set_size(0);
                header.set_mode(0o755);
                header.set_cksum();
                builder.append(&header, &[][..]).unwrap();
            }
        }
    }
    builder.into_inner().unwrap().finish().unwrap()
}

#[test]
fn real_archive_is_read_and_planned() {
    let data = tar_gz(&[("site", None), ("site/index.html", Some(b"<h1>hi</h1>")), ("site/a.js", Some(b"x"))]);
    let (archive, plan) = prepare_extraction(b"/data/u", &data);
    assert_eq!(archive.entries.len(), 3);
    assert_eq!(archive.entries[1].path, b"site/index.html".to_vec());
    assert!(archive.entries[0].is_dir);
    assert_eq!(archive.entries[1].contents.as_deref(), Some(&b"<h1>hi</h1>"[..]));
    assert_eq!(plan.outcome, Ok(2));
    assert_eq!(target(&plan.steps[0]), "/data/u/site");
}

#[test]
fn real_archive_with_traversal_is_refused() {
    let data = tar_gz(&[("good.txt", Some(b"g")), ("../../etc/evil", Some(b"e"))]);
    let (archive, plan) = prepare_extraction(b"/data/u", &data);
    assert_eq!(archive.entries[1].path, b"../../etc/evil".to_vec());
    assert_eq!(plan.outcome, Err(ExtractError::PathTraversal));
    let data = tar_gz(&[("/abs.txt", Some(b"g"))]);
    let (_, plan) = prepare_extraction(b"/data/u", &data);
    assert_eq!(plan.outcome, Err(ExtractError::PathTraversal));
}

#[test]
fn garbage_is_not_an_archive() {
    let (archive, plan) = prepare_extraction(b"/d", b"definitely not gzip");
    assert!(archive.entries.is_empty());
    assert!(matches!(
        archive.failure,
        Some(ExtractError::InvalidEntry) | Some(ExtractError::UnreadableArchive)
    ));
    assert!(plan.outcome.is_err());
    assert_ne!(plan.outcome, Err(ExtractError::PathTraversal));
    let mut raw = Vec::new();
    raw.write_all(b"x").unwrap();
    let (_, plan) = prepare_extraction(b"/d", &raw);
    assert!(plan.outcome.is_err());
}

#[test]
fn archived_members_pass_extraction_check() {
    for rel in ["index.html", "assets/app.js", "a/./b", ".hidden/x"] {
        assert!(archive_member_allowed(rel.as_bytes()));
        assert!(sanitize_tar_path(rel.as_bytes()).is_ok());
    }
}

#[test]
fn every_plan_target_lies_inside_destination() {
    let archive = DecodedArchive {
        entries: vec![
            entry("./a/./b/", true, Some(b"")),
            entry("a//b/c.txt", false, Some(b"c")),
            entry("x/../../y", false, Some(b"y")),
        ],
        failure: None,
    };
    let plan = plan_extraction(b"/data/u", &archive);
    assert_eq!(plan.outcome, Err(ExtractError::PathTraversal));
    for step in &plan.steps {
        let t = target(step);
        assert!(t.starts_with("/data/u/"), "{t}");
        assert!(!t["/data/u/".len()..].split('/').any(|c| c == ".." || c == "."), "{t}");
    }
}

#[test]
fn named_paths_come_back_unchanged() {
    for p in ["index.html", "assets/app.js", "a/..b/c", "deep/er/path/file.txt"] {
        assert_eq!(sanitize(p).as_deref(), Some(p));
    }
}
