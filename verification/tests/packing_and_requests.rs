use local_deploy::archive::{prepare_extraction, ExtractError};
use local_deploy::client::{HttpMethod, ManagementClient};
use local_deploy::packing::{build_upload_archive, ArchiveFile, PackError};

fn file(path: &str, contents: &[u8]) -> ArchiveFile {
    ArchiveFile {
        path: path.as_bytes().to_vec(),
        mode: 0o100644,
        mtime: 1_700_000_000,
        uid: 1000,
        gid: 1000,
        contents: contents.to_vec(),
    }
}

#[test]
fn packed_folder_extracts_to_the_same_files() {
    let long = format!("{}/deep.txt", "d".repeat(120));
    let files = vec![
        file("index.html", b"<h1>hi</h1>"),
        file("assets/app.js", b"console.log(1)"),
        file(&long, b"long name"),
        file("empty.txt", b""),
    ];
    let archive = build_upload_archive(&files).unwrap();
    let (decoded, plan) = prepare_extraction(b"/data/u", &archive);
    assert_eq!(decoded.failure, None);
    assert_eq!(decoded.entries.len(), files.len());
    for (entry, f) in decoded.entries.iter().zip(&files) {
        assert_eq!(entry.path, f.path);
        assert!(!entry.is_dir);
        assert_eq!(entry.contents.as_deref(), Some(f.contents.as_slice()));
    }
    assert_eq!(plan.outcome, Ok(4));
}

#[test]
fn packing_refuses_escaping_paths() {
    let files = vec![file("ok.txt", b"1"), file("../up.txt", b"2"), file("/abs", b"3")];
    assert_eq!(build_upload_archive(&files), Err(PackError::InvalidPath(1)));
    let files = vec![file("/abs", b"3")];
    assert_eq!(build_upload_archive(&files), Err(PackError::InvalidPath(0)));
}

#[test]
fn packing_an_empty_folder_gives_an_empty_archive() {
    let archive = build_upload_archive(&Vec::new()).unwrap();
    let (decoded, plan) = prepare_extraction(b"/d", &archive);
    assert!(decoded.entries.is_empty());
    assert_eq!(plan.outcome, Ok(0));
    assert_ne!(plan.outcome, Err(ExtractError::PathTraversal));
}

#[test]
fn non_utf8_names_are_refused_by_the_encoder() {
    let mut f = file("x", b"1");
    f.path = vec![b'a', 0xff];
    assert_eq!(build_upload_archive(&vec![f]), Err(PackError::Encoding));
}

#[test]
fn requests_of_the_client() {
    let client = ManagementClient::new("http://localhost:11001".to_string());
    let allocate = client.allocate_request();
    assert_eq!(allocate.method, HttpMethod::Post);
    assert_eq!(allocate.url, "http://localhost:11001/allocate");
    assert_eq!(allocate.content_type, "application/json");
    assert_eq!(allocate.body, b"{}".to_vec());
    let upload = client.upload_request("abc", vec![1, 2, 3]);
    assert_eq!(upload.method, HttpMethod::Put);
    assert_eq!(upload.url, "http://localhost:11001/upload/abc");
    assert_eq!(upload.content_type, "application/gzip");
    assert_eq!(upload.body, vec![1, 2, 3]);
}
