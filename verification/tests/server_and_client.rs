use local_deploy::archive::ExtractError;
use local_deploy::client::{
    format_http_error, interpret_response, status_display, ClientError, Endpoint, ManagementClient,
    UploadResponse,
};
use local_deploy::ids::{is_valid_upload_id, new_allocation_id};
use local_deploy::server::{
    accept_upload, allocation_outcome, AllocateReply, AppError, UploadReply,
};
use local_deploy::tools::{
    archive_failure, check_local_folder, client_failure, invalid_member_message, ToolErrorKind,
};

const ID: &str = "a1b2c3d4-e5f6-4890-abcd-ef1234567890";

fn is_canonical_v4(s: &str) -> bool {
    let b = s.as_bytes();
    b.len() == 36
        && b.iter().enumerate().all(|(i, c)| {
            if [8, 13, 18, 23].contains(&i) {
                *c == b'-'
            } else {
                c.is_ascii_digit() || (b'a'..=b'f').contains(c)
            }
        })
        && b[14] == b'4'
        && b"89ab".contains(&b[19])
}

#[test]
fn allocation_ids_are_canonical_v4() {
    let a = new_allocation_id();
    let b = new_allocation_id();
    assert!(is_canonical_v4(&a), "{a}");
    assert!(is_canonical_v4(&b), "{b}");
    assert_ne!(a, b);
    assert!(is_valid_upload_id(&a));
}

#[test]
fn upload_ids_in_every_form() {
    assert!(is_valid_upload_id(ID));
    assert!(is_valid_upload_id(&ID.to_uppercase()));
    assert!(is_valid_upload_id(&ID.replace('-', "")));
    assert!(is_valid_upload_id(&format!("{{{ID}}}")));
    assert!(is_valid_upload_id(&format!("urn:uuid:{ID}")));
    assert!(is_valid_upload_id(&format!("URN:UUID:{ID}")));
    assert!(!is_valid_upload_id(""));
    assert!(!is_valid_upload_id("not-a-uuid"));
    assert!(!is_valid_upload_id(&ID.replace('a', "g")));
    assert!(!is_valid_upload_id(&format!("{ID}0")));
    assert!(!is_valid_upload_id(&format!("urn:uuix:{ID}")));
    assert!(!is_valid_upload_id("a1b2c3d4e-5f6-4890-abcd-ef1234567890"));
    assert!(!is_valid_upload_id("é1b2c3d4-e5f6-4890-abcd-ef123456789"));
}

#[test]
fn app_error_statuses() {
    let cases = [
        (AppError::bad_request("b".to_string()), 400, "b"),
        (AppError::not_found("n".to_string()), 404, "n"),
        (AppError::conflict("c".to_string()), 409, "c"),
        (AppError::internal("i".to_string()), 500, "i"),
    ];
    for (e, status, message) in cases {
        assert_eq!(e.status_code(), status);
        assert_eq!(e.message(), message);
    }
}

#[test]
fn allocation_answers() {
    let reply: AllocateReply = allocation_outcome(ID.to_string(), true).ok().unwrap();
    assert_eq!(reply.uuid, ID);
    assert_eq!(reply.status_code(), 201);
    let e = allocation_outcome(ID.to_string(), false).err().unwrap();
    assert_eq!(e.status_code(), 500);
    assert_eq!(e.message(), "failed to create allocation directory");
}

fn run_upload(
    uuid: &str,
    is_dir: bool,
    empty: Option<bool>,
    extracted: Result<usize, ExtractError>,
) -> Result<UploadReply, AppError> {
    let accepted = accept_upload("http://localhost:11000".to_string(), uuid.to_string())?;
    assert_eq!(accepted.uuid(), uuid);
    accepted.after_directory_check(is_dir)?.after_emptiness_check(empty)?.finish(extracted)
}

#[test]
fn upload_succeeds_into_empty_allocation() {
    let reply = run_upload(ID, true, Some(true), Ok(12)).ok().unwrap();
    assert_eq!(reply.files, 12);
    assert_eq!(reply.status_code(), 200);
    assert_eq!(reply.url, format!("http://localhost:11000/{ID}"));
}

#[test]
fn upload_refusals() {
    let check = |r: Result<UploadReply, AppError>, status: u16, message: &str| {
        let e = r.err().unwrap();
        assert_eq!(e.status_code(), status);
        assert_eq!(e.message(), message);
    };
    check(run_upload("nope", true, Some(true), Ok(1)), 404, "UUID not allocated");
    check(run_upload(ID, false, Some(true), Ok(1)), 404, "UUID not allocated");
    check(run_upload(ID, true, None, Ok(1)), 500, "failed to read allocation directory");
    check(run_upload(ID, true, Some(false), Ok(1)), 409, "UUID already has uploaded content");
    check(run_upload(ID, true, Some(true), Err(ExtractError::PathTraversal)), 400, "path traversal detected");
    check(run_upload(ID, true, Some(true), Err(ExtractError::WriteFile)), 500, "failed to extract upload archive");
    check(run_upload(ID, true, Some(true), Err(ExtractError::InvalidEntry)), 500, "failed to extract upload archive");
}

#[test]
fn allocated_id_can_be_uploaded_to() {
    let id = new_allocation_id();
    let reply = run_upload(&id, true, Some(true), Ok(3)).ok().unwrap();
    assert_eq!(reply.url, format!("http://localhost:11000/{id}"));
}

#[test]
fn client_urls() {
    let client = ManagementClient::new("http://localhost:11001".to_string());
    assert_eq!(client.base_url(), "http://localhost:11001");
    assert_eq!(client.allocate_url(), "http://localhost:11001/allocate");
    assert_eq!(client.upload_url(ID), format!("http://localhost:11001/upload/{ID}"));
    let copy = client.clone();
    assert_eq!(copy.base_url(), client.base_url());
}

#[test]
fn responses_are_interpreted() {
    assert_eq!(
        interpret_response(201, "{\"uuid\":\"x\"}".to_string(), None).ok().unwrap(),
        "{\"uuid\":\"x\"}"
    );
    match interpret_response(404, "{\"error\":\"UUID not allocated\"}".to_string(), Some("UUID not allocated".to_string())) {
        Err(ClientError::Http { status, message }) => {
            assert_eq!(status, 404);
            assert_eq!(message, "UUID not allocated");
        }
        _ => panic!("expected an HTTP error"),
    }
    match interpret_response(502, "bad gateway".to_string(), None) {
        Err(ClientError::Http { status, message }) => {
            assert_eq!(status, 502);
            assert_eq!(message, "bad gateway");
        }
        _ => panic!("expected an HTTP error"),
    }
    assert!(interpret_response(199, String::new(), None).is_err());
    assert!(interpret_response(300, String::new(), None).is_err());
    assert!(interpret_response(299, String::new(), None).is_ok());
}

#[test]
fn status_display_matches_reqwest() {
    for code in [200u16, 201, 404, 409, 418, 500, 299, 599, 999] {
        let expected = reqwest::StatusCode::from_u16(code).unwrap().to_string();
        assert_eq!(status_display(code), expected);
    }
    assert_eq!(status_display(200), "200 OK");
    assert_eq!(status_display(299), "299 <unknown status code>");
    assert_eq!(status_display(42), "42 <unknown status code>");
}

#[test]
fn client_error_texts() {
    let http = ClientError::Http { status: 409, message: "UUID already has uploaded content".to_string() };
    assert_eq!(
        format_http_error(&http),
        "management API returned HTTP 409: HTTP 409: UUID already has uploaded content"
    );
    let request = ClientError::Request { endpoint: Endpoint::Allocate, detail: "connection refused".to_string() };
    assert_eq!(format_http_error(&request), "failed to call POST /allocate");
    let request = ClientError::Request { endpoint: Endpoint::Upload, detail: "timeout".to_string() };
    assert_eq!(format_http_error(&request), "failed to call PUT /upload/{uuid}");
    let read = ClientError::ReadBody { detail: "eof".to_string() };
    assert_eq!(format_http_error(&read), "failed to read management API response body");
    let parse = ClientError::ParseSuccess { status: 200, body: "{}".to_string(), detail: "missing field `url`".to_string() };
    assert_eq!(
        format_http_error(&parse),
        "failed to parse successful response (HTTP 200 OK): {}"
    );
}

#[test]
fn upload_response_holds_url() {
    let r = UploadResponse { url: format!("http://localhost:11000/{ID}") };
    assert!(r.url.ends_with(ID));
}

#[test]
fn local_folder_checks() {
    assert!(check_local_folder("dist", true, true).is_ok());
    let e = check_local_folder("dist", false, false).err().unwrap();
    assert_eq!(e.kind, ToolErrorKind::InvalidParams);
    assert_eq!(e.message, "local_folder does not exist: dist");
    let e = check_local_folder("dist", true, false).err().unwrap();
    assert_eq!(e.kind, ToolErrorKind::InvalidParams);
    assert_eq!(e.message, "local_folder is not a directory: dist");
}

#[test]
fn tool_error_texts() {
    let e = archive_failure("invalid path in local folder: ../x");
    assert_eq!(e.kind, ToolErrorKind::Internal);
    assert_eq!(e.message, "failed to create tar.gz: invalid path in local folder: ../x");
    assert_eq!(invalid_member_message("../x"), "invalid path in local folder: ../x");
    let e = client_failure(&ClientError::Http { status: 404, message: "UUID not allocated".to_string() });
    assert_eq!(e.kind, ToolErrorKind::Internal);
    assert_eq!(e.message, "management API returned HTTP 404: HTTP 404: UUID not allocated");
}
