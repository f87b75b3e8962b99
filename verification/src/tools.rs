//! The decisions of the MCP tools: which local folders can be uploaded,
//! which files go into the archive, and the errors the tools report.

use vstd::prelude::*;

use crate::client::{error_text, format_http_error, ClientError};
use crate::paths::{escapes, sanitize_tar_path, sanitized};

verus! {

/// The kind of a tool error.
#[derive(Clone, Copy, PartialEq, Eq, Structural, Debug)]
pub enum ToolErrorKind {
    /// The arguments of the call are wrong.
    InvalidParams,
    /// The call failed for another reason.
    Internal,
}

/// An error that a tool call reports.
pub struct ToolError {
    pub kind: ToolErrorKind,
    pub message: String,
}

/// Checks the `local_folder` argument of `upload_website`, given whether it
/// exists and whether it is a directory.
pub fn check_local_folder(local_folder: &str, exists: bool, is_dir: bool) -> (r: Result<
    (),
    ToolError,
>)
    ensures
        match r {
            Ok(()) => exists && is_dir,
            Err(e) => e.kind == ToolErrorKind::InvalidParams && if !exists {
                e.message@ == "local_folder does not exist: "@ + local_folder@
            } else {
                !is_dir && e.message@ == "local_folder is not a directory: "@ + local_folder@
            },
        },
{
    if !exists {
        let mut message = "local_folder does not exist: ".to_owned();
        message.append(local_folder);
        return Err(ToolError { kind: ToolErrorKind::InvalidParams, message });
    }
    if !is_dir {
        let mut message = "local_folder is not a directory: ".to_owned();
        message.append(local_folder);
        return Err(ToolError { kind: ToolErrorKind::InvalidParams, message });
    }
    Ok(())
}

/// Whether a file at `relative` (its path under the folder, as bytes) may go
/// into the archive: not when it is absolute or has a `..` component.
pub fn archive_member_allowed(relative: &[u8]) -> (r: bool)
    ensures
        r == !escapes(relative@),
{
    sanitize_tar_path(relative).is_ok()
}

/// The error text for a file whose path may not go into the archive;
/// `shown` is how the path displays.
pub fn invalid_member_message(shown: &str) -> (r: String)
    ensures
        r@ == "invalid path in local folder: "@ + shown@,
{
    let mut message = "invalid path in local folder: ".to_owned();
    message.append(shown);
    message
}

/// The tool error for an archive that could not be created; `detail` is the
/// text of the cause.
pub fn archive_failure(detail: &str) -> (r: ToolError)
    ensures
        r.kind == ToolErrorKind::Internal,
        r.message@ == "failed to create tar.gz: "@ + detail@,
{
    let mut message = "failed to create tar.gz: ".to_owned();
    message.append(detail);
    ToolError { kind: ToolErrorKind::Internal, message }
}

/// The tool error for a failed call of the management API.
pub fn client_failure(error: &ClientError) -> (r: ToolError)
    ensures
        r.kind == ToolErrorKind::Internal,
        r.message@ == error_text(*error),
{
    ToolError { kind: ToolErrorKind::Internal, message: format_http_error(error) }
}

/// Every file that the upload tool puts into an archive passes the server's
/// check on member paths. (Where the path is written as named components
/// joined by single `/`, it also comes back unchanged:
/// `paths::lemma_normal_path_preserved`.)
pub proof fn lemma_archived_members_pass_extraction(relative: Seq<u8>)
    requires
        !escapes(relative),
    ensures
        sanitized(relative) is Some,
{
}

} // verus!
