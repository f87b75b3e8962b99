//! The decisions of the management API: what allocation and upload answer,
//! from the identifier, the checks on the allocation directory and the
//! extraction.

use vstd::prelude::*;

use crate::archive::ExtractError;
use crate::ids::{is_canonical_v4, is_uuid_text, is_valid_upload_id};

verus! {

/// A refused request: the status it is answered with and its message.
pub enum AppError {
    BadRequest(String),
    NotFound(String),
    Conflict(String),
    Internal(String),
}

/// A refusal as plain values: HTTP status and message.
pub open spec fn refusal(e: AppError) -> (u16, Seq<char>) {
    match e {
        AppError::BadRequest(m) => (400, m@),
        AppError::NotFound(m) => (404, m@),
        AppError::Conflict(m) => (409, m@),
        AppError::Internal(m) => (500, m@),
    }
}

impl AppError {
    /// A `400 Bad Request` refusal.
    pub fn bad_request(message: String) -> (r: Self)
        ensures
            refusal(r) == (400u16, message@),
    {
        AppError::BadRequest(message)
    }

    /// A `404 Not Found` refusal.
    pub fn not_found(message: String) -> (r: Self)
        ensures
            refusal(r) == (404u16, message@),
    {
        AppError::NotFound(message)
    }

    /// A `409 Conflict` refusal.
    pub fn conflict(message: String) -> (r: Self)
        ensures
            refusal(r) == (409u16, message@),
    {
        AppError::Conflict(message)
    }

    /// A `500 Internal Server Error` refusal.
    pub fn internal(message: String) -> (r: Self)
        ensures
            refusal(r) == (500u16, message@),
    {
        AppError::Internal(message)
    }

    /// The HTTP status the refusal is answered with.
    pub fn status_code(&self) -> (r: u16)
        ensures
            r == refusal(*self).0,
    {
        match self {
            AppError::BadRequest(_) => 400,
            AppError::NotFound(_) => 404,
            AppError::Conflict(_) => 409,
            AppError::Internal(_) => 500,
        }
    }

    /// The message of the refusal, sent as `{"error": message}`.
    pub fn message(&self) -> (r: &String)
        ensures
            r@ == refusal(*self).1,
    {
        match self {
            AppError::BadRequest(m) => m,
            AppError::NotFound(m) => m,
            AppError::Conflict(m) => m,
            AppError::Internal(m) => m,
        }
    }
}

/// The answer to a successful allocation: `201 Created` with the identifier.
pub struct AllocateReply {
    pub uuid: String,
}

impl AllocateReply {
    /// The HTTP status of a successful allocation.
    pub fn status_code(&self) -> (r: u16)
        ensures
            r == 201,
    {
        201
    }
}

/// The message of a failed allocation.
pub open spec fn allocation_failed() -> Seq<char> {
    "failed to create allocation directory"@
}

/// The answer to an allocation of `uuid`, given whether its directory could
/// be created.
pub fn allocation_outcome(uuid: String, created: bool) -> (r: Result<AllocateReply, AppError>)
    ensures
        match r {
            Ok(reply) => created && reply.uuid@ == uuid@,
            Err(e) => !created && refusal(e) == (500u16, allocation_failed()),
        },
{
    if created {
        Ok(AllocateReply { uuid })
    } else {
        Err(AppError::internal("failed to create allocation directory".to_owned()))
    }
}

/// The message for an identifier that is not an allocation.
pub open spec fn not_allocated() -> Seq<char> {
    "UUID not allocated"@
}

/// The message for an allocation whose directory could not be read.
pub open spec fn unreadable_allocation() -> Seq<char> {
    "failed to read allocation directory"@
}

/// The message for an allocation that already holds an upload.
pub open spec fn already_uploaded() -> Seq<char> {
    "UUID already has uploaded content"@
}

/// The message for an archive that could not be extracted.
pub open spec fn extraction_failed() -> Seq<char> {
    "failed to extract upload archive"@
}

/// The message for an archive member that escapes the allocation.
pub open spec fn path_traversal() -> Seq<char> {
    "path traversal detected"@
}

/// The public URL of a deployment: the public address, `/`, the identifier.
pub open spec fn deployment_url(public_address: Seq<char>, uuid: Seq<char>) -> Seq<char> {
    public_address + seq!['/'] + uuid
}

/// The answer to an upload, from what was found along the way: whether the
/// identifier is a UUID, whether its directory exists, whether it is empty
/// (`None`: it could not be read), and how extraction ended. A reply is the
/// number of files and the URL; a refusal is status and message. Later
/// observations are not consulted once an earlier one refuses.
pub open spec fn upload_outcome(
    public_address: Seq<char>,
    uuid: Seq<char>,
    is_dir: bool,
    empty: Option<bool>,
    extracted: Result<nat, ExtractError>,
) -> Result<(nat, Seq<char>), (u16, Seq<char>)> {
    if !is_uuid_text(uuid) {
        Err((404, not_allocated()))
    } else if !is_dir {
        Err((404, not_allocated()))
    } else if empty is None {
        Err((500, unreadable_allocation()))
    } else if empty == Some(false) {
        Err((409, already_uploaded()))
    } else {
        match extracted {
            Ok(files) => Ok((files, deployment_url(public_address, uuid))),
            Err(ExtractError::PathTraversal) => Err((400, path_traversal())),
            Err(_) => Err((500, extraction_failed())),
        }
    }
}

/// The answer to a successful upload: `200 OK` with the number of files
/// extracted and the public URL of the deployment.
pub struct UploadReply {
    pub files: usize,
    pub url: String,
}

impl UploadReply {
    /// The HTTP status of a successful upload.
    pub fn status_code(&self) -> (r: u16)
        ensures
            r == 200,
    {
        200
    }
}

/// An upload whose identifier was accepted; next, whether its directory
/// exists is to be checked.
pub struct UploadAccepted {
    public_address: String,
    uuid: String,
}

/// An upload whose directory exists; next, whether it is empty is to be
/// checked.
pub struct UploadAllocated {
    public_address: String,
    uuid: String,
}

/// An upload into an empty allocation; next, the archive is to be
/// extracted.
pub struct UploadReady {
    public_address: String,
    uuid: String,
}

impl UploadAccepted {
    /// Only an identifier that is a UUID gets this far.
    #[verifier::type_invariant]
    closed spec fn id_is_uuid(&self) -> bool {
        is_uuid_text(self.uuid@)
    }

    /// The public address the upload is answered under.
    pub closed spec fn address(&self) -> Seq<char> {
        self.public_address@
    }

    /// The identifier of the upload.
    pub closed spec fn id(&self) -> Seq<char> {
        self.uuid@
    }

    /// The identifier of the upload, which names its directory.
    pub fn uuid(&self) -> (r: &String)
        ensures
            r@ == self.id(),
            is_uuid_text(r@),
    {
        proof {
            use_type_invariant(self);
        }
        &self.uuid
    }

    /// Goes on once it is known whether the allocation directory exists.
    pub fn after_directory_check(self, is_dir: bool) -> (r: Result<UploadAllocated, AppError>)
        ensures
            match r {
                Ok(next) => is_dir && next.address() == self.address() && next.id() == self.id(),
                Err(e) => !is_dir && refusal(e) == (404u16, not_allocated()),
            },
            r is Err ==> forall|empty: Option<bool>, extracted: Result<nat, ExtractError>|
                #[trigger] upload_outcome(self.address(), self.id(), is_dir, empty, extracted)
                    == Err::<(nat, Seq<char>), (u16, Seq<char>)>(refusal(r->Err_0)),
    {
        proof {
            use_type_invariant(&self);
        }
        if !is_dir {
            return Err(AppError::not_found("UUID not allocated".to_owned()));
        }
        Ok(UploadAllocated { public_address: self.public_address, uuid: self.uuid })
    }
}

impl UploadAllocated {
    /// Only an identifier that is a UUID gets this far.
    #[verifier::type_invariant]
    closed spec fn id_is_uuid(&self) -> bool {
        is_uuid_text(self.uuid@)
    }

    /// The public address the upload is answered under.
    pub closed spec fn address(&self) -> Seq<char> {
        self.public_address@
    }

    /// The identifier of the upload.
    pub closed spec fn id(&self) -> Seq<char> {
        self.uuid@
    }

    /// Goes on once it is known whether the allocation directory is empty
    /// (`None`: it could not be read).
    pub fn after_emptiness_check(self, empty: Option<bool>) -> (r: Result<UploadReady, AppError>)
        ensures
            match r {
                Ok(next) => empty == Some(true) && next.address() == self.address() && next.id()
                    == self.id(),
                Err(e) => match empty {
                    None => refusal(e) == (500u16, unreadable_allocation()),
                    Some(b) => !b && refusal(e) == (409u16, already_uploaded()),
                },
            },
            r is Err ==> forall|extracted: Result<nat, ExtractError>|
                #[trigger] upload_outcome(self.address(), self.id(), true, empty, extracted) == Err::<
                    (nat, Seq<char>),
                    (u16, Seq<char>),
                >(refusal(r->Err_0)),
    {
        proof {
            use_type_invariant(&self);
        }
        match empty {
            None => Err(AppError::internal("failed to read allocation directory".to_owned())),
            Some(false) => Err(AppError::conflict("UUID already has uploaded content".to_owned())),
            Some(true) => Ok(UploadReady { public_address: self.public_address, uuid: self.uuid }),
        }
    }
}

impl UploadReady {
    /// Only an identifier that is a UUID gets this far.
    #[verifier::type_invariant]
    closed spec fn id_is_uuid(&self) -> bool {
        is_uuid_text(self.uuid@)
    }

    /// The public address the upload is answered under.
    pub closed spec fn address(&self) -> Seq<char> {
        self.public_address@
    }

    /// The identifier of the upload.
    pub closed spec fn id(&self) -> Seq<char> {
        self.uuid@
    }

    /// The answer, once extraction has ended.
    pub fn finish(self, extracted: Result<usize, ExtractError>) -> (r: Result<UploadReply, AppError>)
        ensures
            match r {
                Ok(reply) => extracted == Ok::<usize, ExtractError>(reply.files) && reply.url@
                    == deployment_url(self.address(), self.id()),
                Err(e) => match extracted {
                    Ok(_) => false,
                    Err(ExtractError::PathTraversal) => refusal(e) == (400u16, path_traversal()),
                    Err(_) => refusal(e) == (500u16, extraction_failed()),
                },
            },
            upload_outcome(
                self.address(),
                self.id(),
                true,
                Some(true),
                crate::archive::outcome_view(extracted),
            ) == match r {
                Ok(reply) => Ok::<(nat, Seq<char>), (u16, Seq<char>)>(
                    (reply.files as nat, reply.url@),
                ),
                Err(e) => Err(refusal(e)),
            },
    {
        proof {
            use_type_invariant(&self);
        }
        match extracted {
            Ok(files) => {
                let mut url = self.public_address;
                url.append("/");
                url.append(self.uuid.as_str());
                proof {
                    reveal_strlit("/");
                }
                Ok(UploadReply { files, url })
            },
            Err(ExtractError::PathTraversal) => Err(
                AppError::bad_request(ExtractError::PathTraversal.message().to_owned()),
            ),
            Err(_) => Err(AppError::internal("failed to extract upload archive".to_owned())),
        }
    }
}

/// Begins an upload to `uuid`, answered under `public_address`: refused
/// unless `uuid` is a UUID.
pub fn accept_upload(public_address: String, uuid: String) -> (r: Result<UploadAccepted, AppError>)
    ensures
        match r {
            Ok(next) => is_uuid_text(uuid@) && next.address() == public_address@ && next.id()
                == uuid@,
            Err(e) => !is_uuid_text(uuid@) && refusal(e) == (404u16, not_allocated()),
        },
        r is Err ==> forall|is_dir: bool, empty: Option<bool>, extracted: Result<nat, ExtractError>|
            #[trigger] upload_outcome(public_address@, uuid@, is_dir, empty, extracted) == Err::<
                (nat, Seq<char>),
                (u16, Seq<char>),
            >(refusal(r->Err_0)),
{
    if !is_valid_upload_id(uuid.as_str()) {
        return Err(AppError::not_found("UUID not allocated".to_owned()));
    }
    Ok(UploadAccepted { public_address, uuid })
}

/// What an upload is answered: a reply only when the identifier is a UUID,
/// its directory exists and is empty, and extraction succeeded, with the
/// number of files extracted and the deployment URL; otherwise `404` for an
/// identifier that is not an allocation, `409` for an allocation that already
/// holds an upload, `400` for an archive member that escapes, and `500` for a
/// directory that cannot be read or any other failure of extraction.
pub proof fn lemma_upload_answers(
    public_address: Seq<char>,
    uuid: Seq<char>,
    is_dir: bool,
    empty: Option<bool>,
    extracted: Result<nat, ExtractError>,
)
    ensures
        ({
            let r = upload_outcome(public_address, uuid, is_dir, empty, extracted);
            &&& r is Ok <==> (is_uuid_text(uuid) && is_dir && empty == Some(true)
                && extracted is Ok)
            &&& r is Ok ==> r->Ok_0 == (extracted->Ok_0, deployment_url(public_address, uuid))
            &&& (!is_uuid_text(uuid) || !is_dir) ==> r == Err::<(nat, Seq<char>), (u16, Seq<char>)>(
                (404u16, not_allocated()),
            )
            &&& (is_uuid_text(uuid) && is_dir && empty == Some(false)) ==> r == Err::<
                (nat, Seq<char>),
                (u16, Seq<char>),
            >((409u16, already_uploaded()))
            &&& (is_uuid_text(uuid) && is_dir && empty == Some(true) && extracted == Err::<
                nat,
                ExtractError,
            >(ExtractError::PathTraversal)) ==> r == Err::<(nat, Seq<char>), (u16, Seq<char>)>(
                (400u16, path_traversal()),
            )
            &&& r is Err ==> (r->Err_0.0 == 400 || r->Err_0.0 == 404 || r->Err_0.0 == 409
                || r->Err_0.0 == 500)
        }),
{
    let r = upload_outcome(public_address, uuid, is_dir, empty, extracted);
    if !is_uuid_text(uuid) {
        assert(r is Err);
    } else if !is_dir {
        assert(r is Err);
    } else if empty is None {
        assert(r is Err);
    } else if empty == Some(false) {
        assert(r is Err);
    } else if extracted is Err {
        assert(r is Err);
    } else {
        assert(empty == Some(true));
        assert(r is Ok);
    }
}

/// An identifier that allocation hands out is accepted by upload: uploading
/// an archive into its fresh (existing, empty) directory succeeds whenever
/// extraction does, and the reply's URL is the public address, `/`, and the
/// identifier.
pub proof fn lemma_allocated_id_uploadable(
    public_address: Seq<char>,
    uuid: Seq<char>,
    files: nat,
)
    requires
        is_canonical_v4(uuid),
    ensures
        upload_outcome(public_address, uuid, true, Some(true), Ok(files)) == Ok::<
            (nat, Seq<char>),
            (u16, Seq<char>),
        >((files, deployment_url(public_address, uuid))),
{
    crate::ids::lemma_allocated_id_accepted(uuid);
}

/// The deployment URL under a normalised public address and an allocated
/// identifier has a single `/` between the two and does not end with `/`.
pub proof fn lemma_deployment_url_shape(raw_address: Seq<char>, uuid: Seq<char>)
    requires
        is_canonical_v4(uuid),
        crate::address::normalized(raw_address).len() > 0,
    ensures
        ({
            let a = crate::address::normalized(raw_address);
            let url = deployment_url(a, uuid);
            &&& url.subrange(0, a.len() as int) == a
            &&& url[a.len() - 1] != '/'
            &&& url[a.len() as int] == '/'
            &&& url.subrange(a.len() as int + 1, url.len() as int) == uuid
            &&& url.last() != '/'
        }),
{
    let a = crate::address::normalized(raw_address);
    let url = deployment_url(a, uuid);
    crate::address::lemma_normalized_shape(raw_address);
    assert(url.subrange(0, a.len() as int) =~= a);
    assert(url.subrange(a.len() as int + 1, url.len() as int) =~= uuid);
    assert(url[a.len() - 1] == a.last());
    assert(url.last() == uuid[35]);
    assert(crate::ids::is_lower_hex_digit(uuid[35]));
}

/// No second upload: an upload answered with at least one file wrote a file
/// inside the allocation directory `dest`, and every later upload to the
/// same identifier that finds that directory non-empty is refused with `409`,
/// whatever its archive. (That a written file leaves the directory non-empty
/// is the filesystem's part and is not stated here.)
pub proof fn lemma_no_second_upload(
    public_address: Seq<char>,
    uuid: Seq<char>,
    is_dir: bool,
    empty: Option<bool>,
    dest: Seq<u8>,
    archive: crate::archive::ArchiveView,
)
    requires
        upload_outcome(
            public_address,
            uuid,
            is_dir,
            empty,
            crate::archive::extraction_plan(dest, archive).1,
        ) matches Ok((n, _)) && n >= 1,
    ensures
        exists|k: int|
            0 <= k < crate::archive::extraction_plan(dest, archive).0.len() && (
            #[trigger] crate::archive::extraction_plan(dest, archive).0[k]) is WriteFile
                && crate::archive::lies_inside(
                dest,
                crate::archive::step_target(crate::archive::extraction_plan(dest, archive).0[k]),
            ),
        forall|later: Result<nat, ExtractError>|
            #[trigger] upload_outcome(public_address, uuid, true, Some(false), later) == Err::<
                (nat, Seq<char>),
                (u16, Seq<char>),
            >((409u16, already_uploaded())),
{
    let plan = crate::archive::extraction_plan(dest, archive);
    lemma_upload_answers(public_address, uuid, is_dir, empty, plan.1);
    crate::archive::lemma_successful_extraction_writes(dest, archive);
    assert forall|later: Result<nat, ExtractError>|
        #[trigger] upload_outcome(public_address, uuid, true, Some(false), later) == Err::<
            (nat, Seq<char>),
            (u16, Seq<char>),
        >((409u16, already_uploaded())) by {
        lemma_upload_answers(public_address, uuid, true, Some(false), later);
    }
}

/// The messages that refusals carry.
pub proof fn lemma_refusal_messages()
    ensures
        not_allocated() == "UUID not allocated"@,
        already_uploaded() == "UUID already has uploaded content"@,
        unreadable_allocation() == "failed to read allocation directory"@,
        extraction_failed() == "failed to extract upload archive"@,
        path_traversal() == "path traversal detected"@,
        allocation_failed() == "failed to create allocation directory"@,
{
}

} // verus!
