//! Extraction of an uploaded `.tar.gz` archive: reading its members, and the
//! plan of directory creations and file writes that places them under the
//! destination directory.

use std::io::Read;

use vstd::prelude::*;

use crate::paths::{components, escapes, is_normal_component, is_rooted, sanitize_tar_path, sanitized, SLASH};

verus! {

/// Why an upload archive could not be extracted.
#[derive(Clone, Copy, PartialEq, Eq, Structural, Debug)]
pub enum ExtractError {
    /// The data is not a readable archive.
    UnreadableArchive,
    /// A member header could not be read.
    InvalidEntry,
    /// A member path is absolute or has a `..` component.
    PathTraversal,
    /// The contents of a member could not be read.
    UnreadableEntry,
    /// A directory named by the archive could not be created.
    CreateDirectory,
    /// The parent directories of a file could not be created.
    CreateParentDirectory,
    /// A file could not be written.
    WriteFile,
}

impl ExtractError {
    /// The error text.
    pub fn message(&self) -> (r: &'static str)
        ensures
            *self == ExtractError::PathTraversal ==> r@ == "path traversal detected"@,
            *self == ExtractError::UnreadableArchive ==> r@ == "invalid tar.gz archive"@,
            *self == ExtractError::InvalidEntry ==> r@ == "invalid tar entry"@,
            *self == ExtractError::UnreadableEntry ==> r@ == "failed to read tar entry"@,
            *self == ExtractError::CreateDirectory ==> r@
                == "failed to create directory from archive"@,
            *self == ExtractError::CreateParentDirectory ==> r@
                == "failed to create parent directory"@,
            *self == ExtractError::WriteFile ==> r@ == "failed to write extracted file"@,
    {
        match self {
            ExtractError::UnreadableArchive => "invalid tar.gz archive",
            ExtractError::InvalidEntry => "invalid tar entry",
            ExtractError::PathTraversal => "path traversal detected",
            ExtractError::UnreadableEntry => "failed to read tar entry",
            ExtractError::CreateDirectory => "failed to create directory from archive",
            ExtractError::CreateParentDirectory => "failed to create parent directory",
            ExtractError::WriteFile => "failed to write extracted file",
        }
    }
}

/// One member of an archive, as read.
pub struct ArchiveEntry {
    /// The member's path, as bytes.
    pub path: Vec<u8>,
    /// Whether the member is a directory.
    pub is_dir: bool,
    /// The member's contents, or `None` where they could not be read.
    pub contents: Option<Vec<u8>>,
}

/// A member of an archive as plain values.
pub struct EntryView {
    pub path: Seq<u8>,
    pub is_dir: bool,
    pub contents: Option<Seq<u8>>,
}

impl View for ArchiveEntry {
    type V = EntryView;

    open spec fn view(&self) -> EntryView {
        EntryView {
            path: self.path@,
            is_dir: self.is_dir,
            contents: match self.contents {
                Some(c) => Some(c@),
                None => None,
            },
        }
    }
}

/// The members read from an archive, in order, and the failure that ended the
/// reading, if one did.
pub struct DecodedArchive {
    pub entries: Vec<ArchiveEntry>,
    pub failure: Option<ExtractError>,
}

/// A read archive as plain values.
pub struct ArchiveView {
    pub entries: Seq<EntryView>,
    pub failure: Option<ExtractError>,
}

impl View for DecodedArchive {
    type V = ArchiveView;

    open spec fn view(&self) -> ArchiveView {
        ArchiveView {
            entries: self.entries@.map_values(|e: ArchiveEntry| e@),
            failure: self.failure,
        }
    }
}

/// The failures that can end the reading of an archive.
pub open spec fn is_reading_failure(f: Option<ExtractError>) -> bool {
    f is None || f == Some(ExtractError::UnreadableArchive) || f == Some(ExtractError::InvalidEntry)
}

/// What the members of the gzip-compressed tar archive `data` read as.
pub uninterp spec fn tar_gz_members(data: Seq<u8>) -> ArchiveView;

/// Reads the members of the gzip-compressed tar archive `data` with
/// `tar::Archive` over `flate2::read::GzDecoder`, in order: each member's raw
/// path (`Entry::path_bytes`, which `Entry::path` is on Unix), whether it is a
/// directory, and its contents. The contract says that the result is a
/// function of `data`, and that reading ends either with all members read or
/// with the archive or a member header found unreadable (the only two
/// failures the body produces); it does not say how `tar` and `flate2`
/// decode.
#[verifier::external_body]
fn read_tar_gz(data: &[u8]) -> (r: DecodedArchive)
    ensures
        r@ == tar_gz_members(data@),
        is_reading_failure(r@.failure),
{
    let mut archive = tar::Archive::new(flate2::read::GzDecoder::new(data));
    let mut entries = Vec::new();
    let Ok(members) = archive.entries() else {
        return DecodedArchive { entries, failure: Some(ExtractError::UnreadableArchive) };
    };
    for member in members {
        let Ok(mut member) = member else {
            return DecodedArchive { entries, failure: Some(ExtractError::InvalidEntry) };
        };
        let (path, is_dir) = (member.path_bytes().to_vec(), member.header().entry_type().is_dir());
        let mut buffer = Vec::new();
        let readable = member.read_to_end(&mut buffer).is_ok();
        entries.push(ArchiveEntry { path, is_dir, contents: readable.then_some(buffer) });
    }
    DecodedArchive { entries, failure: None }
}

/// One filesystem operation of an extraction.
pub enum ExtractStep {
    /// Create this directory and its parents.
    CreateDir(Vec<u8>),
    /// Create the parent directories of this path.
    CreateParentDirs(Vec<u8>),
    /// Write to this path the contents of the member with this index.
    WriteFile(Vec<u8>, usize),
}

/// An extraction step as plain values.
pub enum StepView {
    CreateDir(Seq<u8>),
    CreateParentDirs(Seq<u8>),
    WriteFile(Seq<u8>, nat),
}

impl View for ExtractStep {
    type V = StepView;

    open spec fn view(&self) -> StepView {
        match self {
            ExtractStep::CreateDir(p) => StepView::CreateDir(p@),
            ExtractStep::CreateParentDirs(p) => StepView::CreateParentDirs(p@),
            ExtractStep::WriteFile(p, i) => StepView::WriteFile(p@, *i as nat),
        }
    }
}

impl ExtractStep {
    /// The error that stops the extraction where this step fails.
    pub fn failure(&self) -> (r: ExtractError)
        ensures
            r == match self@ {
                StepView::CreateDir(_) => ExtractError::CreateDirectory,
                StepView::CreateParentDirs(_) => ExtractError::CreateParentDirectory,
                StepView::WriteFile(_, _) => ExtractError::WriteFile,
            },
    {
        match self {
            ExtractStep::CreateDir(_) => ExtractError::CreateDirectory,
            ExtractStep::CreateParentDirs(_) => ExtractError::CreateParentDirectory,
            ExtractStep::WriteFile(_, _) => ExtractError::WriteFile,
        }
    }
}

/// The path of a step.
pub open spec fn step_target(s: StepView) -> Seq<u8> {
    match s {
        StepView::CreateDir(p) => p,
        StepView::CreateParentDirs(p) => p,
        StepView::WriteFile(p, _) => p,
    }
}

/// `Path::join` of a relative path onto `dest`: a separator is added unless
/// `dest` is empty or already ends with one; an absolute `rel` replaces
/// `dest`.
pub open spec fn join_path(dest: Seq<u8>, rel: Seq<u8>) -> Seq<u8> {
    if is_rooted(rel) {
        rel
    } else if dest.len() > 0 && dest.last() != SLASH {
        dest + seq![SLASH] + rel
    } else {
        dest + rel
    }
}

/// The steps for one member and the extraction's state after it: the
/// number of files written so far, or the error that stops it.
pub open spec fn entry_plan(dest: Seq<u8>, e: EntryView, index: nat, files: nat) -> (
    Seq<StepView>,
    Result<nat, ExtractError>,
) {
    match sanitized(e.path) {
        None => (seq![], Err(ExtractError::PathTraversal)),
        Some(rel) => {
            let target = join_path(dest, rel);
            if e.is_dir {
                (seq![StepView::CreateDir(target)], Ok(files))
            } else if e.contents is None {
                (seq![StepView::CreateParentDirs(target)], Err(ExtractError::UnreadableEntry))
            } else {
                (
                    seq![StepView::CreateParentDirs(target), StepView::WriteFile(target, index)],
                    Ok(files + 1),
                )
            }
        },
    }
}

/// The steps for the members `es`, in order, up to the first that fails.
pub open spec fn plan_prefix(dest: Seq<u8>, es: Seq<EntryView>) -> (
    Seq<StepView>,
    Result<nat, ExtractError>,
)
    decreases es.len(),
{
    if es.len() == 0 {
        (seq![], Ok(0))
    } else {
        let (steps, state) = plan_prefix(dest, es.drop_last());
        match state {
            Err(e) => (steps, Err(e)),
            Ok(files) => {
                let (more, next) = entry_plan(dest, es.last(), (es.len() - 1) as nat, files);
                (steps + more, next)
            },
        }
    }
}

/// The extraction of a read archive into `dest`: its steps, and the number of
/// files written or the error that ends it.
pub open spec fn extraction_plan(dest: Seq<u8>, a: ArchiveView) -> (
    Seq<StepView>,
    Result<nat, ExtractError>,
) {
    let (steps, state) = plan_prefix(dest, a.entries);
    (
        steps,
        match state {
            Err(e) => Err(e),
            Ok(files) => match a.failure {
                Some(f) => Err(f),
                None => Ok(files),
            },
        },
    )
}

/// The operations of an extraction and how it ends when they all succeed.
pub struct ExtractionPlan {
    pub steps: Vec<ExtractStep>,
    pub outcome: Result<usize, ExtractError>,
}

impl ExtractionPlan {
    /// How the extraction ended, given the index of the step that failed, if
    /// one did: the error of that step, else the plan's own outcome.
    pub fn result_after(&self, failed_step: Option<usize>) -> (r: Result<usize, ExtractError>)
        requires
            failed_step matches Some(i) ==> i < self.steps@.len(),
        ensures
            r == match failed_step {
                Some(i) => Err(match self.steps@[i as int]@ {
                    StepView::CreateDir(_) => ExtractError::CreateDirectory,
                    StepView::CreateParentDirs(_) => ExtractError::CreateParentDirectory,
                    StepView::WriteFile(_, _) => ExtractError::WriteFile,
                }),
                None => self.outcome,
            },
    {
        match failed_step {
            Some(i) => Err(self.steps[i].failure()),
            None => self.outcome,
        }
    }
}

/// The outcome of a plan as plain values.
pub open spec fn outcome_view(r: Result<usize, ExtractError>) -> Result<nat, ExtractError> {
    match r {
        Ok(n) => Ok(n as nat),
        Err(e) => Err(e),
    }
}

/// `Path::join` of `rel` onto `dest`.
pub fn join_path_bytes(dest: &[u8], rel: &[u8]) -> (r: Vec<u8>)
    ensures
        r@ == join_path(dest@, rel@),
        !(rel@.len() > 0 && rel@[0] == 47u8) && dest@.len() > 0 && dest@.last() != 47u8 ==> r@
            == dest@ + seq![47u8] + rel@,
{
    let mut out: Vec<u8> = Vec::new();
    if rel.len() > 0 && rel[0] == 47u8 {
        out.extend_from_slice(rel);
        assert(out@ =~= rel@);
        return out;
    }
    out.extend_from_slice(dest);
    if dest.len() > 0 && dest[dest.len() - 1] != 47u8 {
        out.push(47u8);
    }
    let ghost before = out@;
    out.extend_from_slice(rel);
    if dest.len() > 0 && dest[dest.len() - 1] != 47u8 {
        assert(out@ =~= dest@ + seq![SLASH] + rel@);
    } else {
        assert(out@ =~= dest@ + rel@);
    }
    out
}

/// A sequence of steps as plain values.
pub open spec fn steps_view(s: Seq<ExtractStep>) -> Seq<StepView> {
    s.map_values(|x: ExtractStep| x@)
}

/// Once an extraction has stopped, later members change nothing.
proof fn lemma_plan_stops(dest: Seq<u8>, es: Seq<EntryView>, j: int, k: int)
    requires
        0 <= j <= k <= es.len(),
        plan_prefix(dest, es.take(j)).1 is Err,
    ensures
        plan_prefix(dest, es.take(k)) == plan_prefix(dest, es.take(j)),
    decreases k - j,
{
    if k > j {
        lemma_plan_stops(dest, es, j, k - 1);
        assert(es.take(k).drop_last() =~= es.take(k - 1));
    }
}

/// Plans the extraction of a read archive into the directory `dest`.
pub fn plan_extraction(dest: &[u8], archive: &DecodedArchive) -> (p: ExtractionPlan)
    ensures
        (steps_view(p.steps@), outcome_view(p.outcome)) == extraction_plan(dest@, archive@),
{
    let n = archive.entries.len();
    let ghost es = archive@.entries;
    let mut steps: Vec<ExtractStep> = Vec::new();
    let mut files: usize = 0;
    assert(es.take(0) =~= Seq::<EntryView>::empty());
    assert(steps_view(steps@) =~= Seq::<StepView>::empty());
    let mut i: usize = 0;
    while i < n
        invariant
            i <= n,
            n == archive.entries@.len(),
            es == archive@.entries,
            es.len() == n,
            files <= i,
            plan_prefix(dest@, es.take(i as int)) == (steps_view(steps@), Ok::<nat, ExtractError>(
                files as nat,
            )),
        decreases n - i,
    {
        let e = &archive.entries[i];
        assert(es[i as int] == e@);
        assert(es.take(i + 1).drop_last() =~= es.take(i as int));
        assert(es.take(i + 1).last() == e@);
        let ghost before = steps@;
        match sanitize_tar_path(e.path.as_slice()) {
            Err(_) => {
                proof {
                    lemma_plan_stops(dest@, es, i + 1, n as int);
                    assert(es.take(n as int) =~= es);
                }
                return ExtractionPlan { steps, outcome: Err(ExtractError::PathTraversal) };
            },
            Ok(rel) => {
                let target = join_path_bytes(dest, rel.as_slice());
                if e.is_dir {
                    steps.push(ExtractStep::CreateDir(target));
                    assert(steps_view(steps@) =~= steps_view(before).push(steps@.last()@));
                } else if e.contents.is_none() {
                    steps.push(ExtractStep::CreateParentDirs(target));
                    assert(steps_view(steps@) =~= steps_view(before) + seq![steps@.last()@]);
                    proof {
                        lemma_plan_stops(dest@, es, i + 1, n as int);
                        assert(es.take(n as int) =~= es);
                    }
                    return ExtractionPlan { steps, outcome: Err(ExtractError::UnreadableEntry) };
                } else {
                    let parent_target = target.clone();
                    assert(parent_target@ =~= target@);
                    steps.push(ExtractStep::CreateParentDirs(parent_target));
                    steps.push(ExtractStep::WriteFile(target, i));
                    assert(steps_view(steps@) =~= steps_view(before) + seq![
                        steps@[steps@.len() - 2]@,
                        steps@[steps@.len() - 1]@,
                    ]);
                    files = files + 1;
                }
            },
        }
        i = i + 1;
    }
    assert(es.take(n as int) =~= es);
    match archive.failure {
        Some(f) => ExtractionPlan { steps, outcome: Err(f) },
        None => ExtractionPlan { steps, outcome: Ok(files) },
    }
}

/// Reads the uploaded archive `data` and plans its extraction into `dest`.
/// The members come back with the plan: the file writes of the plan take
/// their contents from them.
pub fn prepare_extraction(dest: &[u8], data: &[u8]) -> (r: (DecodedArchive, ExtractionPlan))
    ensures
        r.0@ == tar_gz_members(data@),
        is_reading_failure(r.0@.failure),
        (steps_view(r.1.steps@), outcome_view(r.1.outcome)) == extraction_plan(dest@, r.0@),
{
    let archive = read_tar_gz(data);
    let plan = plan_extraction(dest, &archive);
    (archive, plan)
}

/// A relative path made of named components only.
pub open spec fn is_contained_relative(rel: Seq<u8>) -> bool {
    &&& !is_rooted(rel)
    &&& forall|k: int|
        0 <= k < components(rel).len() ==> is_normal_component(#[trigger] components(rel)[k])
}

/// `t` is `dest` joined with a relative path of named components only.
pub open spec fn lies_inside(dest: Seq<u8>, t: Seq<u8>) -> bool {
    exists|rel: Seq<u8>| is_contained_relative(rel) && t == join_path(dest, rel)
}

/// The number of members of `es` that are not directories.
pub open spec fn file_count(es: Seq<EntryView>) -> nat
    decreases es.len(),
{
    if es.len() == 0 {
        0
    } else {
        file_count(es.drop_last()) + if es.last().is_dir {
            0nat
        } else {
            1nat
        }
    }
}

/// A member that extraction accepts: its path stays inside, and it is a
/// directory or its contents could be read.
pub open spec fn member_extractable(e: EntryView) -> bool {
    !escapes(e.path) && (e.is_dir || e.contents is Some)
}

/// What a plan over members `es` guarantees.
proof fn lemma_plan_prefix_facts(dest: Seq<u8>, es: Seq<EntryView>)
    ensures
        forall|k: int|
            0 <= k < plan_prefix(dest, es).0.len() ==> lies_inside(
                dest,
                step_target(#[trigger] plan_prefix(dest, es).0[k]),
            ),
        forall|k: int|
            0 <= k < plan_prefix(dest, es).0.len() ==> match #[trigger] plan_prefix(dest, es).0[k] {
                StepView::WriteFile(_, idx) => idx < es.len() && !es[idx as int].is_dir
                    && es[idx as int].contents is Some,
                _ => true,
            },
        plan_prefix(dest, es).1 is Ok ==> {
            &&& plan_prefix(dest, es).1->Ok_0 == file_count(es)
            &&& forall|k: int| 0 <= k < es.len() ==> #[trigger] member_extractable(es[k])
        },
        plan_prefix(dest, es).1 == Err::<nat, ExtractError>(ExtractError::PathTraversal) ==> exists|
            k: int,
        |
            0 <= k < es.len() && escapes(#[trigger] es[k].path),
        plan_prefix(dest, es).1 is Err ==> (plan_prefix(dest, es).1->Err_0
            == ExtractError::PathTraversal || plan_prefix(dest, es).1->Err_0
            == ExtractError::UnreadableEntry),
    decreases es.len(),
{
    if es.len() > 0 {
        let init = es.drop_last();
        lemma_plan_prefix_facts(dest, init);
        let (steps, state) = plan_prefix(dest, init);
        let e = es.last();
        if state == Err::<nat, ExtractError>(ExtractError::PathTraversal) {
            let k = choose|k: int| 0 <= k < init.len() && escapes(#[trigger] init[k].path);
            assert(es[k] == init[k]);
        }
        if let Ok(files) = state {
            let (more, next) = entry_plan(dest, e, (es.len() - 1) as nat, files);
            if let Some(rel) = sanitized(e.path) {
                crate::paths::lemma_sanitized_stays_inside(e.path);
                assert(is_contained_relative(rel));
                assert(lies_inside(dest, join_path(dest, rel)));
            }
            let all = steps + more;
            assert(plan_prefix(dest, es) == (all, next));
            if next == Err::<nat, ExtractError>(ExtractError::PathTraversal) {
                assert(es[es.len() - 1] == e);
                assert(escapes(es[es.len() - 1].path));
            }
            assert forall|k: int| 0 <= k < all.len() implies lies_inside(
                dest,
                step_target(#[trigger] all[k]),
            ) && match all[k] {
                StepView::WriteFile(_, idx) => idx < es.len() && !es[idx as int].is_dir
                    && es[idx as int].contents is Some,
                _ => true,
            } by {
                if k < steps.len() {
                    assert(all[k] == steps[k]);
                    if let StepView::WriteFile(_, idx) = steps[k] {
                        assert(es[idx as int] == init[idx as int]);
                    }
                } else {
                    assert(all[k] == more[k - steps.len()]);
                }
            }
            if next is Ok {
                assert(es[es.len() - 1] == e);
                assert(sanitized(e.path) is Some);
                assert(!escapes(e.path));
                assert(next->Ok_0 == file_count(es));
                assert forall|k: int| 0 <= k < es.len() implies #[trigger] member_extractable(
                    es[k],
                ) by {
                    if k < init.len() {
                        assert(es[k] == init[k]);
                    }
                }
            }
        }
    }
}

/// Every operation of an extraction acts on a path inside the destination,
/// and every file it writes comes from a readable member that is not a
/// directory.
pub proof fn lemma_extraction_stays_inside(dest: Seq<u8>, a: ArchiveView)
    ensures
        forall|k: int|
            0 <= k < extraction_plan(dest, a).0.len() ==> lies_inside(
                dest,
                step_target(#[trigger] extraction_plan(dest, a).0[k]),
            ),
        forall|k: int|
            0 <= k < extraction_plan(dest, a).0.len() ==> match #[trigger] extraction_plan(
                dest,
                a,
            ).0[k] {
                StepView::WriteFile(_, idx) => idx < a.entries.len() && !a.entries[idx as int].is_dir
                    && a.entries[idx as int].contents is Some,
                _ => true,
            },
{
    lemma_plan_prefix_facts(dest, a.entries);
}

/// An archive with an absolute member path or a member path with a `..`
/// component is never extracted in full: the extraction fails.
pub proof fn lemma_escaping_member_refused(dest: Seq<u8>, a: ArchiveView, i: int)
    requires
        0 <= i < a.entries.len(),
        escapes(a.entries[i].path),
    ensures
        extraction_plan(dest, a).1 is Err,
{
    lemma_plan_prefix_facts(dest, a.entries);
    if extraction_plan(dest, a).1 is Ok {
        assert(member_extractable(a.entries[i]));
    }
}

/// An extraction that succeeds read the whole archive, found no member that
/// escapes, and reports as its count the number of members that are not
/// directories.
pub proof fn lemma_successful_extraction(dest: Seq<u8>, a: ArchiveView)
    requires
        extraction_plan(dest, a).1 is Ok,
    ensures
        a.failure is None,
        extraction_plan(dest, a).1->Ok_0 == file_count(a.entries),
        forall|k: int| 0 <= k < a.entries.len() ==> #[trigger] member_extractable(a.entries[k]),
{
    lemma_plan_prefix_facts(dest, a.entries);
}

/// An upload archive is refused as a path traversal only where one of its
/// members has an absolute path or a `..` component: a failure to read the
/// archive, a member or the filesystem is never reported as one.
pub proof fn lemma_traversal_only_for_escaping_member(dest: Seq<u8>, a: ArchiveView)
    requires
        is_reading_failure(a.failure),
        extraction_plan(dest, a).1 == Err::<nat, ExtractError>(ExtractError::PathTraversal),
    ensures
        exists|k: int| 0 <= k < a.entries.len() && escapes(#[trigger] a.entries[k].path),
{
    lemma_plan_prefix_facts(dest, a.entries);
}

/// The member indices of the file writes among `steps`, in order.
pub open spec fn written(steps: Seq<StepView>) -> Seq<nat>
    decreases steps.len(),
{
    if steps.len() == 0 {
        seq![]
    } else {
        written(steps.drop_last()) + match steps.last() {
            StepView::WriteFile(_, i) => seq![i],
            _ => seq![],
        }
    }
}

/// The indices of the members of `es` that are not directories, in order.
pub open spec fn file_indices(es: Seq<EntryView>) -> Seq<nat>
    decreases es.len(),
{
    if es.len() == 0 {
        seq![]
    } else {
        file_indices(es.drop_last()) + if es.last().is_dir {
            seq![]
        } else {
            seq![(es.len() - 1) as nat]
        }
    }
}

/// The writes of two runs of steps are those of each, in order.
proof fn lemma_written_append(a: Seq<StepView>, b: Seq<StepView>)
    ensures
        written(a + b) == written(a) + written(b),
    decreases b.len(),
{
    if b.len() == 0 {
        assert(a + b =~= a);
        assert(written(a) + written(b) =~= written(a));
    } else {
        lemma_written_append(a, b.drop_last());
        assert((a + b).drop_last() =~= a + b.drop_last());
        assert((a + b).last() == b.last());
        let tail = match b.last() {
            StepView::WriteFile(_, i) => seq![i],
            _ => seq![],
        };
        assert(written(a) + written(b.drop_last()) + tail =~= written(a) + (written(b.drop_last())
            + tail));
    }
}

/// There are as many file members as `file_count` says.
proof fn lemma_file_indices_len(es: Seq<EntryView>)
    ensures
        file_indices(es).len() == file_count(es),
    decreases es.len(),
{
    if es.len() > 0 {
        lemma_file_indices_len(es.drop_last());
    }
}

/// Steps with a write among them hold a file write.
proof fn lemma_written_has_write(steps: Seq<StepView>)
    requires
        written(steps).len() > 0,
    ensures
        exists|k: int| 0 <= k < steps.len() && (#[trigger] steps[k]) is WriteFile,
    decreases steps.len(),
{
    if steps.len() > 0 {
        if steps.last() is WriteFile {
            assert(steps[steps.len() - 1] is WriteFile);
        } else {
            lemma_written_has_write(steps.drop_last());
            let k = choose|k: int| 0 <= k < steps.len() - 1 && (#[trigger] steps.drop_last()[k]) is WriteFile;
            assert(steps[k] == steps.drop_last()[k]);
        }
    }
}

/// The file writes of a plan, and when a plan goes through every member.
proof fn lemma_plan_prefix_writes(dest: Seq<u8>, es: Seq<EntryView>)
    ensures
        plan_prefix(dest, es).1 is Ok ==> written(plan_prefix(dest, es).0) == file_indices(es),
        (forall|k: int| 0 <= k < es.len() ==> #[trigger] member_extractable(es[k])) ==> plan_prefix(
            dest,
            es,
        ).1 == Ok::<nat, ExtractError>(file_count(es)),
    decreases es.len(),
{
    if es.len() > 0 {
        let init = es.drop_last();
        lemma_plan_prefix_writes(dest, init);
        let (steps, state) = plan_prefix(dest, init);
        let e = es.last();
        assert(es[es.len() - 1] == e);
        if forall|k: int| 0 <= k < es.len() ==> #[trigger] member_extractable(es[k]) {
            assert forall|k: int| 0 <= k < init.len() implies #[trigger] member_extractable(
                init[k],
            ) by {
                assert(init[k] == es[k]);
                assert(member_extractable(es[k]));
            }
            assert(member_extractable(es[es.len() - 1]));
        }
        if let Ok(files) = state {
            let (more, next) = entry_plan(dest, e, (es.len() - 1) as nat, files);
            assert(plan_prefix(dest, es) == (steps + more, next));
            lemma_written_append(steps, more);
            if next is Ok {
                let rel = sanitized(e.path)->Some_0;
                let t = join_path(dest, rel);
                assert(written(Seq::<StepView>::empty()) =~= Seq::<nat>::empty());
                if e.is_dir {
                    assert(more == seq![StepView::CreateDir(t)]);
                    assert(more.drop_last() =~= Seq::<StepView>::empty());
                    assert(written(more) =~= Seq::<nat>::empty());
                    assert(written(steps) + written(more) =~= file_indices(es));
                } else {
                    assert(more == seq![
                        StepView::CreateParentDirs(t),
                        StepView::WriteFile(t, (es.len() - 1) as nat),
                    ]);
                    assert(more.drop_last() =~= seq![more[0]]);
                    assert(seq![more[0]].drop_last() =~= Seq::<StepView>::empty());
                    assert(written(seq![more[0]]) =~= Seq::<nat>::empty());
                    assert(written(more) =~= seq![(es.len() - 1) as nat]);
                }
            }
        }
    }
}

/// An archive read in full whose members are all acceptable is extracted in
/// full: the extraction reports the number of members that are not
/// directories, and writes exactly those members, one file write each, in
/// the order of the archive.
pub proof fn lemma_full_extraction(dest: Seq<u8>, a: ArchiveView)
    requires
        a.failure is None,
        forall|k: int| 0 <= k < a.entries.len() ==> #[trigger] member_extractable(a.entries[k]),
    ensures
        extraction_plan(dest, a).1 == Ok::<nat, ExtractError>(file_count(a.entries)),
        written(extraction_plan(dest, a).0) == file_indices(a.entries),
{
    lemma_plan_prefix_writes(dest, a.entries);
}

/// An extraction that succeeds with at least one file writes a file inside
/// the destination.
pub proof fn lemma_successful_extraction_writes(dest: Seq<u8>, a: ArchiveView)
    requires
        extraction_plan(dest, a).1 matches Ok(n) && n >= 1,
    ensures
        exists|k: int|
            0 <= k < extraction_plan(dest, a).0.len() && (#[trigger] extraction_plan(dest, a).0[k])
                is WriteFile && lies_inside(dest, step_target(extraction_plan(dest, a).0[k])),
{
    lemma_plan_prefix_facts(dest, a.entries);
    lemma_plan_prefix_writes(dest, a.entries);
    lemma_file_indices_len(a.entries);
    let steps = extraction_plan(dest, a).0;
    lemma_written_has_write(steps);
    let k = choose|k: int| 0 <= k < steps.len() && (#[trigger] steps[k]) is WriteFile;
    assert(lies_inside(dest, step_target(steps[k])));
}

/// The first member whose path escapes stops the extraction: when the
/// members before it are all acceptable, the extraction is refused as a path
/// traversal, its steps are exactly those for the members before it, and
/// nothing is planned for it or any later member.
pub proof fn lemma_first_escape_stops(dest: Seq<u8>, a: ArchiveView, i: int)
    requires
        0 <= i < a.entries.len(),
        escapes(a.entries[i].path),
        forall|j: int| 0 <= j < i ==> #[trigger] member_extractable(a.entries[j]),
    ensures
        extraction_plan(dest, a).1 == Err::<nat, ExtractError>(ExtractError::PathTraversal),
        extraction_plan(dest, a).0 == plan_prefix(dest, a.entries.take(i)).0,
        written(extraction_plan(dest, a).0) == file_indices(a.entries.take(i)),
{
    let es = a.entries;
    let before = es.take(i);
    assert forall|j: int| 0 <= j < before.len() implies #[trigger] member_extractable(before[j]) by {
        assert(before[j] == es[j]);
        assert(member_extractable(es[j]));
    }
    lemma_plan_prefix_writes(dest, before);
    assert(es.take(i + 1).drop_last() =~= before);
    assert(es.take(i + 1).last() == es[i]);
    assert(sanitized(es[i].path) is None);
    lemma_plan_stops(dest, es, i + 1, es.len() as int);
    assert(es.take(es.len() as int) =~= es);
}

/// Joining is `Path::join`: a relative path is appended to a destination
/// that is non-empty and does not end with `/` after exactly one `/`; to a
/// destination that ends with `/` (or is empty) it is appended as it is; an
/// absolute path replaces the destination.
pub proof fn lemma_join_path_is_path_join(dest: Seq<u8>, rel: Seq<u8>)
    ensures
        !(rel.len() > 0 && rel[0] == 47u8) && dest.len() > 0 && dest.last() != 47u8 ==> join_path(
            dest,
            rel,
        ) == dest + seq![47u8] + rel,
        !(rel.len() > 0 && rel[0] == 47u8) && (dest.len() == 0 || dest.last() == 47u8)
            ==> join_path(dest, rel) == dest + rel,
        (rel.len() > 0 && rel[0] == 47u8) ==> join_path(dest, rel) == rel,
{
}

/// Where each file goes: every file write of an extraction into a
/// destination that is non-empty and does not end with `/` writes the member
/// it names at the destination, one `/`, and the member's normalised path.
pub proof fn lemma_write_targets(dest: Seq<u8>, a: ArchiveView, k: int)
    requires
        dest.len() > 0,
        dest.last() != 47u8,
        0 <= k < extraction_plan(dest, a).0.len(),
        extraction_plan(dest, a).0[k] is WriteFile,
    ensures
        ({
            let idx = extraction_plan(dest, a).0[k]->WriteFile_1;
            let t = extraction_plan(dest, a).0[k]->WriteFile_0;
            &&& idx < a.entries.len()
            &&& sanitized(a.entries[idx as int].path) is Some
            &&& t == dest + seq![47u8] + sanitized(a.entries[idx as int].path)->Some_0
        }),
{
    lemma_plan_targets(dest, a.entries);
    let idx = extraction_plan(dest, a).0[k]->WriteFile_1;
    let rel = sanitized(a.entries[idx as int].path)->Some_0;
    crate::paths::lemma_sanitized_stays_inside(a.entries[idx as int].path);
    if rel.len() > 0 {
        assert(rel[0] != 47u8);
    }
}

/// Each file write of a plan names its member and writes it at the
/// destination joined with the member's normalised path.
proof fn lemma_plan_targets(dest: Seq<u8>, es: Seq<EntryView>)
    ensures
        forall|k: int|
            0 <= k < plan_prefix(dest, es).0.len() ==> match #[trigger] plan_prefix(dest, es).0[k] {
                StepView::WriteFile(t, idx) => idx < es.len() && sanitized(es[idx as int].path)
                    is Some && t == join_path(dest, sanitized(es[idx as int].path)->Some_0),
                _ => true,
            },
    decreases es.len(),
{
    if es.len() > 0 {
        let init = es.drop_last();
        lemma_plan_targets(dest, init);
        let (steps, state) = plan_prefix(dest, init);
        let e = es.last();
        if let Ok(files) = state {
            let (more, next) = entry_plan(dest, e, (es.len() - 1) as nat, files);
            let all = steps + more;
            assert(plan_prefix(dest, es) == (all, next));
            assert forall|k: int| 0 <= k < all.len() implies match #[trigger] all[k] {
                StepView::WriteFile(t, idx) => idx < es.len() && sanitized(es[idx as int].path)
                    is Some && t == join_path(dest, sanitized(es[idx as int].path)->Some_0),
                _ => true,
            } by {
                if k < steps.len() {
                    assert(all[k] == steps[k]);
                    if let StepView::WriteFile(_, idx) = steps[k] {
                        assert(es[idx as int] == init[idx as int]);
                    }
                } else {
                    assert(all[k] == more[k - steps.len()]);
                    assert(es[es.len() - 1] == e);
                }
            }
        }
    }
}

} // verus!
