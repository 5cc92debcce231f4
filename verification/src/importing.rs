//! Import pipeline orchestration: a bounded-concurrency job store for
//! multi-file document imports (`Pending -> Processing -> Complete | Failed`),
//! the per-file stepping of the pipeline with its cleanup-on-abort rule, and
//! the dispatch table from declared content types to conversion formats.
//!
//! The store owns the queue, the archive and the worker count; an unverified
//! driver loop reads the files, runs the external converter and feeds the
//! results back through the verified transitions.

use vstd::prelude::*;

verus! {

use crate::JobId;
use crate::text::str_eq_str;

/// Status of one import job; a closed, monotonic state machine.
#[derive(PartialEq, Eq, Structural, Clone, Copy, Debug)]
pub enum ImportStatus {
    Pending,
    Processing,
    Complete,
    Failed,
}

impl ImportStatus {
    /// Position in the one-directional state machine; both terminal statuses
    /// share the final position.
    pub open spec fn rank(self) -> int {
        match self {
            ImportStatus::Pending => 0,
            ImportStatus::Processing => 1,
            ImportStatus::Complete => 2,
            ImportStatus::Failed => 2,
        }
    }

    /// A terminal status is never left again.
    pub open spec fn is_terminal(self) -> bool {
        self is Complete || self is Failed
    }
}

/// Failure reasons of the import pipeline.
#[derive(PartialEq, Eq, Structural, Clone, Copy, Debug)]
pub enum ImportError {
    UnknownFileType,
    UnsupportedFileType,
    InvalidFile,
    BibFileInvalid,
    PandocError,
    HtmlConversionFailed,
}

/// The source formats the conversion step accepts, keyed by declared content
/// type.
#[derive(PartialEq, Eq, Structural, Clone, Copy, Debug)]
pub enum ConversionFormat {
    Latex,
    Odt,
    Docx,
    Doc,
    Epub,
    Rtf,
    Markdown,
}

/// The conversion format a declared content type selects; anything else is
/// unsupported and must be rejected before any converter runs.
pub open spec fn conversion_format_spec(ct: Seq<char>) -> Option<ConversionFormat> {
    if ct == "text/x-tex"@ || ct == "application/x-tex"@ {
        Some(ConversionFormat::Latex)
    } else if ct == "application/vnd.oasis.opendocument.text"@ {
        Some(ConversionFormat::Odt)
    } else if ct == "application/vnd.openxmlformats-officedocument.wordprocessingml.document"@ {
        Some(ConversionFormat::Docx)
    } else if ct == "application/msword"@ {
        Some(ConversionFormat::Doc)
    } else if ct == "application/epub+zip"@ {
        Some(ConversionFormat::Epub)
    } else if ct == "application/rtf"@ {
        Some(ConversionFormat::Rtf)
    } else if ct == "text/markdown"@ || ct == "text/x-markdown"@ {
        Some(ConversionFormat::Markdown)
    } else {
        None
    }
}

/// Maps a declared content type to the conversion format to use, or nothing
/// when the type is unsupported (in which case the caller reports
/// `UnsupportedFileType` without invoking any converter).
pub fn conversion_format(content_type: &str) -> (r: Option<ConversionFormat>)
    ensures
        r == conversion_format_spec(content_type@),
{
    if str_eq_str(content_type, "text/x-tex") || str_eq_str(content_type, "application/x-tex") {
        Some(ConversionFormat::Latex)
    } else if str_eq_str(content_type, "application/vnd.oasis.opendocument.text") {
        Some(ConversionFormat::Odt)
    } else if str_eq_str(
        content_type,
        "application/vnd.openxmlformats-officedocument.wordprocessingml.document",
    ) {
        Some(ConversionFormat::Docx)
    } else if str_eq_str(content_type, "application/msword") {
        Some(ConversionFormat::Doc)
    } else if str_eq_str(content_type, "application/epub+zip") {
        Some(ConversionFormat::Epub)
    } else if str_eq_str(content_type, "application/rtf") {
        Some(ConversionFormat::Rtf)
    } else if str_eq_str(content_type, "text/markdown") || str_eq_str(
        content_type,
        "text/x-markdown",
    ) {
        Some(ConversionFormat::Markdown)
    } else {
        None
    }
}

/// One file awaiting import: its temporary path and declared content type.
pub struct ImportFile {
    pub path: String,
    pub content_type: String,
}

impl Clone for ImportFile {
    fn clone(&self) -> (r: Self)
        ensures
            r == *self,
    {
        ImportFile { path: self.path.clone(), content_type: self.content_type.clone() }
    }
}

/// One import job, from enqueueing to its terminal status.
pub struct ImportJob {
    pub id: JobId,
    pub project_id: u128,
    pub length: usize,
    pub processed: usize,
    pub files_to_process: Vec<ImportFile>,
    pub bib_file: Option<String>,
    pub status: ImportStatus,
}

impl ImportJob {
    /// The processed count and the still-pending files never exceed the
    /// job's original file count.
    pub open spec fn wf(self) -> bool {
        self.processed + self.files_to_process@.len() <= self.length
    }

    /// Strictly fewer files recorded and pending than the original count, so
    /// one more success can be recorded.
    pub open spec fn can_record_more(self) -> bool {
        self.processed + self.files_to_process@.len() < self.length
    }

    /// The paths of the not-yet-processed files, in list order.
    pub open spec fn pending_paths(self) -> Seq<Seq<char>> {
        self.files_to_process@.map_values(|f: ImportFile| f.path@)
    }

    /// Equal in every field except the pending-file list.
    pub open spec fn eq_except_files(self, other: Self) -> bool {
        &&& self.id == other.id
        &&& self.project_id == other.project_id
        &&& self.length == other.length
        &&& self.processed == other.processed
        &&& self.bib_file == other.bib_file
        &&& self.status == other.status
    }

    /// Equal in every field except the processed count.
    pub open spec fn eq_except_processed(self, other: Self) -> bool {
        &&& self.id == other.id
        &&& self.project_id == other.project_id
        &&& self.length == other.length
        &&& self.files_to_process == other.files_to_process
        &&& self.bib_file == other.bib_file
        &&& self.status == other.status
    }

    /// Equal in every field except the status.
    pub open spec fn eq_except_status(self, other: Self) -> bool {
        &&& self.id == other.id
        &&& self.project_id == other.project_id
        &&& self.length == other.length
        &&& self.processed == other.processed
        &&& self.files_to_process == other.files_to_process
        &&& self.bib_file == other.bib_file
    }
}

/// Whether a job still occupies a worker once dispatched.
pub open spec fn active(j: ImportJob) -> bool {
    !j.status.is_terminal()
}

/// Number of non-terminal jobs in an archive; the running-worker count
/// mirrors exactly this quantity.
pub open spec fn count_active(s: Seq<ImportJob>) -> int
    decreases s.len(),
{
    if s.len() == 0 {
        0
    } else {
        count_active(s.drop_last()) + if active(s.last()) {
            1int
        } else {
            0int
        }
    }
}

proof fn lemma_count_active_nonneg(s: Seq<ImportJob>)
    ensures
        0 <= count_active(s) <= s.len(),
    decreases s.len(),
{
    if s.len() > 0 {
        lemma_count_active_nonneg(s.drop_last());
    }
}

proof fn lemma_count_active_update(s: Seq<ImportJob>, i: int, r: ImportJob)
    requires
        0 <= i < s.len(),
    ensures
        count_active(s.update(i, r)) == count_active(s) - (if active(s[i]) {
            1int
        } else {
            0int
        }) + (if active(r) {
            1int
        } else {
            0int
        }),
    decreases s.len(),
{
    let t = s.update(i, r);
    if i == s.len() - 1 {
        assert(t.drop_last() =~= s.drop_last());
        assert(t.last() == r);
    } else {
        assert(t.drop_last() =~= s.drop_last().update(i, r));
        assert(t.last() == s.last());
        lemma_count_active_update(s.drop_last(), i, r);
    }
}

/// No two jobs of the collection share an identity.
pub open spec fn ids_unique(s: Seq<ImportJob>) -> bool {
    forall|i: int, j: int|
        0 <= i < j < s.len() ==> (#[trigger] s[i]).id != (#[trigger] s[j]).id
}

/// Some job of the collection carries this identity.
pub open spec fn has_job(s: Seq<ImportJob>, id: JobId) -> bool {
    exists|i: int| 0 <= i < s.len() && (#[trigger] s[i]).id == id
}

/// Index of the job carrying this identity (unique when `ids_unique`).
pub open spec fn job_at(s: Seq<ImportJob>, id: JobId) -> int {
    choose|i: int| 0 <= i < s.len() && (#[trigger] s[i]).id == id
}

/// The status a query reports given the two containers: the archive is
/// consulted first, then the pending queue; an unknown identity reports
/// nothing.
pub open spec fn status_of(
    queue: Seq<ImportJob>,
    archive: Seq<ImportJob>,
    id: JobId,
) -> Option<ImportStatus> {
    if has_job(archive, id) {
        Some(archive[job_at(archive, id)].status)
    } else if has_job(queue, id) {
        Some(queue[job_at(queue, id)].status)
    } else {
        None
    }
}

proof fn lemma_job_at(s: Seq<ImportJob>, i: int)
    requires
        ids_unique(s),
        0 <= i < s.len(),
    ensures
        has_job(s, s[i].id),
        job_at(s, s[i].id) == i,
{
    assert(has_job(s, s[i].id));
    let j = job_at(s, s[i].id);
    if j < i {
        assert(s[j].id != s[i].id);
    } else if j > i {
        assert(s[i].id != s[j].id);
    }
}

/// Frame lemma: replacing the entry at `i` of the archive by a job with the
/// same identity changes only that identity's reported status.
proof fn lemma_status_after_update(
    queue: Seq<ImportJob>,
    archive: Seq<ImportJob>,
    i: int,
    r2: ImportJob,
)
    requires
        ids_unique(archive),
        0 <= i < archive.len(),
        r2.id == archive[i].id,
    ensures
        ids_unique(archive.update(i, r2)),
        status_of(queue, archive.update(i, r2), archive[i].id) == Some(r2.status),
        forall|id: JobId|
            id != archive[i].id ==> #[trigger] status_of(queue, archive.update(i, r2), id)
                == status_of(queue, archive, id),
{
    let a2 = archive.update(i, r2);
    let the_id = archive[i].id;
    assert(forall|k: int| 0 <= k < a2.len() ==> (#[trigger] a2[k]).id == archive[k].id);
    assert forall|x: int, y: int|
        0 <= x < y < a2.len() implies (#[trigger] a2[x]).id != (#[trigger] a2[y]).id by {
        assert(archive[x].id != archive[y].id);
    }
    lemma_job_at(a2, i);
    assert(status_of(queue, a2, the_id) == Some(r2.status));
    assert forall|id: JobId| id != the_id implies #[trigger] status_of(queue, a2, id) == status_of(
        queue,
        archive,
        id,
    ) by {
        if has_job(archive, id) {
            let k = job_at(archive, id);
            lemma_job_at(archive, k);
            assert(a2[k].id == id);
            lemma_job_at(a2, k);
            assert(k != i);
            assert(a2[k] == archive[k]);
        } else {
            assert(!has_job(a2, id)) by {
                if has_job(a2, id) {
                    let w = job_at(a2, id);
                    assert(archive[w].id == a2[w].id);
                }
            }
        }
    }
}

/// The import pipeline's service object: pending queue, archive of
/// dispatched jobs, and the bounded worker count.
pub struct ImportProcessor {
    pub max_import_threads: u64,
    pub running: u64,
    pub next_id: JobId,
    pub job_queue: Vec<ImportJob>,
    pub job_archive: Vec<ImportJob>,
}

impl ImportProcessor {
    /// The status a query reports for this identity.
    pub open spec fn status_spec(self, id: JobId) -> Option<ImportStatus> {
        status_of(self.job_queue@, self.job_archive@, id)
    }

    pub open spec fn known(self, id: JobId) -> bool {
        has_job(self.job_queue@, id) || has_job(self.job_archive@, id)
    }

    /// The archived job carrying this identity.
    pub open spec fn archived_job(self, id: JobId) -> ImportJob {
        self.job_archive@[job_at(self.job_archive@, id)]
    }

    /// Well-formedness: identities unique and disjoint between queue and
    /// archive, queued jobs still `Pending` and internally consistent, and
    /// the worker count equal to the number of non-terminal archived jobs
    /// and within the configured bound.
    pub open spec fn wf(self) -> bool {
        &&& ids_unique(self.job_queue@)
        &&& ids_unique(self.job_archive@)
        &&& forall|i: int, j: int|
            0 <= i < self.job_queue@.len() && 0 <= j < self.job_archive@.len() ==> (
            #[trigger] self.job_queue@[i]).id != (#[trigger] self.job_archive@[j]).id
        &&& forall|i: int|
            0 <= i < self.job_queue@.len() ==> (#[trigger] self.job_queue@[i]).status is Pending
                && self.job_queue@[i].wf()
        &&& forall|i: int|
            0 <= i < self.job_archive@.len() ==> (#[trigger] self.job_archive@[i]).wf()
        &&& forall|i: int|
            0 <= i < self.job_queue@.len() ==> (#[trigger] self.job_queue@[i]).id < self.next_id
        &&& forall|i: int|
            0 <= i < self.job_archive@.len() ==> (#[trigger] self.job_archive@[i]).id
                < self.next_id
        &&& self.running as int == count_active(self.job_archive@)
        &&& self.running <= self.max_import_threads
    }

    /// How one observable history step may change reported statuses: no
    /// status disappears, ranks never decrease, and a terminal status is
    /// frozen.
    pub open spec fn status_order_ok(
        pre: Option<ImportStatus>,
        post: Option<ImportStatus>,
    ) -> bool {
        match pre {
            Option::None => true,
            Option::Some(s1) => match post {
                Option::Some(s2) => s1.rank() <= s2.rank() && (s1.is_terminal() ==> s2 == s1),
                Option::None => false,
            },
        }
    }

    pub open spec fn preserves_history(pre: Self, post: Self) -> bool {
        forall|id: JobId|
            Self::status_order_ok(pre.status_spec(id), #[trigger] post.status_spec(id))
    }

    pub fn new(max_import_threads: u64) -> (s: Self)
        ensures
            s.wf(),
            s.job_queue@.len() == 0,
            s.job_archive@.len() == 0,
            s.running == 0,
            s.max_import_threads == max_import_threads,
            forall|id: JobId| s.status_spec(id) is None,
    {
        ImportProcessor {
            max_import_threads,
            running: 0,
            next_id: 0,
            job_queue: Vec::new(),
            job_archive: Vec::new(),
        }
    }

    /// Appends a new import job to the pending queue and returns its fresh
    /// identity.  Never blocks, never fails; no other job is affected.
    pub fn enqueue_import(
        &mut self,
        project_id: u128,
        files: Vec<ImportFile>,
        bib_file: Option<String>,
    ) -> (id: JobId)
        requires
            old(self).wf(),
            old(self).next_id < JobId::MAX,
        ensures
            final(self).wf(),
            !old(self).known(id),
            final(self).status_spec(id) == Some(ImportStatus::Pending),
            final(self).job_queue@.len() == old(self).job_queue@.len() + 1,
            final(self).job_queue@ == old(self).job_queue@.push(
                ImportJob {
                    id,
                    project_id,
                    length: files@.len() as usize,
                    processed: 0,
                    files_to_process: files,
                    bib_file,
                    status: ImportStatus::Pending,
                },
            ),
            final(self).job_archive@ == old(self).job_archive@,
            final(self).running == old(self).running,
            final(self).max_import_threads == old(self).max_import_threads,
            forall|other: JobId|
                other != id ==> #[trigger] final(self).status_spec(other) == old(
                    self,
                ).status_spec(other),
            Self::preserves_history(*old(self), *final(self)),
    {
        let id = self.next_id;
        self.next_id = self.next_id + 1;
        let length = files.len();
        let job = ImportJob {
            id,
            project_id,
            length,
            processed: 0,
            files_to_process: files,
            bib_file,
            status: ImportStatus::Pending,
        };
        self.job_queue.push(job);
        proof {
            let pre = *old(self);
            let post = *self;
            let q = pre.job_queue@;
            let q2 = post.job_queue@;
            let a = pre.job_archive@;
            let n = q.len() as int;
            assert(forall|k: int| 0 <= k < n ==> q2[k] == q[k]);
            assert(q2[n].id == id);
            assert(!pre.known(id)) by {
                if has_job(q, id) {
                    let w = job_at(q, id);
                }
                if has_job(a, id) {
                    let w = job_at(a, id);
                }
            }
            assert forall|x: int, y: int|
                0 <= x < y < q2.len() implies (#[trigger] q2[x]).id != (#[trigger] q2[y]).id by {
                if y < n {
                    assert(q[x].id != q[y].id);
                } else {
                    assert(q[x].id < pre.next_id);
                }
            }
            lemma_job_at(q2, n);
            assert(!has_job(a, id));
            assert(post.status_spec(id) == Some(ImportStatus::Pending));
            assert forall|other: JobId| other != id implies #[trigger] post.status_spec(other)
                == pre.status_spec(other) by {
                if has_job(q, other) {
                    let k = job_at(q, other);
                    lemma_job_at(q, k);
                    assert(q2[k].id == other);
                    lemma_job_at(q2, k);
                } else {
                    assert(!has_job(q2, other)) by {
                        if has_job(q2, other) {
                            let w = job_at(q2, other);
                            if w < n {
                                assert(q[w].id == other);
                            }
                        }
                    }
                }
            }
        }
        id
    }

    fn archive_index(&self, id: JobId) -> (i: usize)
        requires
            self.wf(),
            has_job(self.job_archive@, id),
        ensures
            i < self.job_archive@.len(),
            self.job_archive@[i as int].id == id,
            i as int == job_at(self.job_archive@, id),
    {
        let n = self.job_archive.len();
        let mut i: usize = 0;
        while i < n
            invariant
                self.wf(),
                has_job(self.job_archive@, id),
                n == self.job_archive@.len(),
                i <= n,
                forall|j: int| 0 <= j < i ==> (#[trigger] self.job_archive@[j]).id != id,
            decreases n - i,
        {
            if self.job_archive[i].id == id {
                proof {
                    lemma_job_at(self.job_archive@, i as int);
                }
                return i;
            }
            i = i + 1;
        }
        proof {
            let w = job_at(self.job_archive@, id);
            assert(false);
        }
        vstd::pervasive::unreached()
    }

    /// Reports the current status of a job by identity: the archive is
    /// consulted first, then the pending queue.
    pub fn get_import_job_status(&self, id: JobId) -> (r: Option<ImportStatus>)
        requires
            self.wf(),
        ensures
            r == self.status_spec(id),
    {
        let n = self.job_archive.len();
        let mut i: usize = 0;
        while i < n
            invariant
                self.wf(),
                n == self.job_archive@.len(),
                i <= n,
                forall|j: int| 0 <= j < i ==> (#[trigger] self.job_archive@[j]).id != id,
            decreases n - i,
        {
            if self.job_archive[i].id == id {
                proof {
                    lemma_job_at(self.job_archive@, i as int);
                }
                return Some(self.job_archive[i].status);
            }
            i = i + 1;
        }
        assert(!has_job(self.job_archive@, id));
        let m = self.job_queue.len();
        let mut k: usize = 0;
        while k < m
            invariant
                self.wf(),
                !has_job(self.job_archive@, id),
                m == self.job_queue@.len(),
                k <= m,
                forall|j: int| 0 <= j < k ==> (#[trigger] self.job_queue@[j]).id != id,
            decreases m - k,
        {
            if self.job_queue[k].id == id {
                proof {
                    lemma_job_at(self.job_queue@, k as int);
                }
                return Some(self.job_queue[k].status);
            }
            k = k + 1;
        }
        assert(!has_job(self.job_queue@, id));
        None
    }

    /// One scheduler tick's decision: if work is pending and a worker slot is
    /// free, atomically move the most recently enqueued job into the archive
    /// with status `Processing` and claim the slot; otherwise change nothing.
    pub fn try_dispatch(&mut self) -> (r: Option<JobId>)
        requires
            old(self).wf(),
        ensures
            final(self).wf(),
            final(self).max_import_threads == old(self).max_import_threads,
            r is None ==> *final(self) == *old(self) && (old(self).job_queue@.len() == 0 || old(
                self,
            ).running >= old(self).max_import_threads),
            r matches Some(id) ==> {
                &&& old(self).job_queue@.len() > 0
                &&& old(self).running < old(self).max_import_threads
                &&& id == old(self).job_queue@.last().id
                &&& final(self).job_queue@ == old(self).job_queue@.drop_last()
                &&& final(self).job_archive@ == old(self).job_archive@.push(
                    ImportJob { status: ImportStatus::Processing, ..old(self).job_queue@.last() },
                )
                &&& final(self).running == old(self).running + 1
                &&& final(self).status_spec(id) == Some(ImportStatus::Processing)
                &&& forall|other: JobId|
                    other != id ==> #[trigger] final(self).status_spec(other) == old(
                        self,
                    ).status_spec(other)
            },
            Self::preserves_history(*old(self), *final(self)),
    {
        if self.job_queue.len() == 0 || self.running >= self.max_import_threads {
            assert(*self == *old(self));
            return None;
        }
        let mut job = self.job_queue.pop().unwrap();
        let id = job.id;
        job.status = ImportStatus::Processing;
        self.job_archive.push(job);
        self.running = self.running + 1;
        proof {
            let pre = *old(self);
            let post = *self;
            let q = pre.job_queue@;
            let q2 = post.job_queue@;
            let a = pre.job_archive@;
            let a2 = post.job_archive@;
            let n = q.len() as int - 1;
            let m = a.len() as int;
            assert(q2 =~= q.drop_last());
            assert(a2.drop_last() =~= a);
            assert(a2[m] == ImportJob { status: ImportStatus::Processing, ..q[n] });
            assert(count_active(a2) == count_active(a) + 1);
            assert(forall|k: int| 0 <= k < m ==> a2[k] == a[k]);
            assert forall|x: int, y: int|
                0 <= x < y < a2.len() implies (#[trigger] a2[x]).id != (#[trigger] a2[y]).id by {
                if y < m {
                    assert(a[x].id != a[y].id);
                } else {
                    assert(q[n].id != a[x].id);
                }
            }
            lemma_job_at(a2, m);
            assert(post.status_spec(id) == Some(ImportStatus::Processing));
            assert forall|other: JobId| other != id implies #[trigger] post.status_spec(other)
                == pre.status_spec(other) by {
                Self::lemma_dispatch_frame(q, a, ImportStatus::Processing, other);
            }
            assert forall|target: JobId| Self::status_order_ok(
                pre.status_spec(target),
                #[trigger] post.status_spec(target),
            ) by {
                if target == id {
                    lemma_job_at(q, n);
                    assert(!has_job(a, id)) by {
                        if has_job(a, id) {
                            let w = job_at(a, id);
                        }
                    }
                    assert(pre.status_spec(id) == Some(q[n].status));
                    assert(q[n].status is Pending);
                } else {
                    Self::lemma_dispatch_frame(q, a, ImportStatus::Processing, target);
                }
            }
        }
        Some(id)
    }

    /// Frame part of dispatching: for any identity other than the moved one,
    /// the reported status is unchanged by the queue-to-archive move.
    proof fn lemma_dispatch_frame(
        q: Seq<ImportJob>,
        a: Seq<ImportJob>,
        st: ImportStatus,
        target: JobId,
    )
        requires
            ids_unique(q),
            ids_unique(a),
            q.len() > 0,
            forall|i: int, j: int|
                0 <= i < q.len() && 0 <= j < a.len() ==> (#[trigger] q[i]).id != (
                #[trigger] a[j]).id,
            target != q.last().id,
        ensures
            status_of(
                q.drop_last(),
                a.push(ImportJob { status: st, ..q.last() }),
                target,
            ) == status_of(q, a, target),
    {
        let q2 = q.drop_last();
        let a2 = a.push(ImportJob { status: st, ..q.last() });
        let n = q.len() as int - 1;
        let m = a.len() as int;
        assert(forall|k: int| 0 <= k < m ==> a2[k] == a[k]);
        assert(forall|k: int| 0 <= k < n ==> q2[k] == q[k]);
        assert forall|x: int, y: int|
            0 <= x < y < a2.len() implies (#[trigger] a2[x]).id != (#[trigger] a2[y]).id by {
            if y < m {
                assert(a[x].id != a[y].id);
            } else {
                assert(q[n].id != a[x].id);
            }
        }
        if has_job(a, target) {
            let k = job_at(a, target);
            lemma_job_at(a, k);
            assert(a2[k].id == target);
            lemma_job_at(a2, k);
        } else {
            assert(!has_job(a2, target)) by {
                if has_job(a2, target) {
                    let w = job_at(a2, target);
                    if w < m {
                        assert(a[w].id == target);
                    } else {
                        assert(a2[m].id == q.last().id);
                    }
                }
            }
            if has_job(q, target) {
                let k = job_at(q, target);
                lemma_job_at(q, k);
                assert(k != n);
                assert(q2[k].id == target);
                lemma_job_at(q2, k);
            } else {
                assert(!has_job(q2, target)) by {
                    if has_job(q2, target) {
                        let w = job_at(q2, target);
                        assert(q[w].id == target);
                    }
                }
            }
        }
    }

    /// The project a dispatched job belongs to.
    pub fn job_project_id(&self, id: JobId) -> (r: u128)
        requires
            self.wf(),
            has_job(self.job_archive@, id),
        ensures
            r == self.archived_job(id).project_id,
    {
        let i = self.archive_index(id);
        self.job_archive[i].project_id
    }

    /// The progress of a dispatched job: files recorded as processed, files
    /// still pending, and the job's original file count.
    pub fn job_progress(&self, id: JobId) -> (r: (usize, usize, usize))
        requires
            self.wf(),
            has_job(self.job_archive@, id),
        ensures
            r.0 == self.archived_job(id).processed,
            r.1 == self.archived_job(id).files_to_process@.len(),
            r.2 == self.archived_job(id).length,
    {
        let i = self.archive_index(id);
        (
            self.job_archive[i].processed,
            self.job_archive[i].files_to_process.len(),
            self.job_archive[i].length,
        )
    }

    /// The bibliography file attached to a dispatched job, if any.
    pub fn job_bib_file(&self, id: JobId) -> (r: Option<String>)
        requires
            self.wf(),
            has_job(self.job_archive@, id),
        ensures
            match r {
                Option::Some(p) => self.archived_job(id).bib_file matches Some(q) && p@ == q@,
                Option::None => self.archived_job(id).bib_file is None,
            },
    {
        let i = self.archive_index(id);
        match &self.job_archive[i].bib_file {
            Some(p) => Some(p.clone()),
            None => None,
        }
    }

    /// Takes the next file of the job, in queue order (the first listed
    /// first); the file stage works strictly one file at a time.  Reports
    /// nothing when every file has been taken.
    pub fn next_pending_file(&mut self, id: JobId) -> (r: Option<ImportFile>)
        requires
            old(self).wf(),
            has_job(old(self).job_archive@, id),
        ensures
            final(self).wf(),
            final(self).max_import_threads == old(self).max_import_threads,
            final(self).job_queue@ == old(self).job_queue@,
            final(self).running == old(self).running,
            match r {
                Option::Some(f) => {
                    &&& old(self).archived_job(id).files_to_process@.len() > 0
                    &&& f == old(self).archived_job(id).files_to_process@.first()
                    &&& final(self).archived_job(id).eq_except_files(old(self).archived_job(id))
                    &&& final(self).archived_job(id).files_to_process@ == old(self).archived_job(id).files_to_process@.drop_first()
                },
                Option::None => {
                    &&& old(self).archived_job(id).files_to_process@.len() == 0
                    &&& *final(self) == *old(self)
                },
            },
            forall|other: JobId|
                #[trigger] final(self).status_spec(other) == old(self).status_spec(other),
            Self::preserves_history(*old(self), *final(self)),
    {
        let i = self.archive_index(id);
        let ghost pre = *self;
        proof {
            lemma_job_at(pre.job_archive@, i as int);
        }
        if self.job_archive[i].files_to_process.len() == 0 {
            assert(*self == *old(self));
            assert forall|other: JobId| #[trigger] self.status_spec(other) == old(
                self,
            ).status_spec(other) by {}
            return None;
        }
        let mut job = self.job_archive.remove(i);
        let f = job.files_to_process.remove(0);
        self.job_archive.insert(i, job);
        proof {
            let post = *self;
            assert(post.job_archive@ =~= pre.job_archive@.update(
                i as int,
                post.job_archive@[i as int],
            ));
            lemma_count_active_update(pre.job_archive@, i as int, post.job_archive@[i as int]);
            lemma_status_after_update(
                pre.job_queue@,
                pre.job_archive@,
                i as int,
                post.job_archive@[i as int],
            );
            lemma_job_at(post.job_archive@, i as int);
            assert(post.archived_job(id).files_to_process@ =~= pre.archived_job(
                id,
            ).files_to_process@.drop_first());
        }
        Some(f)
    }

    /// Records one successfully converted and merged file.
    pub fn record_file_done(&mut self, id: JobId)
        requires
            old(self).wf(),
            has_job(old(self).job_archive@, id),
            old(self).archived_job(id).can_record_more(),
        ensures
            final(self).wf(),
            final(self).max_import_threads == old(self).max_import_threads,
            final(self).job_queue@ == old(self).job_queue@,
            final(self).running == old(self).running,
            final(self).archived_job(id).eq_except_processed(old(self).archived_job(id)),
            final(self).archived_job(id).processed == old(self).archived_job(id).processed + 1,
            forall|other: JobId|
                #[trigger] final(self).status_spec(other) == old(self).status_spec(other),
            Self::preserves_history(*old(self), *final(self)),
    {
        let i = self.archive_index(id);
        let ghost pre = *self;
        proof {
            lemma_job_at(pre.job_archive@, i as int);
        }
        let mut job = self.job_archive.remove(i);
        job.processed = job.processed + 1;
        self.job_archive.insert(i, job);
        proof {
            let post = *self;
            assert(post.job_archive@ =~= pre.job_archive@.update(
                i as int,
                post.job_archive@[i as int],
            ));
            lemma_count_active_update(pre.job_archive@, i as int, post.job_archive@[i as int]);
            lemma_status_after_update(
                pre.job_queue@,
                pre.job_archive@,
                i as int,
                post.job_archive@[i as int],
            );
            lemma_job_at(post.job_archive@, i as int);
        }
    }

    /// Terminal failure of the file stage: marks the job `Failed`, releases
    /// the worker slot, and returns the temporary files to delete — the
    /// failing file first, then every not-yet-processed one, in list order.
    pub fn abort_with_cleanup(&mut self, id: JobId, failing_path: String) -> (r: Vec<String>)
        requires
            old(self).wf(),
            has_job(old(self).job_archive@, id),
            !old(self).archived_job(id).status.is_terminal(),
        ensures
            final(self).wf(),
            final(self).max_import_threads == old(self).max_import_threads,
            final(self).job_queue@ == old(self).job_queue@,
            final(self).running == old(self).running - 1,
            final(self).status_spec(id) == Some(ImportStatus::Failed),
            final(self).archived_job(id).eq_except_status(old(self).archived_job(id)),
            crate::text::string_views(r@) == seq![failing_path@] + old(self).archived_job(id).pending_paths(),
            forall|other: JobId|
                other != id ==> #[trigger] final(self).status_spec(other) == old(
                    self,
                ).status_spec(other),
            Self::preserves_history(*old(self), *final(self)),
    {
        let i = self.archive_index(id);
        let ghost pre = *self;
        proof {
            lemma_job_at(pre.job_archive@, i as int);
        }
        let ghost fpv = failing_path@;
        let mut cleanup: Vec<String> = Vec::new();
        cleanup.push(failing_path);
        let mut k: usize = 0;
        let files_len = self.job_archive[i].files_to_process.len();
        while k < files_len
            invariant
                *self == pre,
                pre.wf(),
                i < pre.job_archive@.len(),
                files_len == pre.job_archive@[i as int].files_to_process@.len(),
                k <= files_len,
                cleanup@.len() == 1 + k,
                cleanup@[0]@ == fpv,
                forall|j: int|
                    1 <= j < 1 + k ==> (#[trigger] cleanup@[j])@
                        == pre.job_archive@[i as int].files_to_process@[j - 1].path@,
            decreases files_len - k,
        {
            let p = self.job_archive[i].files_to_process[k].path.clone();
            cleanup.push(p);
            k = k + 1;
        }
        proof {
            let files = pre.job_archive@[i as int].files_to_process@;
            assert(crate::text::string_views(cleanup@) =~= seq![fpv] + files.map_values(
                |f: ImportFile| f.path@,
            ));
        }
        let mut job = self.job_archive.remove(i);
        job.status = ImportStatus::Failed;
        self.job_archive.insert(i, job);
        proof {
            let post = *self;
            assert(post.job_archive@ =~= pre.job_archive@.update(
                i as int,
                post.job_archive@[i as int],
            ));
            lemma_count_active_update(pre.job_archive@, i as int, post.job_archive@[i as int]);
            lemma_count_active_nonneg(post.job_archive@);
            lemma_status_after_update(
                pre.job_queue@,
                pre.job_archive@,
                i as int,
                post.job_archive@[i as int],
            );
            lemma_job_at(post.job_archive@, i as int);
        }
        self.running = self.running - 1;
        cleanup
    }

    /// Terminal failure outside the file stage (a bibliography that does not
    /// parse): marks the job `Failed` and releases the worker slot; no files
    /// have been processed.
    pub fn fail_job(&mut self, id: JobId)
        requires
            old(self).wf(),
            has_job(old(self).job_archive@, id),
            !old(self).archived_job(id).status.is_terminal(),
        ensures
            final(self).wf(),
            final(self).max_import_threads == old(self).max_import_threads,
            final(self).job_queue@ == old(self).job_queue@,
            final(self).running == old(self).running - 1,
            final(self).status_spec(id) == Some(ImportStatus::Failed),
            final(self).archived_job(id).eq_except_status(old(self).archived_job(id)),
            forall|other: JobId|
                other != id ==> #[trigger] final(self).status_spec(other) == old(
                    self,
                ).status_spec(other),
            Self::preserves_history(*old(self), *final(self)),
    {
        let i = self.archive_index(id);
        let ghost pre = *self;
        proof {
            lemma_job_at(pre.job_archive@, i as int);
        }
        let mut job = self.job_archive.remove(i);
        job.status = ImportStatus::Failed;
        self.job_archive.insert(i, job);
        proof {
            let post = *self;
            assert(post.job_archive@ =~= pre.job_archive@.update(
                i as int,
                post.job_archive@[i as int],
            ));
            lemma_count_active_update(pre.job_archive@, i as int, post.job_archive@[i as int]);
            lemma_count_active_nonneg(post.job_archive@);
            lemma_status_after_update(
                pre.job_queue@,
                pre.job_archive@,
                i as int,
                post.job_archive@[i as int],
            );
        }
        self.running = self.running - 1;
    }

    /// Terminal success: every file was taken, merged and recorded; marks
    /// the job `Complete` and releases the worker slot.  A completed job
    /// therefore always shows as many processed files as it was given.
    pub fn complete_job(&mut self, id: JobId)
        requires
            old(self).wf(),
            has_job(old(self).job_archive@, id),
            !old(self).archived_job(id).status.is_terminal(),
            old(self).archived_job(id).files_to_process@.len() == 0,
            old(self).archived_job(id).processed == old(self).archived_job(id).length,
        ensures
            final(self).wf(),
            final(self).max_import_threads == old(self).max_import_threads,
            final(self).job_queue@ == old(self).job_queue@,
            final(self).running == old(self).running - 1,
            final(self).status_spec(id) == Some(ImportStatus::Complete),
            final(self).archived_job(id).eq_except_status(old(self).archived_job(id)),
            forall|other: JobId|
                other != id ==> #[trigger] final(self).status_spec(other) == old(
                    self,
                ).status_spec(other),
            Self::preserves_history(*old(self), *final(self)),
    {
        let i = self.archive_index(id);
        let ghost pre = *self;
        proof {
            lemma_job_at(pre.job_archive@, i as int);
        }
        let mut job = self.job_archive.remove(i);
        job.status = ImportStatus::Complete;
        self.job_archive.insert(i, job);
        proof {
            let post = *self;
            assert(post.job_archive@ =~= pre.job_archive@.update(
                i as int,
                post.job_archive@[i as int],
            ));
            lemma_count_active_update(pre.job_archive@, i as int, post.job_archive@[i as int]);
            lemma_count_active_nonneg(post.job_archive@);
            lemma_status_after_update(
                pre.job_queue@,
                pre.job_archive@,
                i as int,
                post.job_archive@[i as int],
            );
        }
        self.running = self.running - 1;
    }
}

/// The import worker count never exceeds the configured maximum and never
/// goes below zero, in every well-formed store state — hence under any
/// interleaving of operations, each of which preserves well-formedness.
pub proof fn lemma_import_worker_count_bounded(p: ImportProcessor)
    requires
        p.wf(),
    ensures
        0 <= p.running <= p.max_import_threads,
{
}

/// Observable import histories compose; a status query never reports two
/// different terminal statuses for the same identity.
pub proof fn lemma_import_history_transitive(
    a: ImportProcessor,
    b: ImportProcessor,
    c: ImportProcessor,
)
    requires
        ImportProcessor::preserves_history(a, b),
        ImportProcessor::preserves_history(b, c),
    ensures
        ImportProcessor::preserves_history(a, c),
{
    assert forall|id: JobId| ImportProcessor::status_order_ok(
        a.status_spec(id),
        #[trigger] c.status_spec(id),
    ) by {
        assert(ImportProcessor::status_order_ok(a.status_spec(id), b.status_spec(id)));
        assert(ImportProcessor::status_order_ok(b.status_spec(id), c.status_spec(id)));
    }
}

} // verus!
