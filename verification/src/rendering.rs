//! Rendering pipeline orchestration: a bounded-concurrency job store holding
//! pending rendering requests and an archive of dispatched ones, together with
//! the stage transitions of the rendering pipeline
//! (`Queued -> Preparing -> Running -> Finished | Failed`).
//!
//! The store is the single service object that owns the queue, the archive and
//! the running-worker count; an unverified driver loop performs the actual
//! file-system work and external tool invocation between the verified
//! transitions.

use vstd::prelude::*;

verus! {

use crate::JobId;

/// Status of one rendering request; a closed, monotonic state machine.
#[derive(Debug)]
pub enum RenderingStatus {
    Queued,
    Preparing,
    Running,
    Finished,
    Failed(RenderingError),
}

/// Failure reasons of the rendering pipeline.
#[derive(Debug)]
pub enum RenderingError {
    NoProjectData,
    ProjectMetadataMissing,
    ErrorLoadingTemplate(String),
    VivliostyleError(String),
    ErrorCopyingTemplate(String),
    IoError(String),
}

impl Clone for RenderingError {
    fn clone(&self) -> (r: Self)
        ensures
            r == *self,
    {
        match self {
            RenderingError::NoProjectData => RenderingError::NoProjectData,
            RenderingError::ProjectMetadataMissing => RenderingError::ProjectMetadataMissing,
            RenderingError::ErrorLoadingTemplate(e) => RenderingError::ErrorLoadingTemplate(
                e.clone(),
            ),
            RenderingError::VivliostyleError(e) => RenderingError::VivliostyleError(e.clone()),
            RenderingError::ErrorCopyingTemplate(e) => RenderingError::ErrorCopyingTemplate(
                e.clone(),
            ),
            RenderingError::IoError(e) => RenderingError::IoError(e.clone()),
        }
    }
}

impl RenderingError {
    /// Equality up to the view of the carried message strings.
    pub open spec fn eq_view(self, other: Self) -> bool {
        match (self, other) {
            (RenderingError::NoProjectData, RenderingError::NoProjectData) => true,
            (RenderingError::ProjectMetadataMissing, RenderingError::ProjectMetadataMissing) => {
                true
            },
            (
                RenderingError::ErrorLoadingTemplate(a),
                RenderingError::ErrorLoadingTemplate(b),
            ) => a@ == b@,
            (RenderingError::VivliostyleError(a), RenderingError::VivliostyleError(b)) => a@
                == b@,
            (
                RenderingError::ErrorCopyingTemplate(a),
                RenderingError::ErrorCopyingTemplate(b),
            ) => a@ == b@,
            (RenderingError::IoError(a), RenderingError::IoError(b)) => a@ == b@,
            _ => false,
        }
    }

    /// Human-readable description, as the status report shows it.
    pub fn message(&self) -> (r: String)
        ensures
            self is NoProjectData ==> r@ == "No project data found in rendering request"@,
            self is ProjectMetadataMissing ==> r@ == "Project metadata missing"@,
            self matches RenderingError::ErrorLoadingTemplate(e) ==> r@ == "Error loading template: "@ + e@,
            self matches RenderingError::VivliostyleError(e) ==> r@ == "Vivliostyle error: "@ + e@,
            self matches RenderingError::ErrorCopyingTemplate(e) ==> r@ == "Error copying template files: "@ + e@,
            self matches RenderingError::IoError(e) ==> r@ == "I/O Error occurred: "@ + e@,
    {
        match self {
            RenderingError::NoProjectData => String::from_str(
                "No project data found in rendering request",
            ),
            RenderingError::ProjectMetadataMissing => String::from_str("Project metadata missing"),
            RenderingError::ErrorLoadingTemplate(e) => String::from_str(
                "Error loading template: ",
            ).concat(e.as_str()),
            RenderingError::VivliostyleError(e) => String::from_str("Vivliostyle error: ").concat(
                e.as_str(),
            ),
            RenderingError::ErrorCopyingTemplate(e) => String::from_str(
                "Error copying template files: ",
            ).concat(e.as_str()),
            RenderingError::IoError(e) => String::from_str("I/O Error occurred: ").concat(
                e.as_str(),
            ),
        }
    }
}

impl PartialEq for RenderingError {
    fn eq(&self, other: &Self) -> (r: bool) {
        match (self, other) {
            (RenderingError::NoProjectData, RenderingError::NoProjectData) => true,
            (RenderingError::ProjectMetadataMissing, RenderingError::ProjectMetadataMissing) => {
                true
            },
            (
                RenderingError::ErrorLoadingTemplate(a),
                RenderingError::ErrorLoadingTemplate(b),
            ) => *a == *b,
            (RenderingError::VivliostyleError(a), RenderingError::VivliostyleError(b)) => *a
                == *b,
            (
                RenderingError::ErrorCopyingTemplate(a),
                RenderingError::ErrorCopyingTemplate(b),
            ) => *a == *b,
            (RenderingError::IoError(a), RenderingError::IoError(b)) => *a == *b,
            _ => false,
        }
    }
}

impl vstd::std_specs::cmp::PartialEqSpecImpl for RenderingError {
    open spec fn obeys_eq_spec() -> bool {
        true
    }

    open spec fn eq_spec(&self, other: &Self) -> bool {
        self.eq_view(*other)
    }
}

impl Clone for RenderingStatus {
    fn clone(&self) -> (r: Self)
        ensures
            r == *self,
    {
        match self {
            RenderingStatus::Queued => RenderingStatus::Queued,
            RenderingStatus::Preparing => RenderingStatus::Preparing,
            RenderingStatus::Running => RenderingStatus::Running,
            RenderingStatus::Finished => RenderingStatus::Finished,
            RenderingStatus::Failed(e) => RenderingStatus::Failed(e.clone()),
        }
    }
}

impl RenderingStatus {
    /// Equality up to the view of any carried error message.
    pub open spec fn eq_view(self, other: Self) -> bool {
        match (self, other) {
            (RenderingStatus::Queued, RenderingStatus::Queued) => true,
            (RenderingStatus::Preparing, RenderingStatus::Preparing) => true,
            (RenderingStatus::Running, RenderingStatus::Running) => true,
            (RenderingStatus::Finished, RenderingStatus::Finished) => true,
            (RenderingStatus::Failed(a), RenderingStatus::Failed(b)) => a.eq_view(b),
            _ => false,
        }
    }

    /// Position in the one-directional state machine; both terminal statuses
    /// share the final position.
    pub open spec fn rank(self) -> int {
        match self {
            RenderingStatus::Queued => 0,
            RenderingStatus::Preparing => 1,
            RenderingStatus::Running => 2,
            RenderingStatus::Finished => 3,
            RenderingStatus::Failed(_) => 3,
        }
    }

    /// A terminal status is never left again.
    pub open spec fn is_terminal(self) -> bool {
        self is Finished || self is Failed
    }
}

impl PartialEq for RenderingStatus {
    fn eq(&self, other: &Self) -> (r: bool) {
        match (self, other) {
            (RenderingStatus::Queued, RenderingStatus::Queued) => true,
            (RenderingStatus::Preparing, RenderingStatus::Preparing) => true,
            (RenderingStatus::Running, RenderingStatus::Running) => true,
            (RenderingStatus::Finished, RenderingStatus::Finished) => true,
            (RenderingStatus::Failed(a), RenderingStatus::Failed(b)) => a == b,
            _ => false,
        }
    }
}

impl vstd::std_specs::cmp::PartialEqSpecImpl for RenderingStatus {
    open spec fn obeys_eq_spec() -> bool {
        true
    }

    open spec fn eq_spec(&self, other: &Self) -> bool {
        self.eq_view(*other)
    }
}

/// The payload of a rendering request: the snapshot of the project to render,
/// reduced to the plain values the pipeline decisions read.
#[derive(PartialEq, Eq, Structural, Clone, Copy, Debug)]
pub struct ProjectSnapshot {
    pub project_id: u128,
    pub template_id: u128,
}

/// One rendering request, from enqueueing to its terminal status.
pub struct RenderingRequest {
    pub rendering_id: JobId,
    pub status: RenderingStatus,
    pub project_data: Option<ProjectSnapshot>,
}

/// Whether a request still occupies a worker once dispatched.
pub open spec fn active(r: RenderingRequest) -> bool {
    !r.status.is_terminal()
}

/// Number of non-terminal requests in an archive; the running-worker count
/// mirrors exactly this quantity.
pub open spec fn count_active(s: Seq<RenderingRequest>) -> int
    decreases s.len(),
{
    if s.len() == 0 {
        0
    } else {
        count_active(s.drop_last()) + if active(s.last()) {
            1int
        } else {
            0int
        }
    }
}

proof fn lemma_count_active_nonneg(s: Seq<RenderingRequest>)
    ensures
        0 <= count_active(s) <= s.len(),
    decreases s.len(),
{
    if s.len() > 0 {
        lemma_count_active_nonneg(s.drop_last());
    }
}

proof fn lemma_count_active_update(s: Seq<RenderingRequest>, i: int, r: RenderingRequest)
    requires
        0 <= i < s.len(),
    ensures
        count_active(s.update(i, r)) == count_active(s) - (if active(s[i]) {
            1int
        } else {
            0int
        }) + (if active(r) {
            1int
        } else {
            0int
        }),
    decreases s.len(),
{
    let t = s.update(i, r);
    if i == s.len() - 1 {
        assert(t.drop_last() =~= s.drop_last());
        assert(t.last() == r);
    } else {
        assert(t.drop_last() =~= s.drop_last().update(i, r));
        assert(t.last() == s.last());
        lemma_count_active_update(s.drop_last(), i, r);
    }
}

/// No two requests of the collection share an identity.
pub open spec fn ids_unique(s: Seq<RenderingRequest>) -> bool {
    forall|i: int, j: int|
        0 <= i < j < s.len() ==> (#[trigger] s[i]).rendering_id != (#[trigger] s[j]).rendering_id
}

/// Some request of the collection carries this identity.
pub open spec fn has_job(s: Seq<RenderingRequest>, id: JobId) -> bool {
    exists|i: int| 0 <= i < s.len() && (#[trigger] s[i]).rendering_id == id
}

/// Index of the request carrying this identity (unique when `ids_unique`).
pub open spec fn job_at(s: Seq<RenderingRequest>, id: JobId) -> int {
    choose|i: int| 0 <= i < s.len() && (#[trigger] s[i]).rendering_id == id
}

/// The status a query reports given the two containers: the archive is
/// consulted first, then the pending queue; an unknown identity reports
/// nothing.
pub open spec fn status_of(
    queue: Seq<RenderingRequest>,
    archive: Seq<RenderingRequest>,
    id: JobId,
) -> Option<RenderingStatus> {
    if has_job(archive, id) {
        Some(archive[job_at(archive, id)].status)
    } else if has_job(queue, id) {
        Some(queue[job_at(queue, id)].status)
    } else {
        None
    }
}

proof fn lemma_job_at(s: Seq<RenderingRequest>, i: int)
    requires
        ids_unique(s),
        0 <= i < s.len(),
    ensures
        has_job(s, s[i].rendering_id),
        job_at(s, s[i].rendering_id) == i,
{
    assert(has_job(s, s[i].rendering_id));
    let j = job_at(s, s[i].rendering_id);
    if j < i {
        assert(s[j].rendering_id != s[i].rendering_id);
    } else if j > i {
        assert(s[i].rendering_id != s[j].rendering_id);
    }
}

/// Frame lemma: replacing the entry at `i` of the archive by a request with
/// the same identity changes only that identity's reported status.
proof fn lemma_status_after_update(
    queue: Seq<RenderingRequest>,
    archive: Seq<RenderingRequest>,
    i: int,
    r2: RenderingRequest,
)
    requires
        ids_unique(archive),
        0 <= i < archive.len(),
        r2.rendering_id == archive[i].rendering_id,
    ensures
        ids_unique(archive.update(i, r2)),
        status_of(queue, archive.update(i, r2), archive[i].rendering_id) == Some(r2.status),
        forall|id: JobId|
            id != archive[i].rendering_id ==> #[trigger] status_of(queue, archive.update(i, r2), id)
                == status_of(queue, archive, id),
{
    let a2 = archive.update(i, r2);
    let the_id = archive[i].rendering_id;
    assert(forall|k: int| 0 <= k < a2.len() ==> (#[trigger] a2[k]).rendering_id == archive[k].rendering_id);
    assert forall|x: int, y: int|
        0 <= x < y < a2.len() implies (#[trigger] a2[x]).rendering_id != (#[trigger] a2[y]).rendering_id by {
        assert(archive[x].rendering_id != archive[y].rendering_id);
    }
    lemma_job_at(a2, i);
    assert(status_of(queue, a2, the_id) == Some(r2.status));
    assert forall|id: JobId| id != the_id implies #[trigger] status_of(queue, a2, id) == status_of(
        queue,
        archive,
        id,
    ) by {
        if has_job(archive, id) {
            let k = job_at(archive, id);
            lemma_job_at(archive, k);
            assert(a2[k].rendering_id == id);
            lemma_job_at(a2, k);
            assert(k != i);
            assert(a2[k] == archive[k]);
        } else {
            assert(!has_job(a2, id)) by {
                if has_job(a2, id) {
                    let w = job_at(a2, id);
                    assert(archive[w].rendering_id == a2[w].rendering_id);
                }
            }
        }
    }
}

/// The per-pipeline service object: pending queue, archive of dispatched
/// requests, and the bounded worker count.  The scheduler loop drives it; the
/// store itself never performs I/O.
pub struct RenderingManager {
    pub max_rendering_threads: u64,
    pub running: u64,
    pub next_id: JobId,
    pub queue: Vec<RenderingRequest>,
    pub archive: Vec<RenderingRequest>,
}

impl RenderingManager {
    /// The status a query reports for this identity.
    pub open spec fn status_spec(self, id: JobId) -> Option<RenderingStatus> {
        status_of(self.queue@, self.archive@, id)
    }

    pub open spec fn known(self, id: JobId) -> bool {
        has_job(self.queue@, id) || has_job(self.archive@, id)
    }

    /// Well-formedness: identities are unique and split disjointly between
    /// queue and archive, queued requests still carry their payload and are
    /// `Queued`, and the worker count equals the number of non-terminal
    /// archived requests and respects the configured bound.
    pub open spec fn wf(self) -> bool {
        &&& ids_unique(self.queue@)
        &&& ids_unique(self.archive@)
        &&& forall|i: int, j: int|
            0 <= i < self.queue@.len() && 0 <= j < self.archive@.len() ==> (
            #[trigger] self.queue@[i]).rendering_id != (#[trigger] self.archive@[j]).rendering_id
        &&& forall|i: int|
            0 <= i < self.queue@.len() ==> (#[trigger] self.queue@[i]).status is Queued
                && self.queue@[i].project_data is Some
        &&& forall|i: int|
            0 <= i < self.queue@.len() ==> (#[trigger] self.queue@[i]).rendering_id < self.next_id
        &&& forall|i: int|
            0 <= i < self.archive@.len() ==> (#[trigger] self.archive@[i]).rendering_id
                < self.next_id
        &&& self.running as int == count_active(self.archive@)
        &&& self.running <= self.max_rendering_threads
    }

    /// How one observable history step may change reported statuses: no
    /// status disappears, ranks never decrease, and a terminal status is
    /// frozen.
    pub open spec fn status_order_ok(
        pre: Option<RenderingStatus>,
        post: Option<RenderingStatus>,
    ) -> bool {
        match pre {
            Option::None => true,
            Option::Some(s1) => match post {
                Option::Some(s2) => s1.rank() <= s2.rank() && (s1.is_terminal() ==> s2 == s1),
                Option::None => false,
            },
        }
    }

    pub open spec fn preserves_history(pre: Self, post: Self) -> bool {
        forall|id: JobId|
            Self::status_order_ok(pre.status_spec(id), #[trigger] post.status_spec(id))
    }

    pub fn new(max_rendering_threads: u64) -> (s: Self)
        ensures
            s.wf(),
            s.queue@.len() == 0,
            s.archive@.len() == 0,
            s.running == 0,
            s.max_rendering_threads == max_rendering_threads,
            forall|id: JobId| s.status_spec(id) is None,
    {
        RenderingManager {
            max_rendering_threads,
            running: 0,
            next_id: 0,
            queue: Vec::new(),
            archive: Vec::new(),
        }
    }

    /// Appends a new request to the pending queue and returns its fresh
    /// identity.  Never blocks, never fails; no other request is affected.
    pub fn add_rendering_request(&mut self, project_data: ProjectSnapshot) -> (id: JobId)
        requires
            old(self).wf(),
            old(self).next_id < JobId::MAX,
        ensures
            final(self).wf(),
            !old(self).known(id),
            final(self).status_spec(id) == Some(RenderingStatus::Queued),
            final(self).queue@ == old(self).queue@.push(
                RenderingRequest {
                    rendering_id: id,
                    status: RenderingStatus::Queued,
                    project_data: Some(project_data),
                },
            ),
            final(self).archive@ == old(self).archive@,
            final(self).running == old(self).running,
            final(self).max_rendering_threads == old(self).max_rendering_threads,
            forall|other: JobId|
                other != id ==> #[trigger] final(self).status_spec(other) == old(
                    self,
                ).status_spec(other),
            Self::preserves_history(*old(self), *final(self)),
    {
        let id = self.next_id;
        self.next_id = self.next_id + 1;
        let request = RenderingRequest {
            rendering_id: id,
            status: RenderingStatus::Queued,
            project_data: Some(project_data),
        };
        self.queue.push(request);
        proof {
            let pre = *old(self);
            let post = *self;
            let q = pre.queue@;
            let q2 = post.queue@;
            let a = pre.archive@;
            let n = q.len() as int;
            assert(forall|k: int| 0 <= k < n ==> q2[k] == q[k]);
            assert(q2[n].rendering_id == id);
            assert(!pre.known(id)) by {
                if has_job(q, id) {
                    let w = job_at(q, id);
                }
                if has_job(a, id) {
                    let w = job_at(a, id);
                }
            }
            assert forall|x: int, y: int|
                0 <= x < y < q2.len() implies (#[trigger] q2[x]).rendering_id != (
            #[trigger] q2[y]).rendering_id by {
                if y < n {
                    assert(q[x].rendering_id != q[y].rendering_id);
                } else {
                    assert(q[x].rendering_id < pre.next_id);
                }
            }
            lemma_job_at(q2, n);
            assert(!has_job(a, id));
            assert(post.status_spec(id) == Some(RenderingStatus::Queued));
            assert forall|other: JobId| other != id implies #[trigger] post.status_spec(other)
                == pre.status_spec(other) by {
                if has_job(q, other) {
                    let k = job_at(q, other);
                    lemma_job_at(q, k);
                    assert(q2[k].rendering_id == other);
                    lemma_job_at(q2, k);
                } else {
                    assert(!has_job(q2, other)) by {
                        if has_job(q2, other) {
                            let w = job_at(q2, other);
                            if w < n {
                                assert(q[w].rendering_id == other);
                            }
                        }
                    }
                }
            }
        }
        id
    }

    fn archive_index(&self, id: JobId) -> (i: usize)
        requires
            self.wf(),
            has_job(self.archive@, id),
        ensures
            i < self.archive@.len(),
            self.archive@[i as int].rendering_id == id,
            i as int == job_at(self.archive@, id),
    {
        let n = self.archive.len();
        let mut i: usize = 0;
        while i < n
            invariant
                self.wf(),
                has_job(self.archive@, id),
                n == self.archive@.len(),
                i <= n,
                forall|j: int| 0 <= j < i ==> (#[trigger] self.archive@[j]).rendering_id != id,
            decreases n - i,
        {
            if self.archive[i].rendering_id == id {
                proof {
                    lemma_job_at(self.archive@, i as int);
                }
                return i;
            }
            i = i + 1;
        }
        proof {
            let w = job_at(self.archive@, id);
            assert(false);
        }
        vstd::pervasive::unreached()
    }

    /// Reports the current status of a request by identity: the archive is
    /// consulted first, then the pending queue.
    pub fn get_rendering_request_status(&self, rendering_id: JobId) -> (r: Option<RenderingStatus>)
        requires
            self.wf(),
        ensures
            r == self.status_spec(rendering_id),
    {
        let n = self.archive.len();
        let mut i: usize = 0;
        while i < n
            invariant
                self.wf(),
                n == self.archive@.len(),
                i <= n,
                forall|j: int| 0 <= j < i ==> (#[trigger] self.archive@[j]).rendering_id != rendering_id,
            decreases n - i,
        {
            if self.archive[i].rendering_id == rendering_id {
                proof {
                    lemma_job_at(self.archive@, i as int);
                }
                return Some(self.archive[i].status.clone());
            }
            i = i + 1;
        }
        assert(!has_job(self.archive@, rendering_id));
        let m = self.queue.len();
        let mut k: usize = 0;
        while k < m
            invariant
                self.wf(),
                !has_job(self.archive@, rendering_id),
                m == self.queue@.len(),
                k <= m,
                forall|j: int| 0 <= j < k ==> (#[trigger] self.queue@[j]).rendering_id != rendering_id,
            decreases m - k,
        {
            if self.queue[k].rendering_id == rendering_id {
                proof {
                    lemma_job_at(self.queue@, k as int);
                }
                return Some(self.queue[k].status.clone());
            }
            k = k + 1;
        }
        assert(!has_job(self.queue@, rendering_id));
        None
    }

    /// One scheduler tick's decision: if work is pending and a worker slot is
    /// free, atomically move the most recently enqueued request into the
    /// archive and claim the slot; otherwise change nothing.
    pub fn try_dispatch(&mut self) -> (r: Option<JobId>)
        requires
            old(self).wf(),
        ensures
            final(self).wf(),
            final(self).max_rendering_threads == old(self).max_rendering_threads,
            r is None ==> *final(self) == *old(self) && (old(self).queue@.len() == 0 || old(
                self,
            ).running >= old(self).max_rendering_threads),
            r matches Some(id) ==> {
                &&& old(self).queue@.len() > 0
                &&& old(self).running < old(self).max_rendering_threads
                &&& id == old(self).queue@.last().rendering_id
                &&& final(self).queue@ == old(self).queue@.drop_last()
                &&& final(self).archive@ == old(self).archive@.push(old(self).queue@.last())
                &&& final(self).running == old(self).running + 1
                &&& final(self).status_spec(id) == Some(RenderingStatus::Queued)
                &&& forall|other: JobId|
                    other != id ==> #[trigger] final(self).status_spec(other) == old(
                        self,
                    ).status_spec(other)
            },
            Self::preserves_history(*old(self), *final(self)),
    {
        if self.queue.len() == 0 || self.running >= self.max_rendering_threads {
            assert(*self == *old(self));
            return None;
        }
        let request = self.queue.pop().unwrap();
        let id = request.rendering_id;
        self.archive.push(request);
        self.running = self.running + 1;
        proof {
            let pre = *old(self);
            let post = *self;
            let q = pre.queue@;
            let q2 = post.queue@;
            let a = pre.archive@;
            let a2 = post.archive@;
            let n = q.len() as int - 1;
            let m = a.len() as int;
            assert(q2 =~= q.drop_last());
            assert(a2.drop_last() =~= a);
            assert(a2[m] == q[n]);
            assert(count_active(a2) == count_active(a) + 1);
            assert(forall|k: int| 0 <= k < m ==> a2[k] == a[k]);
            assert forall|x: int, y: int|
                0 <= x < y < a2.len() implies (#[trigger] a2[x]).rendering_id != (
            #[trigger] a2[y]).rendering_id by {
                if y < m {
                    assert(a[x].rendering_id != a[y].rendering_id);
                } else {
                    assert(q[n].rendering_id != a[x].rendering_id);
                }
            }
            lemma_job_at(a2, m);
            assert(post.status_spec(id) == Some(RenderingStatus::Queued));
            assert forall|other: JobId| other != id implies #[trigger] post.status_spec(other)
                == pre.status_spec(other) by {
                Self::lemma_dispatch_frame(q, a, other);
            }
            assert forall|target: JobId| Self::status_order_ok(
                pre.status_spec(target),
                #[trigger] post.status_spec(target),
            ) by {
                if target == id {
                    lemma_job_at(q, n);
                    assert(!has_job(a, id)) by {
                        if has_job(a, id) {
                            let w = job_at(a, id);
                        }
                    }
                    assert(pre.status_spec(id) == Some(q[n].status));
                    assert(q[n].status is Queued);
                } else {
                    Self::lemma_dispatch_frame(q, a, target);
                }
            }
        }
        Some(id)
    }

    /// Frame part of dispatching: for any identity other than the moved one,
    /// the reported status is unchanged by the queue-to-archive move.
    proof fn lemma_dispatch_frame(q: Seq<RenderingRequest>, a: Seq<RenderingRequest>, target: JobId)
        requires
            ids_unique(q),
            ids_unique(a),
            q.len() > 0,
            forall|i: int, j: int|
                0 <= i < q.len() && 0 <= j < a.len() ==> (#[trigger] q[i]).rendering_id != (
                #[trigger] a[j]).rendering_id,
            target != q.last().rendering_id,
        ensures
            status_of(q.drop_last(), a.push(q.last()), target) == status_of(q, a, target),
    {
        let q2 = q.drop_last();
        let a2 = a.push(q.last());
        let n = q.len() as int - 1;
        let m = a.len() as int;
        assert(forall|k: int| 0 <= k < m ==> a2[k] == a[k]);
        assert(forall|k: int| 0 <= k < n ==> q2[k] == q[k]);
        assert forall|x: int, y: int|
            0 <= x < y < a2.len() implies (#[trigger] a2[x]).rendering_id != (
        #[trigger] a2[y]).rendering_id by {
            if y < m {
                assert(a[x].rendering_id != a[y].rendering_id);
            } else {
                assert(q[n].rendering_id != a[x].rendering_id);
            }
        }
        if has_job(a, target) {
            let k = job_at(a, target);
            lemma_job_at(a, k);
            assert(a2[k].rendering_id == target);
            lemma_job_at(a2, k);
        } else {
            assert(!has_job(a2, target)) by {
                if has_job(a2, target) {
                    let w = job_at(a2, target);
                    if w < m {
                        assert(a[w].rendering_id == target);
                    } else {
                        assert(a2[m].rendering_id == q.last().rendering_id);
                    }
                }
            }
            if has_job(q, target) {
                let k = job_at(q, target);
                lemma_job_at(q, k);
                assert(k != n);
                assert(q2[k].rendering_id == target);
                lemma_job_at(q2, k);
            } else {
                assert(!has_job(q2, target)) by {
                    if has_job(q2, target) {
                        let w = job_at(q2, target);
                        assert(q[w].rendering_id == target);
                    }
                }
            }
        }
    }

    /// First pipeline stage: transition the archived request to `Preparing`
    /// and take ownership of its payload — afterwards the archived request
    /// holds none, so beginning the same request again finds no payload,
    /// fails with `NoProjectData` and terminates at once: the guard against
    /// processing a job twice.
    pub fn begin_preparation(&mut self, rendering_id: JobId) -> (r: Result<
        ProjectSnapshot,
        RenderingError,
    >)
        requires
            old(self).wf(),
            has_job(old(self).archive@, rendering_id),
            old(self).status_spec(rendering_id) matches Some(s) && (s is Queued || s is Preparing),
        ensures
            final(self).wf(),
            final(self).max_rendering_threads == old(self).max_rendering_threads,
            final(self).queue@ == old(self).queue@,
            final(self).archive@[job_at(final(self).archive@, rendering_id)].project_data is None,
            match r {
                Result::Ok(data) => {
                    &&& old(self).archive@[job_at(old(self).archive@, rendering_id)].project_data
                        == Some(data)
                    &&& final(self).status_spec(rendering_id) == Some(RenderingStatus::Preparing)
                    &&& final(self).running == old(self).running
                },
                Result::Err(e) => {
                    &&& e == RenderingError::NoProjectData
                    &&& old(self).archive@[job_at(old(self).archive@, rendering_id)].project_data
                        is None
                    &&& final(self).status_spec(rendering_id) == Some(
                        RenderingStatus::Failed(RenderingError::NoProjectData),
                    )
                    &&& final(self).running == old(self).running - 1
                },
            },
            forall|id: JobId|
                id != rendering_id ==> #[trigger] final(self).status_spec(id) == old(
                    self,
                ).status_spec(id),
            Self::preserves_history(*old(self), *final(self)),
    {
        let i = self.archive_index(rendering_id);
        let ghost pre = *self;
        proof {
            lemma_job_at(pre.archive@, i as int);
        }
        let mut request = self.archive.remove(i);
        match request.project_data {
            Some(data) => {
                request.project_data = None;
                request.status = RenderingStatus::Preparing;
                self.archive.insert(i, request);
                proof {
                    let post = *self;
                    assert(post.archive@ =~= pre.archive@.update(
                        i as int,
                        post.archive@[i as int],
                    ));
                    lemma_count_active_update(pre.archive@, i as int, post.archive@[i as int]);
                    lemma_status_after_update(
                        pre.queue@,
                        pre.archive@,
                        i as int,
                        post.archive@[i as int],
                    );
                    lemma_job_at(post.archive@, i as int);
                    assert(post.archive@[i as int].project_data is None);
                }
                Ok(data)
            },
            None => {
                request.status = RenderingStatus::Failed(RenderingError::NoProjectData);
                self.archive.insert(i, request);
                proof {
                    let post = *self;
                    assert(post.archive@ =~= pre.archive@.update(
                        i as int,
                        post.archive@[i as int],
                    ));
                    lemma_count_active_update(pre.archive@, i as int, post.archive@[i as int]);
                    lemma_count_active_nonneg(post.archive@);
                    lemma_status_after_update(
                        pre.queue@,
                        pre.archive@,
                        i as int,
                        post.archive@[i as int],
                    );
                    lemma_job_at(post.archive@, i as int);
                    assert(post.archive@[i as int].project_data is None);
                }
                self.running = self.running - 1;
                Err(RenderingError::NoProjectData)
            },
        }
    }

    /// Third pipeline stage: the working tree is prepared, the external tool
    /// is about to run.
    pub fn mark_running(&mut self, rendering_id: JobId)
        requires
            old(self).wf(),
            has_job(old(self).archive@, rendering_id),
            old(self).status_spec(rendering_id) == Some(RenderingStatus::Preparing),
        ensures
            final(self).wf(),
            final(self).max_rendering_threads == old(self).max_rendering_threads,
            final(self).queue@ == old(self).queue@,
            final(self).running == old(self).running,
            final(self).status_spec(rendering_id) == Some(RenderingStatus::Running),
            forall|id: JobId|
                id != rendering_id ==> #[trigger] final(self).status_spec(id) == old(
                    self,
                ).status_spec(id),
            Self::preserves_history(*old(self), *final(self)),
    {
        let i = self.archive_index(rendering_id);
        let ghost pre = *self;
        proof {
            lemma_job_at(pre.archive@, i as int);
        }
        let mut request = self.archive.remove(i);
        request.status = RenderingStatus::Running;
        self.archive.insert(i, request);
        proof {
            let post = *self;
            assert(post.archive@ =~= pre.archive@.update(i as int, post.archive@[i as int]));
            lemma_count_active_update(pre.archive@, i as int, post.archive@[i as int]);
            lemma_status_after_update(pre.queue@, pre.archive@, i as int, post.archive@[i as int]);
        }
    }

    /// Terminal transition: record the pipeline's outcome and release the
    /// worker slot.  Exactly one terminal transition happens per request.
    pub fn finish(&mut self, rendering_id: JobId, outcome: Result<(), RenderingError>)
        requires
            old(self).wf(),
            has_job(old(self).archive@, rendering_id),
            old(self).status_spec(rendering_id) matches Some(s) && !s.is_terminal(),
        ensures
            final(self).wf(),
            final(self).max_rendering_threads == old(self).max_rendering_threads,
            final(self).queue@ == old(self).queue@,
            final(self).running == old(self).running - 1,
            final(self).status_spec(rendering_id) == Some(
                match outcome {
                    Result::Ok(()) => RenderingStatus::Finished,
                    Result::Err(e) => RenderingStatus::Failed(e),
                },
            ),
            forall|id: JobId|
                id != rendering_id ==> #[trigger] final(self).status_spec(id) == old(
                    self,
                ).status_spec(id),
            Self::preserves_history(*old(self), *final(self)),
    {
        let i = self.archive_index(rendering_id);
        let ghost pre = *self;
        proof {
            lemma_job_at(pre.archive@, i as int);
        }
        let mut request = self.archive.remove(i);
        request.status = match outcome {
            Ok(()) => RenderingStatus::Finished,
            Err(e) => RenderingStatus::Failed(e),
        };
        self.archive.insert(i, request);
        proof {
            let post = *self;
            assert(post.archive@ =~= pre.archive@.update(i as int, post.archive@[i as int]));
            lemma_count_active_update(pre.archive@, i as int, post.archive@[i as int]);
            lemma_count_active_nonneg(post.archive@);
            lemma_status_after_update(pre.queue@, pre.archive@, i as int, post.archive@[i as int]);
        }
        self.running = self.running - 1;
    }
}

/// The worker count never exceeds the configured maximum (and, being a
/// machine integer kept in step with the count of non-terminal archived
/// requests, never goes below zero), in every well-formed store state — hence
/// under any interleaving of operations, each of which preserves
/// well-formedness.
pub proof fn lemma_worker_count_bounded(m: RenderingManager)
    requires
        m.wf(),
    ensures
        0 <= m.running <= m.max_rendering_threads,
{
}

/// Observable histories compose: if each store operation only advances
/// statuses monotonically and freezes terminal ones, so does any sequence of
/// operations — a status query therefore never reports two different terminal
/// statuses for the same identity.
pub proof fn lemma_history_transitive(a: RenderingManager, b: RenderingManager, c: RenderingManager)
    requires
        RenderingManager::preserves_history(a, b),
        RenderingManager::preserves_history(b, c),
    ensures
        RenderingManager::preserves_history(a, c),
{
    assert forall|id: JobId| RenderingManager::status_order_ok(
        a.status_spec(id),
        #[trigger] c.status_spec(id),
    ) by {
        assert(RenderingManager::status_order_ok(a.status_spec(id), b.status_spec(id)));
        assert(RenderingManager::status_order_ok(b.status_spec(id), c.status_spec(id)));
    }
}

} // verus!
