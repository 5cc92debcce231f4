//! The rendering scheduler: bounded dispatch, status reporting, the stage
//! transitions, and the double-processing guard.

use bookpress::rendering::{ProjectSnapshot, RenderingError, RenderingManager, RenderingStatus};

fn snapshot(n: u128) -> ProjectSnapshot {
    ProjectSnapshot { project_id: n, template_id: n + 100 }
}

#[test]
fn enqueued_requests_report_queued() {
    let mut m = RenderingManager::new(2);
    let a = m.add_rendering_request(snapshot(1));
    let b = m.add_rendering_request(snapshot(2));
    assert_ne!(a, b);
    assert_eq!(m.get_rendering_request_status(a), Some(RenderingStatus::Queued));
    assert_eq!(m.get_rendering_request_status(b), Some(RenderingStatus::Queued));
}

#[test]
fn unknown_identity_reports_nothing() {
    let mut m = RenderingManager::new(2);
    let a = m.add_rendering_request(snapshot(1));
    assert!(m.get_rendering_request_status(a + 1).is_none());
}

#[test]
fn dispatch_picks_most_recently_enqueued() {
    let mut m = RenderingManager::new(4);
    let _a = m.add_rendering_request(snapshot(1));
    let _b = m.add_rendering_request(snapshot(2));
    let c = m.add_rendering_request(snapshot(3));
    let first = m.try_dispatch();
    assert_eq!(first, Some(c));
}

#[test]
fn worker_count_never_exceeds_the_maximum() {
    let mut m = RenderingManager::new(2);
    for k in 0..5 {
        m.add_rendering_request(snapshot(k));
    }
    assert!(m.try_dispatch().is_some());
    assert!(m.try_dispatch().is_some());
    assert_eq!(m.running, 2);
    // No capacity: the third tick dispatches nothing, work stays queued.
    assert!(m.try_dispatch().is_none());
    assert_eq!(m.running, 2);
}

#[test]
fn full_pipeline_reaches_finished() {
    let mut m = RenderingManager::new(1);
    let id = m.add_rendering_request(snapshot(7));
    assert_eq!(m.try_dispatch(), Some(id));
    assert_eq!(m.get_rendering_request_status(id), Some(RenderingStatus::Queued));
    let data = m.begin_preparation(id).expect("payload present");
    assert_eq!(data.project_id, 7);
    assert_eq!(m.get_rendering_request_status(id), Some(RenderingStatus::Preparing));
    m.mark_running(id);
    assert_eq!(m.get_rendering_request_status(id), Some(RenderingStatus::Running));
    m.finish(id, Ok(()));
    assert_eq!(m.get_rendering_request_status(id), Some(RenderingStatus::Finished));
    assert_eq!(m.running, 0);
}

#[test]
fn failure_reason_is_reported() {
    let mut m = RenderingManager::new(1);
    let id = m.add_rendering_request(snapshot(9));
    m.try_dispatch();
    let _ = m.begin_preparation(id).unwrap();
    m.mark_running(id);
    m.finish(id, Err(RenderingError::VivliostyleError(String::from("exit status 1"))));
    assert_eq!(
        m.get_rendering_request_status(id),
        Some(RenderingStatus::Failed(RenderingError::VivliostyleError(String::from(
            "exit status 1"
        ))))
    );
}

#[test]
fn missing_payload_fails_with_no_project_data() {
    let mut m = RenderingManager::new(1);
    let id = m.add_rendering_request(snapshot(3));
    m.try_dispatch();
    // First stage takes the payload.
    let _ = m.begin_preparation(id).unwrap();
    // Beginning the same job again finds no payload: the double-processing
    // guard fails it with NoProjectData and releases the worker.
    let r = m.begin_preparation(id);
    assert_eq!(r, Err(RenderingError::NoProjectData));
    assert_eq!(
        m.get_rendering_request_status(id),
        Some(RenderingStatus::Failed(RenderingError::NoProjectData))
    );
    assert_eq!(m.running, 0);
}

#[test]
fn terminal_status_is_stable_across_later_operations() {
    let mut m = RenderingManager::new(2);
    let id = m.add_rendering_request(snapshot(1));
    m.try_dispatch();
    let _ = m.begin_preparation(id).unwrap();
    m.finish(id, Err(RenderingError::ProjectMetadataMissing));
    let frozen = m.get_rendering_request_status(id);
    // Unrelated activity afterwards never rewrites a terminal status.
    let other = m.add_rendering_request(snapshot(2));
    m.try_dispatch();
    let _ = m.begin_preparation(other).unwrap();
    m.finish(other, Ok(()));
    assert_eq!(m.get_rendering_request_status(id), frozen);
}

#[test]
fn error_messages_carry_their_detail() {
    let e = RenderingError::ErrorLoadingTemplate(String::from("missing file"));
    assert_eq!(e.message(), "Error loading template: missing file");
    assert_eq!(
        RenderingError::NoProjectData.message(),
        "No project data found in rendering request"
    );
}
