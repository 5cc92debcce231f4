//! The import pipeline: bounded dispatch, the per-file stepping with
//! cleanup-on-abort, and the content-type dispatch table.

use bookpress::importing::{
    conversion_format, ConversionFormat, ImportError, ImportFile, ImportProcessor, ImportStatus,
};
use bookpress::project::Project;

fn file(path: &str, ct: &str) -> ImportFile {
    ImportFile { path: String::from(path), content_type: String::from(ct) }
}

#[test]
fn unsupported_content_type_selects_no_converter() {
    // An unsupported declared type yields no conversion format at all, so the
    // caller reports UnsupportedFileType before any converter could run.
    assert_eq!(conversion_format("image/png"), None);
    assert_eq!(conversion_format("text/plain"), None);
    assert_eq!(conversion_format(""), None);
}

#[test]
fn recognized_content_types_select_their_format() {
    assert_eq!(conversion_format("text/x-tex"), Some(ConversionFormat::Latex));
    assert_eq!(conversion_format("application/x-tex"), Some(ConversionFormat::Latex));
    assert_eq!(
        conversion_format("application/vnd.oasis.opendocument.text"),
        Some(ConversionFormat::Odt)
    );
    assert_eq!(
        conversion_format("application/vnd.openxmlformats-officedocument.wordprocessingml.document"),
        Some(ConversionFormat::Docx)
    );
    assert_eq!(conversion_format("application/msword"), Some(ConversionFormat::Doc));
    assert_eq!(conversion_format("application/epub+zip"), Some(ConversionFormat::Epub));
    assert_eq!(conversion_format("application/rtf"), Some(ConversionFormat::Rtf));
    assert_eq!(conversion_format("text/markdown"), Some(ConversionFormat::Markdown));
    assert_eq!(conversion_format("text/x-markdown"), Some(ConversionFormat::Markdown));
}

#[test]
fn import_worker_count_respects_the_maximum() {
    let mut p = ImportProcessor::new(1);
    p.enqueue_import(1, vec![], None);
    p.enqueue_import(2, vec![], None);
    assert!(p.try_dispatch().is_some());
    assert_eq!(p.running, 1);
    assert!(p.try_dispatch().is_none());
    assert_eq!(p.running, 1);
}

#[test]
fn pending_job_reports_pending_then_processing() {
    let mut p = ImportProcessor::new(1);
    let id = p.enqueue_import(42, vec![file("/tmp/a.tex", "text/x-tex")], None);
    assert_eq!(p.get_import_job_status(id), Some(ImportStatus::Pending));
    assert_eq!(p.try_dispatch(), Some(id));
    assert_eq!(p.get_import_job_status(id), Some(ImportStatus::Processing));
    assert_eq!(p.job_project_id(id), 42);
    assert!(p.job_bib_file(id).is_none());
}

#[test]
fn exhausted_file_list_completes_the_job() {
    let mut p = ImportProcessor::new(1);
    let id = p.enqueue_import(1, vec![file("/tmp/a.tex", "text/x-tex")], None);
    p.try_dispatch();
    let f = p.next_pending_file(id).expect("one file pending");
    assert_eq!(f.path, "/tmp/a.tex");
    p.record_file_done(id);
    assert!(p.next_pending_file(id).is_none());
    // Completion is only reachable with every given file recorded.
    assert_eq!(p.job_progress(id), (1, 0, 1));
    p.complete_job(id);
    assert_eq!(p.get_import_job_status(id), Some(ImportStatus::Complete));
    assert_eq!(p.running, 0);
}

#[test]
fn files_are_taken_in_queue_order() {
    let mut p = ImportProcessor::new(1);
    let files = vec![
        file("/tmp/one.tex", "text/x-tex"),
        file("/tmp/two.rtf", "application/rtf"),
        file("/tmp/three.md", "text/markdown"),
    ];
    let id = p.enqueue_import(1, files, None);
    p.try_dispatch();
    assert_eq!(p.next_pending_file(id).unwrap().path, "/tmp/one.tex");
    p.record_file_done(id);
    assert_eq!(p.next_pending_file(id).unwrap().path, "/tmp/two.rtf");
    p.record_file_done(id);
    assert_eq!(p.next_pending_file(id).unwrap().path, "/tmp/three.md");
}

#[test]
fn failed_conversion_aborts_and_cleans_up_remaining_files() {
    // Files run one at a time, in queue order: a.tex first, then b.docx.
    let mut p = ImportProcessor::new(1);
    let files = vec![
        file("/tmp/a.tex", "text/x-tex"),
        file("/tmp/b.docx", "application/vnd.openxmlformats-officedocument.wordprocessingml.document"),
        file("/tmp/c.rtf", "application/rtf"),
    ];
    let id = p.enqueue_import(1, files, None);
    p.try_dispatch();

    // a.tex converts and merges; its own temp file is deleted right away by
    // the driver, not by the abort path.
    let first = p.next_pending_file(id).unwrap();
    assert_eq!(first.path, "/tmp/a.tex");
    p.record_file_done(id);

    // b.docx fails conversion: the job fails, and the cleanup list holds the
    // failing file plus every not-yet-processed one - not a.tex.
    let second = p.next_pending_file(id).unwrap();
    assert_eq!(second.path, "/tmp/b.docx");
    let cleanup = p.abort_with_cleanup(id, second.path.clone());
    assert_eq!(cleanup, vec![String::from("/tmp/b.docx"), String::from("/tmp/c.rtf")]);
    assert_eq!(p.get_import_job_status(id), Some(ImportStatus::Failed));
    assert_eq!(p.running, 0);
}

#[test]
fn failed_job_gains_exactly_the_merged_blocks() {
    // The content tree keeps what successful files contributed before the
    // failure and nothing else.
    let mut project = Project::new();
    bookpress::project::import_html(&mut project, "<p>From the first file</p>").unwrap();
    // The second file fails before its blocks are merged: nothing more
    // arrives.
    assert_eq!(project.sections.len(), 1);
}

#[test]
fn bib_failure_fails_the_job_before_any_file() {
    let mut p = ImportProcessor::new(1);
    let id = p.enqueue_import(
        5,
        vec![file("/tmp/a.tex", "text/x-tex")],
        Some(String::from("/tmp/refs.bib")),
    );
    p.try_dispatch();
    assert_eq!(p.job_bib_file(id), Some(String::from("/tmp/refs.bib")));
    p.fail_job(id);
    assert_eq!(p.get_import_job_status(id), Some(ImportStatus::Failed));
    assert_eq!(p.running, 0);
}

#[test]
fn import_error_variants_are_distinct() {
    assert_ne!(ImportError::UnsupportedFileType, ImportError::InvalidFile);
    assert_ne!(ImportError::BibFileInvalid, ImportError::PandocError);
    assert_ne!(ImportError::HtmlConversionFailed, ImportError::UnknownFileType);
}
