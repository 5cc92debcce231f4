//! Bibliography ingestion through the real BibLaTeX parser.

use bookpress::bib::import_bib_entries;
use bookpress::importing::ImportError;
use bookpress::project::Project;

#[test]
fn valid_biblatex_entries_are_merged_by_key() {
    let mut p = Project::new();
    let text = "@book{knuth74, title={The Art}, author={Knuth, Donald}, \
                year={1974}, publisher={AW}}\n\
                @article{lamport94, title={How to Write}, author={Lamport, Leslie}, \
                year={1994}, journal={J}}";
    let n = import_bib_entries(&mut p, text).unwrap();
    assert_eq!(n, 2);
    let keys: Vec<String> = p.bibliography.iter().map(|(k, _)| k.clone()).collect();
    assert!(keys.contains(&String::from("knuth74")));
    assert!(keys.contains(&String::from("lamport94")));
}

#[test]
fn repeated_keys_keep_the_last_entry() {
    let mut p = Project::new();
    import_bib_entries(
        &mut p,
        "@book{same, title={One}, author={A}, year={2000}, publisher={P}}",
    )
    .unwrap();
    import_bib_entries(
        &mut p,
        "@book{same, title={Two}, author={B}, year={2001}, publisher={P}}",
    )
    .unwrap();
    // The table is keyed by citation key: both inserts recorded, the later
    // one wins on lookup.
    let count = p.bibliography.iter().filter(|(k, _)| k == "same").count();
    assert_eq!(count, 2);
}

#[test]
fn unparseable_bibliography_aborts_without_changes() {
    let mut p = Project::new();
    let r = import_bib_entries(&mut p, "@book{broken, title=");
    assert_eq!(r, Err(ImportError::BibFileInvalid));
    assert!(p.bibliography.is_empty());
}
