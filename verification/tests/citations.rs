//! The citation round trip: placeholders before conversion, citation
//! elements after, endnote rewriting, and the edge cases of the placeholder
//! scan.

use bookpress::postprocess;
use bookpress::preprocess;

#[test]
fn one_citation_becomes_the_first_placeholder() {
    let (out, marks) = preprocess::latex(String::from("\\cite{knuth74}"));
    assert_eq!(out, "vb-cite-0");
    assert_eq!(marks, vec![String::from("knuth74")]);
}

#[test]
fn placeholder_restores_the_recorded_key() {
    let restored = postprocess::latex(
        String::from("vb-cite-0"),
        vec![String::from("knuth74")],
    );
    assert_eq!(restored, "<citation data-key=\"knuth74\">C</citation>");
}

#[test]
fn round_trip_survives_surrounding_converter_output() {
    let (pre, marks) = preprocess::latex(String::from("Intro \\cite{knuth74} end."));
    assert_eq!(pre, "Intro vb-cite-0 end.");
    // Any converter output that keeps the token verbatim restores the key.
    let post = postprocess::latex(String::from("<p>Intro vb-cite-0 end.</p>"), marks);
    assert_eq!(post, "<p>Intro <citation data-key=\"knuth74\">C</citation> end.</p>");
}

#[test]
fn citations_are_numbered_by_occurrence() {
    let (out, marks) = preprocess::latex(String::from("\\cite{a} and \\footcite{b}"));
    assert_eq!(out, "vb-cite-0 and vb-cite-1");
    assert_eq!(marks, vec![String::from("a"), String::from("b")]);
}

#[test]
fn optional_arguments_are_consumed() {
    let (out, marks) = preprocess::latex(String::from("\\footcite[p. 5]{key2}"));
    assert_eq!(out, "vb-cite-0");
    assert_eq!(marks, vec![String::from("key2")]);
    let (out2, marks2) = preprocess::latex(String::from("\\fullcite[see][p. 9]{key3}"));
    assert_eq!(out2, "vb-cite-0");
    assert_eq!(marks2, vec![String::from("key3")]);
}

#[test]
fn longer_command_names_still_match() {
    let (out, marks) = preprocess::latex(String::from("\\footcitetext{deep}"));
    assert_eq!(out, "vb-cite-0");
    assert_eq!(marks, vec![String::from("deep")]);
}

#[test]
fn unclosed_braces_are_left_alone() {
    let (out, marks) = preprocess::latex(String::from("\\cite{open\nrest"));
    assert_eq!(out, "\\cite{open\nrest");
    assert!(marks.is_empty());
}

#[test]
fn endnotes_become_footnotes() {
    let (out, marks) = preprocess::latex(String::from("a \\endnote{note} b"));
    assert_eq!(out, "a \\footnote{note} b");
    assert!(marks.is_empty());
}

#[test]
fn out_of_range_index_restores_an_empty_key() {
    let restored = postprocess::latex(String::from("vb-cite-5"), vec![String::from("only")]);
    assert_eq!(restored, "<citation data-key=\"\">C</citation>");
}

#[test]
fn index_past_machine_range_is_marked_invalid() {
    let restored = postprocess::latex(
        String::from("vb-cite-99999999999999999999999999"),
        vec![String::from("k")],
    );
    assert_eq!(restored, "invalid-citation!");
}

#[test]
fn token_without_digits_is_copied_verbatim() {
    let restored = postprocess::latex(String::from("vb-cite-x"), vec![String::from("k")]);
    assert_eq!(restored, "vb-cite-x");
}
