//! HTML transcription: block mapping, footnote collection and resolution,
//! and the real parser behind the fragment wrapper.

use bookpress::content::BlockData;
use bookpress::html::{transcribe_fragment, HtmlElement, HtmlNode};
use bookpress::importing::ImportError;
use bookpress::project::{import_html, Project};

fn elem(name: &str, children: Vec<HtmlNode>) -> HtmlNode {
    HtmlNode::Element(HtmlElement {
        name: String::from(name),
        id: None,
        attributes: vec![],
        children,
    })
}

fn elem_with(
    name: &str,
    id: Option<&str>,
    attributes: Vec<(&str, Option<&str>)>,
    children: Vec<HtmlNode>,
) -> HtmlNode {
    HtmlNode::Element(HtmlElement {
        name: String::from(name),
        id: id.map(String::from),
        attributes: attributes
            .into_iter()
            .map(|(k, v)| (String::from(k), v.map(String::from)))
            .collect(),
        children,
    })
}

fn text(t: &str) -> HtmlNode {
    HtmlNode::Text(String::from(t))
}

#[test]
fn headings_map_to_their_levels() {
    let nodes = vec![
        elem("h1", vec![text("One")]),
        elem("H2", vec![text("Two")]),
        elem("h3", vec![text("Three")]),
        elem("h6", vec![text("Six")]),
    ];
    let blocks = transcribe_fragment(&nodes);
    assert_eq!(blocks.len(), 4);
    let levels: Vec<u8> = blocks
        .iter()
        .map(|b| match b {
            BlockData::Heading { level, .. } => *level,
            _ => 0,
        })
        .collect();
    assert_eq!(levels, vec![1, 2, 3, 6]);
}

#[test]
fn paragraphs_lists_and_quotes_are_typed() {
    let nodes = vec![
        elem("p", vec![text("Hello")]),
        elem("ul", vec![elem("li", vec![text("a")]), elem("li", vec![text("b")])]),
        elem("ol", vec![elem("li", vec![text("x")])]),
        elem("blockquote", vec![text("Said so")]),
    ];
    let blocks = transcribe_fragment(&nodes);
    assert_eq!(blocks.len(), 4);
    match &blocks[0] {
        BlockData::Paragraph { text } => assert_eq!(text, "Hello"),
        _ => panic!("expected a paragraph"),
    }
    match &blocks[1] {
        BlockData::List { style, items } => {
            assert_eq!(style, "unordered");
            assert_eq!(items, &vec![String::from("a"), String::from("b")]);
        },
        _ => panic!("expected a list"),
    }
    match &blocks[2] {
        BlockData::List { style, items } => {
            assert_eq!(style, "ordered");
            assert_eq!(items, &vec![String::from("x")]);
        },
        _ => panic!("expected a list"),
    }
    match &blocks[3] {
        BlockData::Quote { text, caption, alignment } => {
            assert_eq!(text, "Said so");
            assert_eq!(caption, "");
            assert_eq!(alignment, "");
        },
        _ => panic!("expected a quote"),
    }
}

#[test]
fn unrecognized_tags_fall_back_to_paragraphs() {
    let nodes = vec![elem("figure", vec![text("inner")]), text("bare text")];
    let blocks = transcribe_fragment(&nodes);
    assert_eq!(blocks.len(), 2);
    match &blocks[0] {
        BlockData::Paragraph { text } => assert_eq!(text, "inner"),
        _ => panic!("expected the fallback paragraph"),
    }
    match &blocks[1] {
        BlockData::Paragraph { text } => assert_eq!(text, "bare text"),
        _ => panic!("expected the wrapped text paragraph"),
    }
}

#[test]
fn nested_inline_markup_is_serialized() {
    let nodes = vec![elem(
        "p",
        vec![text("see "), elem_with("em", None, vec![("class", Some("x"))], vec![text("this")])],
    )];
    let blocks = transcribe_fragment(&nodes);
    match &blocks[0] {
        BlockData::Paragraph { text } => {
            assert_eq!(text, "see <em class=\"x\">this</em>");
        },
        _ => panic!("expected a paragraph"),
    }
}

fn footnote_fixture(reference_target: &str) -> Vec<HtmlNode> {
    // <aside id="footnotes"><ol><li id="fn3"><p>Body <a role="doc-backlink">^</a>
    // with <b>bold</b></p></li></ol></aside>
    let li = elem_with(
        "li",
        Some("fn3"),
        vec![],
        vec![elem(
            "p",
            vec![
                text("Body "),
                elem_with("a", None, vec![("role", Some("doc-backlink"))], vec![text("^")]),
                text("with \"quotes\" and "),
                elem_with("b", None, vec![("class", Some("strong"))], vec![text("bold")]),
            ],
        )],
    );
    let aside = elem_with("aside", Some("footnotes"), vec![], vec![elem("ol", vec![li])]);
    // <p>Claim<a role="doc-noteref"><sup>3</sup></a></p>
    let reference = elem(
        "p",
        vec![
            text("Claim"),
            elem_with(
                "a",
                None,
                vec![("role", Some("doc-noteref"))],
                vec![elem("sup", vec![text(reference_target)])],
            ),
        ],
    );
    vec![reference, aside]
}

#[test]
fn footnote_reference_is_replaced_by_its_resolved_body() {
    let nodes = footnote_fixture("3");
    let blocks = transcribe_fragment(&nodes);
    // The footnotes aside is consumed for the lookup and skipped in the main
    // transcription; only the paragraph remains.
    assert_eq!(blocks.len(), 1);
    match &blocks[0] {
        BlockData::Paragraph { text } => {
            // The backlink anchor is elided; the bold element keeps its tag
            // but loses its attributes; quotes are escaped for the attribute.
            assert_eq!(
                text,
                "Claim<span class=\"note\" note-type=\"footnote\" \
                 note-content=\"Body with 'quotes' and <b>bold</b>\">F</span>"
            );
        },
        _ => panic!("expected a paragraph"),
    }
}

#[test]
fn unresolved_footnote_reference_is_serialized_as_markup() {
    // The anchor points to fn9, which the lookup does not hold: the anchor is
    // serialized like any other element.
    let nodes = footnote_fixture("9");
    let blocks = transcribe_fragment(&nodes);
    match &blocks[0] {
        BlockData::Paragraph { text } => {
            assert_eq!(text, "Claim<a role=\"doc-noteref\"><sup>9</sup></a>");
        },
        _ => panic!("expected a paragraph"),
    }
}

#[test]
fn fragment_parsing_feeds_the_transcription() {
    let mut project = Project::new();
    import_html(&mut project, "<h1>Title</h1><p>Body</p>").unwrap();
    assert_eq!(project.sections.len(), 1);
    match &project.sections[0] {
        bookpress::content::SectionOrToc::Section(sec) => {
            assert_eq!(sec.metadata.title, "Imported Section");
            assert_eq!(sec.children.len(), 2);
            match &sec.children[0].content {
                Some(BlockData::Heading { text, level }) => {
                    assert_eq!(text, "Title");
                    assert_eq!(*level, 1);
                },
                _ => panic!("expected a heading block"),
            }
        },
        _ => panic!("expected a section"),
    }
}

#[test]
fn whole_documents_are_rejected() {
    let mut project = Project::new();
    let r = import_html(
        &mut project,
        "<!doctype html><html><head></head><body><p>x</p></body></html>",
    );
    assert_eq!(r, Err(ImportError::HtmlConversionFailed));
    assert_eq!(project.sections.len(), 0);
}
