//! Editor operations: metadata patching and validation, person, keyword and
//! identifier lists, block operations within a section, section updates, and
//! the tree moves.

use bookpress::api::{ApiError, ApiResult, Patch};
use bookpress::content::{
    add_content_block_to_section, delete_content_block, get_content_block, move_contentblock,
    patch_contentblock, update_contentblock, update_section, BlockData, ContentBlock,
    Identifier, PatchContentBlock, PatchSection, PatchSectionMetadata, Section, SectionMetadata,
    SectionOrToc,
};
use bookpress::project::{
    add_author_to_project, add_editor_to_project, add_identifier_to_project,
    add_keyword_to_project, get_project_metadata, get_project_settings, patch_project_metadata,
    remove_author_from_project, remove_editor_from_project, remove_identifier_from_project,
    remove_keyword_from_project, set_project_metadata, set_project_settings,
    update_identifier_in_project, Keyword, PatchProjectMetadata, Project, ProjectMetadata,
    ProjectSettings,
};
use bookpress::tree::{
    delete_section, get_content_blocks_in_section, get_section, move_content_after,
    move_content_child_of, remove_section,
};

fn empty_section(id: u128) -> Section {
    Section {
        id: Some(id),
        css_classes: vec![],
        sub_sections: vec![],
        children: vec![],
        visible_in_toc: true,
        metadata: SectionMetadata {
            title: String::from("S"),
            subtitle: None,
            authors: vec![],
            editors: vec![],
            web_url: None,
            identifiers: vec![],
            published: None,
            last_changed: None,
            lang: None,
        },
    }
}

fn block(id: u128, textv: &str) -> ContentBlock {
    ContentBlock {
        id: Some(id),
        revision_id: None,
        content: Some(BlockData::Paragraph { text: String::from(textv) }),
        css_classes: None,
    }
}

fn empty_patch_md() -> PatchProjectMetadata {
    PatchProjectMetadata {
        title: None,
        subtitle: None,
        authors: None,
        editors: None,
        web_url: None,
        identifiers: None,
        published: None,
        languages: None,
        number_of_pages: None,
        short_abstract: None,
        long_abstract: None,
        keywords: None,
        ddc: None,
        license: None,
        series: None,
        volume: None,
        edition: None,
        publisher: None,
    }
}

#[test]
fn api_result_carries_either_error_or_data() {
    let ok: ApiResult<u32> = ApiResult::new_data(5);
    assert!(ok.error.is_none());
    assert_eq!(ok.data, Some(5));
    let err: ApiResult<u32> = ApiResult::new_error(ApiError::NotFound);
    assert!(matches!(err.error, Some(ApiError::NotFound)));
    assert!(err.data.is_none());
}

#[test]
fn settings_and_metadata_round_trip() {
    let mut p = Project::new();
    assert!(get_project_metadata(&p).is_none());
    assert!(get_project_settings(&p).is_none());
    set_project_settings(&mut p, ProjectSettings { template_id: Some(9) });
    assert_eq!(get_project_settings(&p), Some(ProjectSettings { template_id: Some(9) }));
    let mut md = ProjectMetadata::default();
    md.title = String::from("Book");
    set_project_metadata(&mut p, md);
    assert_eq!(get_project_metadata(&p).unwrap().title, "Book");
}

#[test]
fn metadata_patch_overrides_only_present_fields() {
    let mut p = Project::new();
    let mut patch = empty_patch_md();
    patch.title = Some(String::from("New Title"));
    patch.subtitle = Some(Some(String::from("Sub")));
    patch_project_metadata(&mut p, patch, &vec![]).unwrap();
    let md = get_project_metadata(&p).unwrap();
    assert_eq!(md.title, "New Title");
    assert_eq!(md.subtitle, Some(String::from("Sub")));
    assert!(md.authors.is_none());
}

#[test]
fn metadata_patch_rejects_unknown_people() {
    let mut p = Project::new();
    let mut patch = empty_patch_md();
    patch.authors = Some(Some(vec![7]));
    let r = patch_project_metadata(&mut p, patch, &vec![1, 2, 3]);
    assert!(matches!(r, Err(ApiError::BadRequest(_))));
    assert!(p.metadata.is_none());
    let mut patch2 = empty_patch_md();
    patch2.authors = Some(Some(vec![2]));
    patch_project_metadata(&mut p, patch2, &vec![1, 2, 3]).unwrap();
    assert_eq!(get_project_metadata(&p).unwrap().authors, Some(vec![2]));
}

#[test]
fn authors_are_added_once_and_removed_silently() {
    let mut p = Project::new();
    add_author_to_project(&mut p, 10);
    add_author_to_project(&mut p, 11);
    add_author_to_project(&mut p, 10);
    assert_eq!(get_project_metadata(&p).unwrap().authors, Some(vec![10, 11]));
    // Removing an unknown author still succeeds, leaving the list alone.
    remove_author_from_project(&mut p, 99).unwrap();
    remove_author_from_project(&mut p, 10).unwrap();
    assert_eq!(get_project_metadata(&p).unwrap().authors, Some(vec![11]));
}

#[test]
fn editors_report_absence_on_removal() {
    let mut p = Project::new();
    assert!(matches!(remove_editor_from_project(&mut p, 5), Err(ApiError::NotFound)));
    add_editor_to_project(&mut p, 5);
    assert!(matches!(remove_editor_from_project(&mut p, 6), Err(ApiError::NotFound)));
    remove_editor_from_project(&mut p, 5).unwrap();
    assert_eq!(get_project_metadata(&p).unwrap().editors, Some(vec![]));
}

#[test]
fn keywords_are_added_once_and_removed_by_title() {
    let mut p = Project::new();
    add_keyword_to_project(&mut p, Keyword { title: String::from("logic") });
    add_keyword_to_project(&mut p, Keyword { title: String::from("logic") });
    add_keyword_to_project(&mut p, Keyword { title: String::from("types") });
    let md = get_project_metadata(&p).unwrap();
    let titles: Vec<String> = md.keywords.unwrap().into_iter().map(|k| k.title).collect();
    assert_eq!(titles, vec![String::from("logic"), String::from("types")]);
    remove_keyword_from_project(&mut p, "logic").unwrap();
    assert!(matches!(remove_keyword_from_project(&mut p, "logic"), Err(ApiError::NotFound)));
}

#[test]
fn identifiers_get_fresh_identities_and_update_by_identity() {
    let mut p = Project::new();
    let preset = Identifier { id: Some(3), name: String::from("isbn"), value: String::from("x") };
    assert!(matches!(add_identifier_to_project(&mut p, preset), Err(ApiError::BadRequest(_))));
    let added = add_identifier_to_project(
        &mut p,
        Identifier { id: None, name: String::from("isbn"), value: String::from("111") },
    )
    .unwrap();
    let tid = added.id.unwrap();
    // A mismatched body identity is rejected.
    let mismatched =
        Identifier { id: Some(tid.wrapping_add(1)), name: String::from("isbn"), value: String::from("2") };
    assert!(matches!(
        update_identifier_in_project(&mut p, tid, mismatched),
        Err(ApiError::BadRequest(_))
    ));
    update_identifier_in_project(
        &mut p,
        tid,
        Identifier { id: None, name: String::from("doi"), value: String::from("d1") },
    )
    .unwrap();
    let md = get_project_metadata(&p).unwrap();
    let idents = md.identifiers.unwrap();
    assert_eq!(idents.len(), 1);
    assert_eq!(idents[0].name, "doi");
    assert_eq!(idents[0].id, Some(tid));
    remove_identifier_from_project(&mut p, tid).unwrap();
    assert!(matches!(remove_identifier_from_project(&mut p, tid), Err(ApiError::NotFound)));
}

#[test]
fn blocks_are_added_fetched_updated_and_deleted() {
    let mut s = empty_section(1);
    let preset = block(5, "oops");
    assert!(matches!(
        add_content_block_to_section(&mut s, preset, 50),
        Err(ApiError::BadRequest(_))
    ));
    let mut fresh = block(0, "hello");
    fresh.id = None;
    let added = add_content_block_to_section(&mut s, fresh, 50).unwrap();
    assert_eq!(added.id, Some(50));
    let got = get_content_block(&s, 50).unwrap();
    match got.content {
        Some(BlockData::Paragraph { ref text }) => assert_eq!(text, "hello"),
        _ => panic!("expected the paragraph"),
    }
    // The replacement must carry the addressed identity.
    assert!(matches!(
        update_contentblock(&mut s, 50, block(51, "renamed")),
        Err(ApiError::BadRequest(_))
    ));
    update_contentblock(&mut s, 50, block(50, "updated")).unwrap();
    match get_content_block(&s, 50).unwrap().content {
        Some(BlockData::Paragraph { ref text }) => assert_eq!(text, "updated"),
        _ => panic!("expected the paragraph"),
    }
    delete_content_block(&mut s, 50).unwrap();
    assert!(get_content_block(&s, 50).is_none());
    assert!(matches!(delete_content_block(&mut s, 50), Err(ApiError::NotFound)));
}

#[test]
fn blocks_move_to_front_and_after_targets() {
    let mut s = empty_section(1);
    s.children = vec![block(1, "a"), block(2, "b"), block(3, "c")];
    // Without a target the block moves to the front.
    move_contentblock(&mut s, 3, None).unwrap();
    let order: Vec<u128> = s.children.iter().map(|b| b.id.unwrap()).collect();
    assert_eq!(order, vec![3, 1, 2]);
    // With a target it lands right after it.
    move_contentblock(&mut s, 3, Some(2)).unwrap();
    let order2: Vec<u128> = s.children.iter().map(|b| b.id.unwrap()).collect();
    assert_eq!(order2, vec![1, 2, 3]);
    // An unknown target restores the original order and reports absence.
    assert!(matches!(move_contentblock(&mut s, 1, Some(9)), Err(ApiError::NotFound)));
    let order3: Vec<u128> = s.children.iter().map(|b| b.id.unwrap()).collect();
    assert_eq!(order3, vec![1, 2, 3]);
}

#[test]
fn block_patch_requires_content_and_keeps_identity() {
    let mut s = empty_section(1);
    let mut no_content = block(7, "x");
    no_content.content = None;
    s.children.push(no_content);
    let p = PatchContentBlock { id: None, revision_id: None, content: None, css_classes: None };
    assert!(matches!(patch_contentblock(&mut s, 7, p), Err(ApiError::BadRequest(_))));
    let mut s2 = empty_section(1);
    s2.children.push(block(7, "x"));
    let p2 = PatchContentBlock {
        id: None,
        revision_id: Some(Some(77)),
        content: Some(Some(BlockData::Paragraph { text: String::from("y") })),
        css_classes: None,
    };
    let patched = patch_contentblock(&mut s2, 7, p2).unwrap();
    assert_eq!(patched.revision_id, Some(77));
    match patched.content {
        Some(BlockData::Paragraph { ref text }) => assert_eq!(text, "y"),
        _ => panic!("expected the patched paragraph"),
    }
}

#[test]
fn section_update_validates_sorts_and_stamps() {
    let mut s = empty_section(1);
    let patch = PatchSection {
        id: None,
        css_classes: None,
        visible_in_toc: Some(false),
        metadata: Some(PatchSectionMetadata {
            title: Some(String::from("T")),
            subtitle: None,
            authors: Some(vec![9, 4, 9, 2]),
            editors: None,
            web_url: None,
            identifiers: Some(vec![Identifier {
                id: None,
                name: String::from("doi"),
                value: String::from("d"),
            }]),
            published: None,
            last_changed: None,
            lang: None,
        }),
    };
    // An unknown author rejects the whole update.
    let bad = update_section(&mut s, patch, &vec![2, 4], 1000);
    assert!(matches!(bad, Err(ApiError::BadRequest(_))));
    assert_eq!(s.metadata.title, "S");
    let patch2 = PatchSection {
        id: None,
        css_classes: None,
        visible_in_toc: Some(false),
        metadata: Some(PatchSectionMetadata {
            title: Some(String::from("T")),
            subtitle: None,
            authors: Some(vec![9, 4, 9, 2]),
            editors: None,
            web_url: None,
            identifiers: Some(vec![Identifier {
                id: None,
                name: String::from("doi"),
                value: String::from("d"),
            }]),
            published: None,
            last_changed: None,
            lang: None,
        }),
    };
    let updated = update_section(&mut s, patch2, &vec![2, 4, 9], 1000).unwrap();
    assert_eq!(updated.metadata.title, "T");
    assert_eq!(updated.metadata.authors, vec![2, 4, 9]);
    assert_eq!(updated.metadata.last_changed, Some(1000));
    assert!(updated.metadata.identifiers[0].id.is_some());
    assert!(!updated.visible_in_toc);
    assert_eq!(s.metadata.title, "T");
}

#[test]
fn section_patch_leaves_the_original_alone() {
    let mut s = empty_section(4);
    let patch = PatchSection {
        id: Some(Some(8)),
        css_classes: Some(vec![String::from("wide")]),
        visible_in_toc: None,
        metadata: None,
    };
    let patched = Patch::patch(&mut s, patch);
    assert_eq!(patched.id, Some(8));
    assert_eq!(patched.css_classes, vec![String::from("wide")]);
    assert_eq!(s.id, Some(4));
}

#[test]
fn sections_are_removed_depth_first() {
    let mut inner = empty_section(2);
    inner.sub_sections.push(empty_section(3));
    let mut p = Project::new();
    p.sections.push(SectionOrToc::Toc);
    p.sections.push(SectionOrToc::Section(inner));
    let removed = remove_section(&mut p.sections, 3).unwrap();
    assert_eq!(removed.id, Some(3));
    match &p.sections[1] {
        SectionOrToc::Section(sec) => assert!(sec.sub_sections.is_empty()),
        _ => panic!("expected the outer section"),
    }
    assert!(remove_section(&mut p.sections, 3).is_none());
}

#[test]
fn section_moves_after_and_under_targets() {
    let mut p = Project::new();
    p.sections.push(SectionOrToc::Section(empty_section(1)));
    p.sections.push(SectionOrToc::Section(empty_section(2)));
    p.sections.push(SectionOrToc::Section(empty_section(3)));
    // Move 1 after 2.
    move_content_after(&mut p, 1, 2).unwrap();
    let ids: Vec<u128> = p
        .sections
        .iter()
        .map(|e| match e {
            SectionOrToc::Section(s) => s.id.unwrap(),
            SectionOrToc::Toc => 0,
        })
        .collect();
    assert_eq!(ids, vec![2, 1, 3]);
    // Move 3 under 2 as its first child.
    move_content_child_of(&mut p, 3, 2).unwrap();
    match &p.sections[0] {
        SectionOrToc::Section(s) => {
            assert_eq!(s.id, Some(2));
            assert_eq!(s.sub_sections[0].id, Some(3));
        },
        _ => panic!("expected section 2 first"),
    }
    // An unknown target re-appends the moved section at the end.
    assert!(matches!(move_content_after(&mut p, 1, 99), Err(ApiError::NotFound)));
    match p.sections.last().unwrap() {
        SectionOrToc::Section(s) => assert_eq!(s.id, Some(1)),
        _ => panic!("expected the re-appended section"),
    }
}

#[test]
fn section_lookup_strips_subsections_and_hands_out_blocks() {
    let mut outer = empty_section(1);
    let mut inner = empty_section(2);
    inner.children.push(block(10, "deep"));
    outer.sub_sections.push(inner);
    let mut p = Project::new();
    p.sections.push(SectionOrToc::Section(outer));
    let found = get_section(&p, 2).unwrap();
    assert_eq!(found.id, Some(2));
    assert!(found.sub_sections.is_empty());
    let blocks = get_content_blocks_in_section(&p, 2).unwrap();
    assert_eq!(blocks.len(), 1);
    assert_eq!(blocks[0].id, Some(10));
    assert!(matches!(get_section(&p, 9), Err(ApiError::NotFound)));
    delete_section(&mut p, 2).unwrap();
    assert!(matches!(get_section(&p, 2), Err(ApiError::NotFound)));
    assert!(matches!(delete_section(&mut p, 2), Err(ApiError::NotFound)));
}

#[test]
fn contents_listing_strips_block_content_at_every_depth() {
    let mut inner = empty_section(2);
    inner.children.push(block(20, "deep text"));
    let mut outer = empty_section(1);
    outer.children.push(block(10, "top text"));
    outer.sub_sections.push(inner);
    let mut p = Project::new();
    p.sections.push(SectionOrToc::Toc);
    p.sections.push(SectionOrToc::Section(outer));
    let listing = bookpress::tree::get_project_contents(&p);
    assert_eq!(listing.len(), 2);
    assert!(matches!(listing[0], SectionOrToc::Toc));
    match &listing[1] {
        SectionOrToc::Section(sec) => {
            assert_eq!(sec.children[0].id, Some(10));
            assert!(sec.children[0].content.is_none());
            assert!(sec.sub_sections[0].children[0].content.is_none());
        },
        _ => panic!("expected the stripped section"),
    }
    // The original is untouched.
    match &p.sections[1] {
        SectionOrToc::Section(sec) => assert!(sec.children[0].content.is_some()),
        _ => panic!("expected the original section"),
    }
}

#[test]
fn section_metadata_patch_keeps_absent_fields() {
    let mut md = SectionMetadata {
        title: String::from("Old"),
        subtitle: Some(String::from("Keep")),
        authors: vec![1],
        editors: vec![],
        web_url: None,
        identifiers: vec![],
        published: Some(5),
        last_changed: None,
        lang: None,
    };
    let patch = PatchSectionMetadata {
        title: Some(String::from("New")),
        subtitle: None,
        authors: None,
        editors: None,
        web_url: None,
        identifiers: None,
        published: Some(None),
        last_changed: None,
        lang: None,
    };
    let patched = Patch::patch(&mut md, patch);
    assert_eq!(patched.title, "New");
    assert_eq!(patched.subtitle, Some(String::from("Keep")));
    assert_eq!(patched.authors, vec![1]);
    assert_eq!(patched.published, None);
    assert_eq!(md.title, "Old");
}

#[test]
fn contents_entries_are_appended_with_fresh_identities() {
    let mut p = Project::new();
    let toc = bookpress::project::add_content(&mut p, SectionOrToc::Toc);
    assert!(matches!(toc, SectionOrToc::Toc));
    let mut sec = empty_section(0);
    sec.id = None;
    let added = bookpress::project::add_content(&mut p, SectionOrToc::Section(sec));
    match added {
        SectionOrToc::Section(s) => assert!(s.id.is_some()),
        _ => panic!("expected the appended section"),
    }
    let kept = bookpress::project::add_content(&mut p, SectionOrToc::Section(empty_section(77)));
    match kept {
        SectionOrToc::Section(s) => assert_eq!(s.id, Some(77)),
        _ => panic!("expected the appended section"),
    }
    assert_eq!(p.sections.len(), 3);
}
