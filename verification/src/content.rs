//! The project's content model: typed content blocks and the sections that
//! hold them, as closed sum types, with mathematical views over character
//! sequences.

use vstd::prelude::*;

verus! {

/// The payload of one content block, a closed set of block kinds.
pub enum BlockData {
    Paragraph { text: String },
    Heading { text: String, level: u8 },
    List { style: String, items: Vec<String> },
    Quote { text: String, caption: String, alignment: String },
}

/// The mathematical value of a block payload.
#[verifier::ext_equal]
pub enum BlockDataModel {
    Paragraph { text: Seq<char> },
    Heading { text: Seq<char>, level: u8 },
    List { style: Seq<char>, items: Seq<Seq<char>> },
    Quote { text: Seq<char>, caption: Seq<char>, alignment: Seq<char> },
}

impl View for BlockData {
    type V = BlockDataModel;

    open spec fn view(&self) -> BlockDataModel {
        match self {
            BlockData::Paragraph { text } => BlockDataModel::Paragraph { text: text@ },
            BlockData::Heading { text, level } => BlockDataModel::Heading {
                text: text@,
                level: *level,
            },
            BlockData::List { style, items } => BlockDataModel::List {
                style: style@,
                items: crate::text::string_views(items@),
            },
            BlockData::Quote { text, caption, alignment } => BlockDataModel::Quote {
                text: text@,
                caption: caption@,
                alignment: alignment@,
            },
        }
    }
}

/// The mathematical values of a sequence of block payloads.
pub open spec fn blocks_view(s: Seq<BlockData>) -> Seq<BlockDataModel> {
    s.map_values(|b: BlockData| b@)
}

/// The view of an optional string.
pub open spec fn opt_str_view(o: Option<String>) -> Option<Seq<char>> {
    match o {
        Option::Some(s) => Some(s@),
        Option::None => None,
    }
}

/// The view of an optional string list.
pub open spec fn opt_strings_view(o: Option<Vec<String>>) -> Option<Seq<Seq<char>>> {
    match o {
        Option::Some(v) => Some(crate::text::string_views(v@)),
        Option::None => None,
    }
}

/// Clones an optional string, exactly.
pub fn clone_opt_string(o: &Option<String>) -> (r: Option<String>)
    ensures
        r == *o,
{
    match o {
        Some(s) => Some(s.clone()),
        None => None,
    }
}

/// Copies a vector of identity tokens, exactly.
pub fn copy_ids(v: &Vec<u128>) -> (r: Vec<u128>)
    ensures
        r@ == v@,
{
    let mut out: Vec<u128> = Vec::new();
    let mut i: usize = 0;
    while i < v.len()
        invariant
            i <= v@.len(),
            out@ =~= v@.subrange(0, i as int),
        decreases v@.len() - i,
    {
        out.push(v[i]);
        proof {
            assert(out@ =~= v@.subrange(0, i + 1));
        }
        i = i + 1;
    }
    proof {
        assert(out@ =~= v@);
    }
    out
}

/// Clones a vector of strings, exactly.
pub fn clone_strings(v: &Vec<String>) -> (r: Vec<String>)
    ensures
        r@ == v@,
{
    let mut out: Vec<String> = Vec::new();
    let mut i: usize = 0;
    while i < v.len()
        invariant
            i <= v@.len(),
            out@ =~= v@.subrange(0, i as int),
        decreases v@.len() - i,
    {
        out.push(v[i].clone());
        proof {
            assert(out@ =~= v@.subrange(0, i + 1));
        }
        i = i + 1;
    }
    proof {
        assert(out@ =~= v@);
    }
    out
}

/// A document identifier attached to a project or section (an ISBN, a DOI).
pub struct Identifier {
    pub id: Option<u128>,
    pub name: String,
    pub value: String,
}

/// The mathematical value of an identifier.
#[verifier::ext_equal]
pub struct IdentifierModel {
    pub id: Option<u128>,
    pub name: Seq<char>,
    pub value: Seq<char>,
}

impl View for Identifier {
    type V = IdentifierModel;

    open spec fn view(&self) -> IdentifierModel {
        IdentifierModel { id: self.id, name: self.name@, value: self.value@ }
    }
}

impl Clone for Identifier {
    fn clone(&self) -> (r: Self)
        ensures
            r@ == self@,
    {
        Identifier { id: self.id, name: self.name.clone(), value: self.value.clone() }
    }
}

/// The views of a sequence of identifiers.
pub open spec fn identifiers_view(s: Seq<Identifier>) -> Seq<IdentifierModel> {
    s.map_values(|x: Identifier| x@)
}

/// Clones a vector of identifiers, view for view.
pub fn clone_identifiers(v: &Vec<Identifier>) -> (r: Vec<Identifier>)
    ensures
        identifiers_view(r@) == identifiers_view(v@),
{
    let mut out: Vec<Identifier> = Vec::new();
    let mut i: usize = 0;
    while i < v.len()
        invariant
            i <= v@.len(),
            out@.len() == i,
            forall|k: int| 0 <= k < i ==> (#[trigger] out@[k])@ == v@[k]@,
        decreases v@.len() - i,
    {
        out.push(v[i].clone());
        i = i + 1;
    }
    proof {
        assert forall|k: int| 0 <= k < v@.len() implies identifiers_view(out@)[k]
            == identifiers_view(v@)[k] by {
            assert(out@[k]@ == v@[k]@);
        }
        assert(identifiers_view(out@) =~= identifiers_view(v@));
    }
    out
}

/// One content block of a section.
pub struct ContentBlock {
    pub id: Option<u128>,
    pub revision_id: Option<u128>,
    pub content: Option<BlockData>,
    pub css_classes: Option<Vec<String>>,
}

/// The mathematical value of a content block.
#[verifier::ext_equal]
pub struct ContentBlockModel {
    pub id: Option<u128>,
    pub revision_id: Option<u128>,
    pub content: Option<BlockDataModel>,
    pub css_classes: Option<Seq<Seq<char>>>,
}

impl View for ContentBlock {
    type V = ContentBlockModel;

    open spec fn view(&self) -> ContentBlockModel {
        ContentBlockModel {
            id: self.id,
            revision_id: self.revision_id,
            content: match self.content {
                Option::Some(c) => Some(c@),
                Option::None => None,
            },
            css_classes: opt_strings_view(self.css_classes),
        }
    }
}

impl Clone for ContentBlock {
    fn clone(&self) -> (r: Self)
        ensures
            r@ == self@,
    {
        ContentBlock {
            id: self.id,
            revision_id: self.revision_id,
            content: match &self.content {
                Some(c) => Some(c.clone()),
                None => None,
            },
            css_classes: match &self.css_classes {
                Some(v) => Some(clone_strings(v)),
                None => None,
            },
        }
    }
}

/// The views of a sequence of content blocks.
pub open spec fn blocks_model(s: Seq<ContentBlock>) -> Seq<ContentBlockModel> {
    s.map_values(|b: ContentBlock| b@)
}

/// Metadata of one section.
pub struct SectionMetadata {
    pub title: String,
    pub subtitle: Option<String>,
    pub authors: Vec<u128>,
    pub editors: Vec<u128>,
    pub web_url: Option<String>,
    pub identifiers: Vec<Identifier>,
    pub published: Option<i64>,
    pub last_changed: Option<i64>,
    pub lang: Option<String>,
}

/// The mathematical value of section metadata.
#[verifier::ext_equal]
pub struct SectionMetadataModel {
    pub title: Seq<char>,
    pub subtitle: Option<Seq<char>>,
    pub authors: Seq<u128>,
    pub editors: Seq<u128>,
    pub web_url: Option<Seq<char>>,
    pub identifiers: Seq<IdentifierModel>,
    pub published: Option<i64>,
    pub last_changed: Option<i64>,
    pub lang: Option<Seq<char>>,
}

impl View for SectionMetadata {
    type V = SectionMetadataModel;

    open spec fn view(&self) -> SectionMetadataModel {
        SectionMetadataModel {
            title: self.title@,
            subtitle: opt_str_view(self.subtitle),
            authors: self.authors@,
            editors: self.editors@,
            web_url: opt_str_view(self.web_url),
            identifiers: identifiers_view(self.identifiers@),
            published: self.published,
            last_changed: self.last_changed,
            lang: opt_str_view(self.lang),
        }
    }
}

impl Clone for SectionMetadata {
    fn clone(&self) -> (r: Self)
        ensures
            r@ == self@,
    {
        SectionMetadata {
            title: self.title.clone(),
            subtitle: clone_opt_string(&self.subtitle),
            authors: copy_ids(&self.authors),
            editors: copy_ids(&self.editors),
            web_url: clone_opt_string(&self.web_url),
            identifiers: clone_identifiers(&self.identifiers),
            published: self.published,
            last_changed: self.last_changed,
            lang: clone_opt_string(&self.lang),
        }
    }
}

/// One section of the content tree: its own metadata, its content blocks,
/// and its subsections.
pub struct Section {
    pub id: Option<u128>,
    pub css_classes: Vec<String>,
    pub sub_sections: Vec<Section>,
    pub children: Vec<ContentBlock>,
    pub visible_in_toc: bool,
    pub metadata: SectionMetadata,
}

/// The mathematical value of a section.
#[verifier::ext_equal]
pub struct SectionModel {
    pub id: Option<u128>,
    pub css_classes: Seq<Seq<char>>,
    pub sub_sections: Seq<SectionModel>,
    pub children: Seq<ContentBlockModel>,
    pub visible_in_toc: bool,
    pub metadata: SectionMetadataModel,
}

/// The mathematical values of a section list.
pub open spec fn sections_model(v: Seq<Section>) -> Seq<SectionModel>
    decreases v,
{
    if v.len() == 0 {
        Seq::empty()
    } else {
        sections_model(v.drop_last()).push(section_model(v.last()))
    }
}

/// The mathematical value of one section.
pub open spec fn section_model(s: Section) -> SectionModel
    decreases s,
{
    SectionModel {
        id: s.id,
        css_classes: crate::text::string_views(s.css_classes@),
        sub_sections: sections_model(s.sub_sections@),
        children: blocks_model(s.children@),
        visible_in_toc: s.visible_in_toc,
        metadata: s.metadata@,
    }
}

impl View for Section {
    type V = SectionModel;

    open spec fn view(&self) -> SectionModel {
        section_model(*self)
    }
}

/// A top-level entry of a project's contents: a section, or the table of
/// contents placeholder.
pub enum SectionOrToc {
    Toc,
    Section(Section),
}

/// The mathematical value of a top-level contents entry.
#[verifier::ext_equal]
pub enum SectionOrTocModel {
    Toc,
    Section(SectionModel),
}

impl View for SectionOrToc {
    type V = SectionOrTocModel;

    open spec fn view(&self) -> SectionOrTocModel {
        match self {
            SectionOrToc::Toc => SectionOrTocModel::Toc,
            SectionOrToc::Section(s) => SectionOrTocModel::Section(section_model(*s)),
        }
    }
}

impl Clone for SectionOrToc {
    fn clone(&self) -> (r: Self)
        ensures
            r@ == self@,
    {
        match self {
            SectionOrToc::Toc => SectionOrToc::Toc,
            SectionOrToc::Section(s) => SectionOrToc::Section(s.clone()),
        }
    }
}

/// The mathematical values of a project's contents list.
pub open spec fn contents_model(v: Seq<SectionOrToc>) -> Seq<SectionOrTocModel> {
    v.map_values(|e: SectionOrToc| e@)
}

/// A partial update of section metadata: every field may be left alone or
/// replaced; optional fields may also be cleared.
pub struct PatchSectionMetadata {
    pub title: Option<String>,
    pub subtitle: Option<Option<String>>,
    pub authors: Option<Vec<u128>>,
    pub editors: Option<Vec<u128>>,
    pub web_url: Option<Option<String>>,
    pub identifiers: Option<Vec<Identifier>>,
    pub published: Option<Option<i64>>,
    pub last_changed: Option<Option<i64>>,
    pub lang: Option<Option<String>>,
}

/// The mathematical value of a section metadata patch.
#[verifier::ext_equal]
pub struct PatchSectionMetadataModel {
    pub title: Option<Seq<char>>,
    pub subtitle: Option<Option<Seq<char>>>,
    pub authors: Option<Seq<u128>>,
    pub editors: Option<Seq<u128>>,
    pub web_url: Option<Option<Seq<char>>>,
    pub identifiers: Option<Seq<IdentifierModel>>,
    pub published: Option<Option<i64>>,
    pub last_changed: Option<Option<i64>>,
    pub lang: Option<Option<Seq<char>>>,
}

/// The view of a doubly-optional string.
pub open spec fn opt2_str_view(o: Option<Option<String>>) -> Option<Option<Seq<char>>> {
    match o {
        Option::Some(inner) => Some(opt_str_view(inner)),
        Option::None => None,
    }
}

impl View for PatchSectionMetadata {
    type V = PatchSectionMetadataModel;

    open spec fn view(&self) -> PatchSectionMetadataModel {
        PatchSectionMetadataModel {
            title: opt_str_view(self.title),
            subtitle: opt2_str_view(self.subtitle),
            authors: match self.authors {
                Option::Some(v) => Some(v@),
                Option::None => None,
            },
            editors: match self.editors {
                Option::Some(v) => Some(v@),
                Option::None => None,
            },
            web_url: opt2_str_view(self.web_url),
            identifiers: match self.identifiers {
                Option::Some(v) => Some(identifiers_view(v@)),
                Option::None => None,
            },
            published: self.published,
            last_changed: self.last_changed,
            lang: opt2_str_view(self.lang),
        }
    }
}

/// Section metadata after a partial update: a present patch field replaces
/// the record's field, an absent one leaves it alone.
pub open spec fn patched_section_metadata(
    m: SectionMetadataModel,
    p: PatchSectionMetadataModel,
) -> SectionMetadataModel {
    SectionMetadataModel {
        title: match p.title {
            Option::Some(t) => t,
            Option::None => m.title,
        },
        subtitle: match p.subtitle {
            Option::Some(s) => s,
            Option::None => m.subtitle,
        },
        authors: match p.authors {
            Option::Some(a) => a,
            Option::None => m.authors,
        },
        editors: match p.editors {
            Option::Some(e) => e,
            Option::None => m.editors,
        },
        web_url: match p.web_url {
            Option::Some(w) => w,
            Option::None => m.web_url,
        },
        identifiers: match p.identifiers {
            Option::Some(i) => i,
            Option::None => m.identifiers,
        },
        published: match p.published {
            Option::Some(d) => d,
            Option::None => m.published,
        },
        last_changed: match p.last_changed {
            Option::Some(d) => d,
            Option::None => m.last_changed,
        },
        lang: match p.lang {
            Option::Some(l) => l,
            Option::None => m.lang,
        },
    }
}

impl crate::api::Patch<PatchSectionMetadata, SectionMetadata> for SectionMetadata {
    open spec fn patch_ok(&self, patch: &PatchSectionMetadata) -> bool {
        true
    }

    open spec fn patch_rel(
        &self,
        patch: &PatchSectionMetadata,
        r: &SectionMetadata,
        after: &Self,
    ) -> bool {
        &&& r@ == patched_section_metadata(self@, patch@)
        &&& *after == *self
    }

    fn patch(&mut self, patch: PatchSectionMetadata) -> (r: SectionMetadata) {
        let mut new_metadata = self.clone();
        if let Some(title) = patch.title {
            new_metadata.title = title;
        }
        if let Some(subtitle) = patch.subtitle {
            new_metadata.subtitle = subtitle;
        }
        if let Some(authors) = patch.authors {
            new_metadata.authors = authors;
        }
        if let Some(editors) = patch.editors {
            new_metadata.editors = editors;
        }
        if let Some(web_url) = patch.web_url {
            new_metadata.web_url = web_url;
        }
        if let Some(identifiers) = patch.identifiers {
            new_metadata.identifiers = identifiers;
        }
        if let Some(published) = patch.published {
            new_metadata.published = published;
        }
        if let Some(last_changed) = patch.last_changed {
            new_metadata.last_changed = last_changed;
        }
        if let Some(lang) = patch.lang {
            new_metadata.lang = lang;
        }
        new_metadata
    }
}

/// A partial update of a section; its contents (blocks and subsections) are
/// out of a patch's reach.
pub struct PatchSection {
    pub id: Option<Option<u128>>,
    pub css_classes: Option<Vec<String>>,
    pub visible_in_toc: Option<bool>,
    pub metadata: Option<PatchSectionMetadata>,
}

/// The mathematical value of a section patch.
#[verifier::ext_equal]
pub struct PatchSectionModel {
    pub id: Option<Option<u128>>,
    pub css_classes: Option<Seq<Seq<char>>>,
    pub visible_in_toc: Option<bool>,
    pub metadata: Option<PatchSectionMetadataModel>,
}

impl View for PatchSection {
    type V = PatchSectionModel;

    open spec fn view(&self) -> PatchSectionModel {
        PatchSectionModel {
            id: self.id,
            css_classes: match self.css_classes {
                Option::Some(v) => Some(crate::text::string_views(v@)),
                Option::None => None,
            },
            visible_in_toc: self.visible_in_toc,
            metadata: match self.metadata {
                Option::Some(m) => Some(m@),
                Option::None => None,
            },
        }
    }
}

/// A section after a partial update; blocks and subsections are untouched.
pub open spec fn patched_section(m: SectionModel, p: PatchSectionModel) -> SectionModel {
    SectionModel {
        id: match p.id {
            Option::Some(i) => i,
            Option::None => m.id,
        },
        css_classes: match p.css_classes {
            Option::Some(c) => c,
            Option::None => m.css_classes,
        },
        visible_in_toc: match p.visible_in_toc {
            Option::Some(v) => v,
            Option::None => m.visible_in_toc,
        },
        metadata: match p.metadata {
            Option::Some(pm) => patched_section_metadata(m.metadata, pm),
            Option::None => m.metadata,
        },
        sub_sections: m.sub_sections,
        children: m.children,
    }
}

pub proof fn lemma_sections_model_index(v: Seq<Section>, k: int)
    requires
        0 <= k < v.len(),
    ensures
        sections_model(v).len() == v.len(),
        sections_model(v)[k] == section_model(v[k]),
    decreases v,
{
    if v.len() > 0 {
        if k < v.len() - 1 {
            lemma_sections_model_index(v.drop_last(), k);
            assert(v.drop_last()[k] == v[k]);
        } else {
            lemma_sections_model_len(v.drop_last());
        }
    }
}

pub proof fn lemma_sections_model_len(v: Seq<Section>)
    ensures
        sections_model(v).len() == v.len(),
    decreases v,
{
    if v.len() > 0 {
        lemma_sections_model_len(v.drop_last());
    }
}

/// Clones a section list, view for view.
#[verifier::loop_isolation(false)]
fn clone_sections(v: &Vec<Section>) -> (r: Vec<Section>)
    ensures
        sections_model(r@) == sections_model(v@),
    decreases v@,
{
    let mut out: Vec<Section> = Vec::new();
    let mut i: usize = 0;
    while i < v.len()
        invariant
            i <= v@.len(),
            out@.len() == i,
            forall|k: int| 0 <= k < i ==> section_model(#[trigger] out@[k]) == section_model(v@[k]),
        decreases v@.len() - i,
    {
        proof {
            broadcast use vstd::std_specs::vec::axiom_vec_index_decreases;

            assert(decreases_to!(v@ => v@[i as int]));
        }
        out.push(v[i].clone());
        i = i + 1;
    }
    proof {
        assert forall|k: int| 0 <= k < v@.len() implies sections_model(out@)[k] == sections_model(
            v@,
        )[k] by {
            lemma_sections_model_index(out@, k);
            lemma_sections_model_index(v@, k);
        }
        lemma_sections_model_len(out@);
        lemma_sections_model_len(v@);
        assert(sections_model(out@) =~= sections_model(v@));
    }
    out
}

/// Clones a block list, view for view.
fn clone_blocks(v: &Vec<ContentBlock>) -> (r: Vec<ContentBlock>)
    ensures
        blocks_model(r@) == blocks_model(v@),
{
    let mut out: Vec<ContentBlock> = Vec::new();
    let mut i: usize = 0;
    while i < v.len()
        invariant
            i <= v@.len(),
            out@.len() == i,
            forall|k: int| 0 <= k < i ==> (#[trigger] out@[k])@ == v@[k]@,
        decreases v@.len() - i,
    {
        out.push(v[i].clone());
        i = i + 1;
    }
    proof {
        assert forall|k: int| 0 <= k < v@.len() implies blocks_model(out@)[k] == blocks_model(
            v@,
        )[k] by {
            assert(out@[k]@ == v@[k]@);
        }
        assert(blocks_model(out@) =~= blocks_model(v@));
    }
    out
}

impl Clone for Section {
    fn clone(&self) -> (r: Self)
        ensures
            r@ == self@,
        decreases *self,
    {
        proof {
            assert(decreases_to!(*self => self.sub_sections));
        }
        Section {
            id: self.id,
            css_classes: clone_strings(&self.css_classes),
            sub_sections: clone_sections(&self.sub_sections),
            children: clone_blocks(&self.children),
            visible_in_toc: self.visible_in_toc,
            metadata: self.metadata.clone(),
        }
    }
}

impl crate::api::Patch<PatchSection, Section> for Section {
    open spec fn patch_ok(&self, patch: &PatchSection) -> bool {
        true
    }

    open spec fn patch_rel(&self, patch: &PatchSection, r: &Section, after: &Self) -> bool {
        &&& r@ == patched_section(self@, patch@)
        &&& after@ == self@
    }

    fn patch(&mut self, patch: PatchSection) -> (r: Section) {
        let mut new_section = self.clone();
        if let Some(id) = patch.id {
            new_section.id = id;
        }
        if let Some(css_classes) = patch.css_classes {
            new_section.css_classes = css_classes;
        }
        if let Some(visible_in_toc) = patch.visible_in_toc {
            new_section.visible_in_toc = visible_in_toc;
        }
        if let Some(metadata) = patch.metadata {
            new_section.metadata = crate::api::Patch::patch(&mut self.metadata, metadata);
        }
        new_section
    }
}

/// A partial update of a content block.
pub struct PatchContentBlock {
    pub id: Option<Option<u128>>,
    pub revision_id: Option<Option<u128>>,
    pub content: Option<Option<BlockData>>,
    pub css_classes: Option<Option<Vec<String>>>,
}

/// The mathematical value of a content block patch.
#[verifier::ext_equal]
pub struct PatchContentBlockModel {
    pub id: Option<Option<u128>>,
    pub revision_id: Option<Option<u128>>,
    pub content: Option<Option<BlockDataModel>>,
    pub css_classes: Option<Option<Seq<Seq<char>>>>,
}

impl View for PatchContentBlock {
    type V = PatchContentBlockModel;

    open spec fn view(&self) -> PatchContentBlockModel {
        PatchContentBlockModel {
            id: self.id,
            revision_id: self.revision_id,
            content: match self.content {
                Option::Some(Option::Some(c)) => Some(Some(c@)),
                Option::Some(Option::None) => Some(None),
                Option::None => None,
            },
            css_classes: match self.css_classes {
                Option::Some(inner) => Some(opt_strings_view(inner)),
                Option::None => None,
            },
        }
    }
}

/// A content block after a partial update.
pub open spec fn patched_block(
    m: ContentBlockModel,
    p: PatchContentBlockModel,
) -> ContentBlockModel {
    ContentBlockModel {
        id: match p.id {
            Option::Some(i) => i,
            Option::None => m.id,
        },
        revision_id: match p.revision_id {
            Option::Some(r) => r,
            Option::None => m.revision_id,
        },
        content: match p.content {
            Option::Some(c) => c,
            Option::None => m.content,
        },
        css_classes: match p.css_classes {
            Option::Some(c) => c,
            Option::None => m.css_classes,
        },
    }
}

impl crate::api::Patch<PatchContentBlock, ContentBlock> for ContentBlock {
    /// A patch that carries new content cannot be applied to a block that
    /// holds none.
    open spec fn patch_ok(&self, patch: &PatchContentBlock) -> bool {
        !(patch.content matches Some(Some(_)) && self.content is None)
    }

    open spec fn patch_rel(&self, patch: &PatchContentBlock, r: &ContentBlock, after: &Self) -> bool {
        &&& after@ == patched_block(self@, patch@)
        &&& r@ == after@
    }

    fn patch(&mut self, patch: PatchContentBlock) -> (r: ContentBlock) {
        if let Some(id) = patch.id {
            self.id = id;
        }
        if let Some(revision_id) = patch.revision_id {
            self.revision_id = revision_id;
        }
        if let Some(content) = patch.content {
            self.content = content;
        }
        if let Some(css_classes) = patch.css_classes {
            self.css_classes = css_classes;
        }
        self.clone()
    }
}

/// The identity an operation compares a block against: its identity token,
/// or zero where none was assigned.
pub open spec fn block_ident(b: ContentBlockModel) -> u128 {
    match b.id {
        Option::Some(i) => i,
        Option::None => 0,
    }
}

/// Index of the first block carrying this identity, searched from `i` on.
pub open spec fn find_block_from(s: Seq<ContentBlockModel>, id: u128, i: int) -> Option<int>
    decreases s.len() - i,
    when 0 <= i <= s.len()
{
    if i >= s.len() {
        None
    } else if block_ident(s[i]) == id {
        Some(i)
    } else {
        find_block_from(s, id, i + 1)
    }
}

fn block_has_ident(b: &ContentBlock, id: u128) -> (r: bool)
    ensures
        r == (block_ident(b@) == id),
{
    match b.id {
        Some(i) => i == id,
        None => 0u128 == id,
    }
}

/// Finds the position of the first block carrying this identity.
fn find_block(children: &Vec<ContentBlock>, id: u128) -> (r: Option<usize>)
    ensures
        match r {
            Option::Some(i) => find_block_from(blocks_model(children@), id, 0) == Some(i as int)
                && i < children@.len(),
            Option::None => find_block_from(blocks_model(children@), id, 0) is None,
        },
{
    let n = children.len();
    let mut i: usize = 0;
    while i < n
        invariant
            n == children@.len(),
            i <= n,
            find_block_from(blocks_model(children@), id, 0) == find_block_from(
                blocks_model(children@),
                id,
                i as int,
            ),
        decreases n - i,
    {
        proof {
            assert(blocks_model(children@)[i as int] == children@[i as int]@);
        }
        if block_has_ident(&children[i], id) {
            return Some(i);
        }
        i = i + 1;
    }
    None
}

/// Returns a copy of the block with this identity in the section, if any.
pub fn get_content_block(section: &Section, block_id: u128) -> (r: Option<ContentBlock>)
    ensures
        match r {
            Option::Some(b) => {
                &&& find_block_from(section@.children, block_id, 0) matches Some(i)
                &&& b@ == section@.children[find_block_from(section@.children, block_id, 0).unwrap()]
            },
            Option::None => find_block_from(section@.children, block_id, 0) is None,
        },
{
    proof {
        assert(section@.children == blocks_model(section.children@));
    }
    match find_block(&section.children, block_id) {
        Some(i) => Some(section.children[i].clone()),
        None => None,
    }
}

/// Deletes the block with this identity from the section; an unknown
/// identity reports absence and changes nothing.
pub fn delete_content_block(section: &mut Section, block_id: u128) -> (r: Result<
    (),
    crate::api::ApiError,
>)
    ensures
        match r {
            Result::Ok(()) => {
                &&& find_block_from(old(section)@.children, block_id, 0) matches Some(i)
                &&& final(section)@.children == old(section)@.children.remove(
                    find_block_from(old(section)@.children, block_id, 0).unwrap(),
                )
                &&& section_eq_except_children(final(section)@, old(section)@)
            },
            Result::Err(e) => {
                &&& e is NotFound
                &&& find_block_from(old(section)@.children, block_id, 0) is None
                &&& *final(section) == *old(section)
            },
        },
{
    proof {
        assert(old(section)@.children == blocks_model(section.children@));
    }
    match find_block(&section.children, block_id) {
        Some(i) => {
            self_remove_block(section, i);
            Ok(())
        },
        None => Err(crate::api::ApiError::NotFound),
    }
}

/// Everything of the section except its block list is the same.
pub open spec fn section_eq_except_children(a: SectionModel, b: SectionModel) -> bool {
    &&& a.id == b.id
    &&& a.css_classes == b.css_classes
    &&& a.sub_sections == b.sub_sections
    &&& a.visible_in_toc == b.visible_in_toc
    &&& a.metadata == b.metadata
}

fn self_remove_block(section: &mut Section, i: usize) -> (r: ContentBlock)
    requires
        i < old(section).children@.len(),
    ensures
        final(section)@.children == old(section)@.children.remove(i as int),
        r == old(section).children@[i as int],
        r@ == old(section)@.children[i as int],
        section_eq_except_children(final(section)@, old(section)@),
        final(section).children@ == old(section).children@.remove(i as int),
{
    let b = section.children.remove(i);
    proof {
        assert(blocks_model(section.children@) =~= blocks_model(old(section).children@).remove(
            i as int,
        ));
    }
    b
}

fn self_insert_block(section: &mut Section, i: usize, b: ContentBlock)
    requires
        i <= old(section).children@.len(),
    ensures
        final(section)@.children == old(section)@.children.insert(i as int, b@),
        section_eq_except_children(final(section)@, old(section)@),
        final(section).children@ == old(section).children@.insert(i as int, b),
{
    section.children.insert(i, b);
    proof {
        assert(blocks_model(section.children@) =~= blocks_model(
            old(section).children@,
        ).insert(i as int, old(section).children@.insert(i as int, b)[i as int]@));
    }
}

/// Appends a new block to the section under a caller-supplied fresh
/// identity; a block arriving with an identity of its own is rejected.
pub fn add_content_block_to_section(
    section: &mut Section,
    block: ContentBlock,
    fresh_id: u128,
) -> (r: Result<ContentBlock, crate::api::ApiError>)
    ensures
        match r {
            Result::Ok(b) => {
                &&& block.id is None
                &&& b@ == (ContentBlockModel { id: Some(fresh_id), ..block@ })
                &&& final(section)@.children == old(section)@.children.push(b@)
                &&& section_eq_except_children(final(section)@, old(section)@)
            },
            Result::Err(e) => {
                &&& e is BadRequest
                &&& block.id is Some
                &&& *final(section) == *old(section)
            },
        },
{
    if block.id.is_some() {
        return Err(
            crate::api::ApiError::BadRequest(
                String::from_str("Creating blocks with pre-defined id is not permitted."),
            ),
        );
    }
    let mut new_block = block;
    new_block.id = Some(fresh_id);
    let copy = new_block.clone();
    let ghost bm = new_block@;
    section.children.push(new_block);
    proof {
        assert(blocks_model(section.children@) =~= blocks_model(old(section).children@).push(bm));
    }
    Ok(copy)
}

/// Replaces the block with this identity by the given one; the new block
/// must carry the same identity it replaces.
pub fn update_contentblock(
    section: &mut Section,
    block_id: u128,
    new_block: ContentBlock,
) -> (r: Result<(), crate::api::ApiError>)
    ensures
        match r {
            Result::Ok(()) => {
                &&& block_ident(new_block@) == block_id
                &&& find_block_from(old(section)@.children, block_id, 0) matches Some(i)
                &&& final(section)@.children == old(section)@.children.update(
                    find_block_from(old(section)@.children, block_id, 0).unwrap(),
                    new_block@,
                )
                &&& section_eq_except_children(final(section)@, old(section)@)
            },
            Result::Err(e) => {
                &&& *final(section) == *old(section)
                &&& match e {
                    crate::api::ApiError::BadRequest(_) => block_ident(new_block@) != block_id,
                    crate::api::ApiError::NotFound => block_ident(new_block@) == block_id
                        && find_block_from(old(section)@.children, block_id, 0) is None,
                    _ => false,
                }
            },
        },
{
    if !block_has_ident(&new_block, block_id) {
        return Err(
            crate::api::ApiError::BadRequest(
                String::from_str("Content block id in url and body don't match"),
            ),
        );
    }
    proof {
        assert(old(section)@.children == blocks_model(section.children@));
    }
    match find_block(&section.children, block_id) {
        Some(i) => {
            let ghost bm = new_block@;
            let _old = self_remove_block(section, i);
            self_insert_block(section, i, new_block);
            proof {
                assert(final(section)@.children =~= old(section)@.children.update(i as int, bm));
            }
            Ok(())
        },
        None => Err(crate::api::ApiError::NotFound),
    }
}

/// Moves the block with this identity: to the front of the section, or to
/// just after another block.  An unknown target restores the original order
/// and reports absence.
pub fn move_contentblock(
    section: &mut Section,
    content_block_id: u128,
    insert_after: Option<u128>,
) -> (r: Result<(), crate::api::ApiError>)
    ensures
        match r {
            Result::Ok(()) => {
                &&& find_block_from(old(section)@.children, content_block_id, 0) matches Some(p)
                &&& section_eq_except_children(final(section)@, old(section)@)
                &&& (match insert_after {
                    Option::None => final(section)@.children == old(section)@.children.remove(
                        find_block_from(old(section)@.children, content_block_id, 0).unwrap(),
                    ).insert(
                        0,
                        old(section)@.children[find_block_from(
                            old(section)@.children,
                            content_block_id,
                            0,
                        ).unwrap()],
                    ),
                    Option::Some(a) => {
                        let p = find_block_from(
                            old(section)@.children,
                            content_block_id,
                            0,
                        ).unwrap();
                        let rest = old(section)@.children.remove(p);
                        &&& find_block_from(rest, a, 0) matches Some(q)
                        &&& final(section)@.children == rest.insert(
                            find_block_from(rest, a, 0).unwrap() + 1,
                            old(section)@.children[p],
                        )
                    },
                })
            },
            Result::Err(e) => {
                &&& e is NotFound
                &&& final(section)@ == old(section)@
                &&& (find_block_from(old(section)@.children, content_block_id, 0) is None || (
                insert_after matches Some(a) && find_block_from(
                    old(section)@.children.remove(
                        find_block_from(old(section)@.children, content_block_id, 0).unwrap(),
                    ),
                    a,
                    0,
                ) is None))
            },
        },
{
    proof {
        assert(old(section)@.children == blocks_model(section.children@));
    }
    let n = section.children.len();
    let p = match find_block(&section.children, content_block_id) {
        Some(p) => p,
        None => {
            return Err(crate::api::ApiError::NotFound);
        },
    };
    let moved = self_remove_block(section, p);
    let ghost rest = section@.children;
    let insert_pos: usize = match insert_after {
        None => 0,
        Some(a) => {
            proof {
                assert(rest == blocks_model(section.children@));
            }
            match find_block(&section.children, a) {
                Some(q) => {
                    assert(q < n);
                    q + 1
                },
                None => {
                    self_insert_block(section, p, moved);
                    proof {
                        assert(final(section).children@ =~= old(section).children@);
                        assert(final(section)@.children =~~= old(section)@.children);
                        assert(final(section)@ =~~= old(section)@);
                    }
                    return Err(crate::api::ApiError::NotFound);
                },
            }
        },
    };
    self_insert_block(section, insert_pos, moved);
    Ok(())
}

impl Clone for BlockData {
    fn clone(&self) -> (r: Self)
        ensures
            r@ == self@,
    {
        match self {
            BlockData::Paragraph { text } => BlockData::Paragraph { text: text.clone() },
            BlockData::Heading { text, level } => BlockData::Heading {
                text: text.clone(),
                level: *level,
            },
            BlockData::List { style, items } => {
                let mut copied: Vec<String> = Vec::new();
                let mut i: usize = 0;
                while i < items.len()
                    invariant
                        i <= items@.len(),
                        copied@ =~= items@.subrange(0, i as int),
                    decreases items@.len() - i,
                {
                    copied.push(items[i].clone());
                    proof {
                        assert(copied@ =~= items@.subrange(0, i + 1));
                    }
                    i = i + 1;
                }
                proof {
                    assert(copied@ =~= items@);
                }
                BlockData::List { style: style.clone(), items: copied }
            },
            BlockData::Quote { text, caption, alignment } => BlockData::Quote {
                text: text.clone(),
                caption: caption.clone(),
                alignment: alignment.clone(),
            },
        }
    }
}

/// Strictly ascending: sorted with no duplicates.
pub open spec fn strict_sorted(s: Seq<u128>) -> bool {
    forall|i: int, j: int| 0 <= i < j < s.len() ==> s[i] < s[j]
}

/// The two collections hold the same identity tokens.
pub open spec fn same_members(a: Seq<u128>, b: Seq<u128>) -> bool {
    forall|x: u128| a.contains(x) <==> b.contains(x)
}

/// Whether the collection holds this identity token.
pub fn ids_contains(v: &Vec<u128>, x: u128) -> (r: bool)
    ensures
        r == v@.contains(x),
{
    let n = v.len();
    let mut i: usize = 0;
    while i < n
        invariant
            n == v@.len(),
            i <= n,
            forall|k: int| 0 <= k < i ==> v@[k] != x,
        decreases n - i,
    {
        if v[i] == x {
            return true;
        }
        i = i + 1;
    }
    assert(!v@.contains(x));
    false
}

/// The identity tokens of the input, sorted ascending with duplicates
/// removed; sortedness and membership pin the output completely.
pub fn sort_dedup_ids(v: &Vec<u128>) -> (r: Vec<u128>)
    ensures
        strict_sorted(r@),
        same_members(r@, v@),
{
    let n = v.len();
    let mut out: Vec<u128> = Vec::new();
    let mut i: usize = 0;
    while i < n
        invariant
            n == v@.len(),
            i <= n,
            strict_sorted(out@),
            forall|x: u128| out@.contains(x) <==> v@.subrange(0, i as int).contains(x),
        decreases n - i,
    {
        let ghost pre = out@;
        let x = v[i];
        let m = out.len();
        let mut p: usize = 0;
        while p < m && out[p] < x
            invariant
                m == out@.len(),
                p <= m,
                forall|k: int| 0 <= k < p ==> out@[k] < x,
            decreases m - p,
        {
            p = p + 1;
        }
        if p < m && out[p] == x {
            proof {
                assert(pre.contains(x));
                assert forall|y: u128| out@.contains(y) <==> (pre.contains(y) || y == x) by {}
            }
        } else {
            out.insert(p, x);
            proof {
                assert forall|a: int, b: int|
                    0 <= a < b < out@.len() implies out@[a] < out@[b] by {
                    if b < p {
                        assert(pre[a] < pre[b]);
                    } else if a < p && b == p {
                        assert(pre[a] < x);
                    } else if a < p && b > p {
                        assert(pre[a] < x);
                        if p < m {
                            assert(x < pre[p as int]);
                            if b - 1 > p {
                                assert(pre[p as int] < pre[b - 1]);
                            }
                        }
                        assert(x < pre[b - 1]);
                    } else if a == p {
                        assert(x < pre[b - 1]) by {
                            assert(pre[p as int] != x);
                            assert(!(pre[p as int] < x));
                            if b - 1 > p {
                                assert(pre[p as int] < pre[b - 1]);
                            }
                        }
                    } else {
                        assert(pre[a - 1] < pre[b - 1]);
                    }
                }
                assert forall|y: u128| out@.contains(y) <==> (pre.contains(y) || y == x) by {
                    if out@.contains(y) {
                        let w = choose|w: int| 0 <= w < out@.len() && out@[w] == y;
                        if w < p {
                            assert(pre[w] == y);
                        } else if w > p {
                            assert(pre[w - 1] == y);
                        }
                    }
                    if pre.contains(y) {
                        let w = choose|w: int| 0 <= w < pre.len() && pre[w] == y;
                        if w < p {
                            assert(out@[w] == y);
                        } else {
                            assert(out@[w + 1] == y);
                        }
                    }
                    if y == x {
                        assert(out@[p as int] == y);
                    }
                }
            }
        }
        proof {
            let sub2 = v@.subrange(0, i + 1);
            assert(sub2.drop_last() =~= v@.subrange(0, i as int));
            let sub1 = v@.subrange(0, i as int);
            assert(forall|y: u128| out@.contains(y) <==> (pre.contains(y) || y == x));
            assert forall|y: u128| sub2.contains(y) <==> (v@.subrange(0, i as int).contains(y) || y
                == x) by {
                if sub2.contains(y) {
                    let w = choose|w: int| 0 <= w < sub2.len() && sub2[w] == y;
                    if w < i {
                        assert(v@.subrange(0, i as int)[w] == y);
                    }
                }
                if v@.subrange(0, i as int).contains(y) {
                    let w = choose|w: int|
                        0 <= w < v@.subrange(0, i as int).len() && v@.subrange(0, i as int)[w] == y;
                    assert(sub2[w] == y);
                }
                if y == x {
                    assert(sub2[i as int] == y);
                }
            }
            assert forall|y: u128| out@.contains(y) <==> sub2.contains(y) by {
                assert(out@.contains(y) <==> (pre.contains(y) || y == x));
                assert(pre.contains(y) <==> sub1.contains(y));
                assert(sub2.contains(y) <==> (sub1.contains(y) || y == x));
            }
        }
        i = i + 1;
    }
    proof {
        assert(v@.subrange(0, n as int) =~= v@);
    }
    out
}

/// Relies on uuid's Uuid::new_v4: a freshly drawn random identity token;
/// nothing is assumed of its value.
#[verifier::external_body]
pub(crate) fn new_token() -> u128 {
    uuid::Uuid::new_v4().as_u128()
}

/// Patches the block with this identity in place.  A block without content
/// cannot be patched; a patch that erases the block identity is rejected,
/// though its effect on the block remains (the patch was already applied
/// when the check runs).
pub fn patch_contentblock(
    section: &mut Section,
    block_id: u128,
    patch: PatchContentBlock,
) -> (r: Result<ContentBlock, crate::api::ApiError>)
    ensures
        match r {
            Result::Ok(b) => {
                &&& find_block_from(old(section)@.children, block_id, 0) matches Some(i)
                &&& old(section)@.children[find_block_from(
                    old(section)@.children,
                    block_id,
                    0,
                ).unwrap()].content is Some
                &&& b@ == patched_block(
                    old(section)@.children[find_block_from(
                        old(section)@.children,
                        block_id,
                        0,
                    ).unwrap()],
                    patch@,
                )
                &&& b@.id is Some
                &&& final(section)@.children == old(section)@.children.update(
                    find_block_from(old(section)@.children, block_id, 0).unwrap(),
                    b@,
                )
                &&& section_eq_except_children(final(section)@, old(section)@)
            },
            Result::Err(crate::api::ApiError::NotFound) => {
                &&& find_block_from(old(section)@.children, block_id, 0) is None
                &&& final(section)@ == old(section)@
            },
            Result::Err(crate::api::ApiError::BadRequest(_)) => {
                &&& find_block_from(old(section)@.children, block_id, 0) matches Some(i)
                &&& {
                    let found = old(section)@.children[find_block_from(
                        old(section)@.children,
                        block_id,
                        0,
                    ).unwrap()];
                    ||| (found.content is None && final(section)@ == old(section)@)
                    ||| {
                        &&& found.content is Some
                        &&& patched_block(found, patch@).id is None
                        &&& final(section)@.children == old(section)@.children.update(
                            find_block_from(old(section)@.children, block_id, 0).unwrap(),
                            patched_block(found, patch@),
                        )
                        &&& section_eq_except_children(final(section)@, old(section)@)
                    }
                }
            },
            _ => false,
        },
{
    proof {
        assert(old(section)@.children == blocks_model(section.children@));
    }
    let i = match find_block(&section.children, block_id) {
        Some(i) => i,
        None => {
            return Err(crate::api::ApiError::NotFound);
        },
    };
    let mut block = self_remove_block(section, i);
    if block.content.is_none() {
        self_insert_block(section, i, block);
        proof {
            assert(final(section).children@ =~= old(section).children@);
            assert(final(section)@.children =~~= old(section)@.children);
            assert(final(section)@ =~~= old(section)@);
        }
        return Err(
            crate::api::ApiError::BadRequest(
                String::from_str("Content block has no content. Can't patch."),
            ),
        );
    }
    let new_block_data = crate::api::Patch::patch(&mut block, patch);
    let id_missing = new_block_data.id.is_none();
    self_insert_block(section, i, block);
    proof {
        assert(final(section)@.children =~= old(section)@.children.update(
            i as int,
            final(section)@.children[i as int],
        ));
    }
    if id_missing {
        return Err(
            crate::api::ApiError::BadRequest(String::from_str("Content block id is missing")),
        );
    }
    Ok(new_block_data)
}

/// Section metadata fields a section update leaves to the patch alone.
pub open spec fn metadata_eq_untouched(a: SectionMetadataModel, b: SectionMetadataModel) -> bool {
    &&& a.title == b.title
    &&& a.subtitle == b.subtitle
    &&& a.web_url == b.web_url
    &&& a.published == b.published
    &&& a.lang == b.lang
}

/// Identifier lists equal except that every identifier of the first carries
/// an identity, freshly assigned where the second had none.
pub open spec fn identifiers_filled(a: Seq<IdentifierModel>, b: Seq<IdentifierModel>) -> bool {
    &&& a.len() == b.len()
    &&& forall|i: int|
        0 <= i < a.len() ==> {
            &&& (#[trigger] a[i]).name == b[i].name
            &&& a[i].value == b[i].value
            &&& a[i].id is Some
            &&& (b[i].id is Some ==> a[i].id == b[i].id)
        }
}

/// The core of a section update: applies the patch, validates the patched
/// authors and editors against the known people, removes duplicates from
/// both (sorted ascending), assigns identities to identifiers lacking one,
/// stamps the change time, and installs the new data in the section.
#[verifier::loop_isolation(false)]
pub fn update_section(
    section: &mut Section,
    patch: PatchSection,
    known_people: &Vec<u128>,
    now: i64,
) -> (r: Result<Section, crate::api::ApiError>)
    ensures
        match r {
            Result::Ok(s) => {
                let pd = patched_section(old(section)@, patch@);
                &&& forall|k: int|
                    0 <= k < pd.metadata.authors.len() ==> known_people@.contains(
                        #[trigger] pd.metadata.authors[k],
                    )
                &&& forall|k: int|
                    0 <= k < pd.metadata.editors.len() ==> known_people@.contains(
                        #[trigger] pd.metadata.editors[k],
                    )
                &&& s@.id == pd.id
                &&& s@.css_classes == pd.css_classes
                &&& s@.visible_in_toc == pd.visible_in_toc
                &&& s@.sub_sections == pd.sub_sections
                &&& s@.children == pd.children
                &&& metadata_eq_untouched(s@.metadata, pd.metadata)
                &&& strict_sorted(s@.metadata.authors)
                &&& same_members(s@.metadata.authors, pd.metadata.authors)
                &&& strict_sorted(s@.metadata.editors)
                &&& same_members(s@.metadata.editors, pd.metadata.editors)
                &&& identifiers_filled(s@.metadata.identifiers, pd.metadata.identifiers)
                &&& s@.metadata.last_changed == Some(now)
                &&& final(section)@ == s@
            },
            Result::Err(e) => {
                let pd = patched_section(old(section)@, patch@);
                &&& e is BadRequest
                &&& final(section)@ == old(section)@
                &&& !((forall|k: int|
                    0 <= k < pd.metadata.authors.len() ==> known_people@.contains(
                        #[trigger] pd.metadata.authors[k],
                    )) && (forall|k: int|
                    0 <= k < pd.metadata.editors.len() ==> known_people@.contains(
                        #[trigger] pd.metadata.editors[k],
                    )))
            },
        },
{
    let ghost patch_m = patch@;
    let mut new_data = crate::api::Patch::patch(section, patch);
    proof {
        assert(new_data@ == patched_section(old(section)@, patch_m));
        assert(new_data@.id == new_data.id);
        assert(new_data@.css_classes == crate::text::string_views(new_data.css_classes@));
        assert(new_data@.visible_in_toc == new_data.visible_in_toc);
        assert(new_data@.sub_sections == sections_model(new_data.sub_sections@));
        assert(new_data@.children == blocks_model(new_data.children@));
        assert(new_data@.metadata == new_data.metadata@);
    }
    let na = new_data.metadata.authors.len();
    let mut k: usize = 0;
    while k < na
        invariant
            na == new_data.metadata.authors@.len(),
            k <= na,
            forall|j: int|
                0 <= j < k ==> known_people@.contains(#[trigger] new_data.metadata.authors@[j]),
        decreases na - k,
    {
        if !ids_contains(known_people, new_data.metadata.authors[k]) {
            proof {
                let pd = patched_section(old(section)@, patch@);
                assert(pd.metadata.authors[k as int] == new_data.metadata.authors@[k as int]);
                assert(!known_people@.contains(pd.metadata.authors[k as int]));
            }
            return Err(crate::api::ApiError::BadRequest(
                String::from_str("Author does not exist"),
            ));
        }
        k = k + 1;
    }
    let ne = new_data.metadata.editors.len();
    let mut k2: usize = 0;
    while k2 < ne
        invariant
            ne == new_data.metadata.editors@.len(),
            k2 <= ne,
            forall|j: int|
                0 <= j < k2 ==> known_people@.contains(#[trigger] new_data.metadata.editors@[j]),
        decreases ne - k2,
    {
        if !ids_contains(known_people, new_data.metadata.editors[k2]) {
            proof {
                let pd = patched_section(old(section)@, patch@);
                assert(pd.metadata.editors[k2 as int] == new_data.metadata.editors@[k2 as int]);
                assert(!known_people@.contains(pd.metadata.editors[k2 as int]));
            }
            return Err(crate::api::ApiError::BadRequest(
                String::from_str("Editor does not exist"),
            ));
        }
        k2 = k2 + 1;
    }
    new_data.metadata.authors = sort_dedup_ids(&new_data.metadata.authors);
    new_data.metadata.editors = sort_dedup_ids(&new_data.metadata.editors);
    let ghost pre_idents = identifiers_view(new_data.metadata.identifiers@);
    let ghost nd0 = new_data;
    let ni = new_data.metadata.identifiers.len();
    let mut k3: usize = 0;
    while k3 < ni
        invariant
            new_data.id == nd0.id,
            new_data.css_classes == nd0.css_classes,
            new_data.visible_in_toc == nd0.visible_in_toc,
            new_data.sub_sections == nd0.sub_sections,
            new_data.children == nd0.children,
            new_data.metadata.title == nd0.metadata.title,
            new_data.metadata.subtitle == nd0.metadata.subtitle,
            new_data.metadata.web_url == nd0.metadata.web_url,
            new_data.metadata.published == nd0.metadata.published,
            new_data.metadata.lang == nd0.metadata.lang,
            new_data.metadata.authors == nd0.metadata.authors,
            new_data.metadata.editors == nd0.metadata.editors,
            new_data.metadata.last_changed == nd0.metadata.last_changed,
            ni == new_data.metadata.identifiers@.len(),
            k3 <= ni,
            pre_idents.len() == ni,
            forall|j: int|
                k3 <= j < ni ==> identifiers_view(new_data.metadata.identifiers@)[j]
                    == pre_idents[j],
            forall|j: int|
                #![trigger identifiers_view(new_data.metadata.identifiers@)[j]]
                0 <= j < k3 ==> identifiers_view(new_data.metadata.identifiers@)[j].name
                    == pre_idents[j].name && identifiers_view(
                    new_data.metadata.identifiers@,
                )[j].value == pre_idents[j].value && identifiers_view(
                    new_data.metadata.identifiers@,
                )[j].id is Some && (pre_idents[j].id is Some ==> identifiers_view(
                    new_data.metadata.identifiers@,
                )[j].id == pre_idents[j].id),
        decreases ni - k3,
    {
        let ghost snap = new_data.metadata.identifiers@;
        proof {
            assert(pre_idents[k3 as int] == identifiers_view(snap)[k3 as int]);
            assert(identifiers_view(snap)[k3 as int] == snap[k3 as int]@);
        }
        if new_data.metadata.identifiers[k3].id.is_none() {
            let mut ident = new_data.metadata.identifiers.remove(k3);
            ident.id = Some(new_token());
            new_data.metadata.identifiers.insert(k3, ident);
            proof {
                assert(new_data.metadata.identifiers@ =~= snap.update(
                    k3 as int,
                    new_data.metadata.identifiers@[k3 as int],
                ));
                assert forall|j: int| 0 <= j < ni && j != k3 implies identifiers_view(
                    new_data.metadata.identifiers@,
                )[j] == identifiers_view(snap)[j] by {
                    assert(new_data.metadata.identifiers@[j] == snap[j]);
                }
                assert(new_data.metadata.identifiers@[k3 as int] == ident);
                assert(identifiers_view(new_data.metadata.identifiers@)[k3 as int] == ident@);
                assert(ident@.name == snap[k3 as int]@.name);
                assert(ident@.value == snap[k3 as int]@.value);
                assert(ident@.id is Some);
                assert(snap[k3 as int]@.id is None);
            }
        } else {
            proof {
                assert(identifiers_view(new_data.metadata.identifiers@)[k3 as int]
                    == snap[k3 as int]@);
                assert(snap[k3 as int]@.id is Some);
            }
        }
        proof {
            assert forall|j: int| 0 <= j < k3 + 1 implies identifiers_view(
                new_data.metadata.identifiers@,
            )[j].name == pre_idents[j].name && identifiers_view(
                new_data.metadata.identifiers@,
            )[j].value == pre_idents[j].value && identifiers_view(
                new_data.metadata.identifiers@,
            )[j].id is Some && (pre_idents[j].id is Some ==> identifiers_view(
                new_data.metadata.identifiers@,
            )[j].id == pre_idents[j].id) by {
                if j < k3 {
                    assert(identifiers_view(snap)[j].name == pre_idents[j].name);
                    assert(identifiers_view(new_data.metadata.identifiers@)[j]
                        == identifiers_view(snap)[j]);
                }
            }
        }
        k3 = k3 + 1;
    }
    new_data.metadata.last_changed = Some(now);
    let installed = new_data.clone();
    let copy = new_data.clone();
    proof {
        let pd = patched_section(old(section)@, patch_m);
        assert(copy@ == new_data@);
        assert(new_data@.id == new_data.id);
        assert(new_data@.css_classes == crate::text::string_views(new_data.css_classes@));
        assert(new_data@.visible_in_toc == new_data.visible_in_toc);
        assert(new_data@.sub_sections == sections_model(new_data.sub_sections@));
        assert(new_data@.children == blocks_model(new_data.children@));
        assert(new_data@.metadata == new_data.metadata@);
        assert(pre_idents == pd.metadata.identifiers);
        assert(identifiers_filled(
            identifiers_view(new_data.metadata.identifiers@),
            pre_idents,
        ));
    }
    *section = installed;
    proof {
        assert(final(section)@ == copy@);
    }
    Ok(copy)
}

} // verus!
