//! The project record the pipelines and editor operations act on: its
//! metadata with partial updates, its settings, its content tree and its
//! bibliography, all with mathematical views and exact contracts.

use vstd::prelude::*;

verus! {

use crate::api::{ApiError, Patch};
use crate::content::{
    clone_identifiers,
    clone_opt_string,
    clone_strings,
    copy_ids,
    identifiers_view,
    ids_contains,
    opt2_str_view,
    opt_str_view,
    Identifier,
    IdentifierModel,
    Section,
    section_model,
    SectionModel,
    SectionOrToc,
    SectionOrTocModel,
};
use crate::text::string_views;

/// A keyword attached to a project.
pub struct Keyword {
    pub title: String,
}

/// The mathematical value of a keyword.
#[verifier::ext_equal]
pub struct KeywordModel {
    pub title: Seq<char>,
}

impl View for Keyword {
    type V = KeywordModel;

    open spec fn view(&self) -> KeywordModel {
        KeywordModel { title: self.title@ }
    }
}

impl Clone for Keyword {
    fn clone(&self) -> (r: Self)
        ensures
            r@ == self@,
    {
        Keyword { title: self.title.clone() }
    }
}

/// The views of a keyword list.
pub open spec fn keywords_view(s: Seq<Keyword>) -> Seq<KeywordModel> {
    s.map_values(|k: Keyword| k@)
}

/// The view of optional identity token lists.
pub open spec fn opt_ids_view(o: Option<Vec<u128>>) -> Option<Seq<u128>> {
    match o {
        Option::Some(v) => Some(v@),
        Option::None => None,
    }
}

/// The metadata of a project.
pub struct ProjectMetadata {
    pub title: String,
    pub subtitle: Option<String>,
    pub authors: Option<Vec<u128>>,
    pub editors: Option<Vec<u128>>,
    pub web_url: Option<String>,
    pub identifiers: Option<Vec<Identifier>>,
    pub published: Option<i64>,
    pub languages: Option<Vec<String>>,
    pub number_of_pages: Option<u32>,
    pub short_abstract: Option<String>,
    pub long_abstract: Option<String>,
    pub keywords: Option<Vec<Keyword>>,
    pub ddc: Option<String>,
    pub license: Option<String>,
    pub series: Option<String>,
    pub volume: Option<String>,
    pub edition: Option<String>,
    pub publisher: Option<String>,
}

/// The mathematical value of project metadata.
#[verifier::ext_equal]
pub struct ProjectMetadataModel {
    pub title: Seq<char>,
    pub subtitle: Option<Seq<char>>,
    pub authors: Option<Seq<u128>>,
    pub editors: Option<Seq<u128>>,
    pub web_url: Option<Seq<char>>,
    pub identifiers: Option<Seq<IdentifierModel>>,
    pub published: Option<i64>,
    pub languages: Option<Seq<Seq<char>>>,
    pub number_of_pages: Option<u32>,
    pub short_abstract: Option<Seq<char>>,
    pub long_abstract: Option<Seq<char>>,
    pub keywords: Option<Seq<KeywordModel>>,
    pub ddc: Option<Seq<char>>,
    pub license: Option<Seq<char>>,
    pub series: Option<Seq<char>>,
    pub volume: Option<Seq<char>>,
    pub edition: Option<Seq<char>>,
    pub publisher: Option<Seq<char>>,
}

impl View for ProjectMetadata {
    type V = ProjectMetadataModel;

    open spec fn view(&self) -> ProjectMetadataModel {
        ProjectMetadataModel {
            title: self.title@,
            subtitle: opt_str_view(self.subtitle),
            authors: opt_ids_view(self.authors),
            editors: opt_ids_view(self.editors),
            web_url: opt_str_view(self.web_url),
            identifiers: match self.identifiers {
                Option::Some(v) => Some(identifiers_view(v@)),
                Option::None => None,
            },
            published: self.published,
            languages: match self.languages {
                Option::Some(v) => Some(string_views(v@)),
                Option::None => None,
            },
            number_of_pages: self.number_of_pages,
            short_abstract: opt_str_view(self.short_abstract),
            long_abstract: opt_str_view(self.long_abstract),
            keywords: match self.keywords {
                Option::Some(v) => Some(keywords_view(v@)),
                Option::None => None,
            },
            ddc: opt_str_view(self.ddc),
            license: opt_str_view(self.license),
            series: opt_str_view(self.series),
            volume: opt_str_view(self.volume),
            edition: opt_str_view(self.edition),
            publisher: opt_str_view(self.publisher),
        }
    }
}

/// Clones a keyword list, view for view.
fn clone_keywords(v: &Vec<Keyword>) -> (r: Vec<Keyword>)
    ensures
        keywords_view(r@) == keywords_view(v@),
{
    let mut out: Vec<Keyword> = Vec::new();
    let mut i: usize = 0;
    while i < v.len()
        invariant
            i <= v@.len(),
            out@.len() == i,
            forall|k: int| 0 <= k < i ==> (#[trigger] out@[k])@ == v@[k]@,
        decreases v@.len() - i,
    {
        out.push(v[i].clone());
        i = i + 1;
    }
    proof {
        assert forall|k: int| 0 <= k < v@.len() implies keywords_view(out@)[k] == keywords_view(
            v@,
        )[k] by {
            assert(out@[k]@ == v@[k]@);
        }
        assert(keywords_view(out@) =~= keywords_view(v@));
    }
    out
}

impl Clone for ProjectMetadata {
    fn clone(&self) -> (r: Self)
        ensures
            r@ == self@,
    {
        ProjectMetadata {
            title: self.title.clone(),
            subtitle: clone_opt_string(&self.subtitle),
            authors: match &self.authors {
                Some(v) => Some(copy_ids(v)),
                None => None,
            },
            editors: match &self.editors {
                Some(v) => Some(copy_ids(v)),
                None => None,
            },
            web_url: clone_opt_string(&self.web_url),
            identifiers: match &self.identifiers {
                Some(v) => Some(clone_identifiers(v)),
                None => None,
            },
            published: self.published,
            languages: match &self.languages {
                Some(v) => Some(clone_strings(v)),
                None => None,
            },
            number_of_pages: self.number_of_pages,
            short_abstract: clone_opt_string(&self.short_abstract),
            long_abstract: clone_opt_string(&self.long_abstract),
            keywords: match &self.keywords {
                Some(v) => Some(clone_keywords(v)),
                None => None,
            },
            ddc: clone_opt_string(&self.ddc),
            license: clone_opt_string(&self.license),
            series: clone_opt_string(&self.series),
            volume: clone_opt_string(&self.volume),
            edition: clone_opt_string(&self.edition),
            publisher: clone_opt_string(&self.publisher),
        }
    }
}

/// The metadata a fresh project starts from: an empty title and nothing
/// else.
pub open spec fn default_md_model() -> ProjectMetadataModel {
    ProjectMetadataModel {
        title: Seq::empty(),
        subtitle: None,
        authors: None,
        editors: None,
        web_url: None,
        identifiers: None,
        published: None,
        languages: None,
        number_of_pages: None,
        short_abstract: None,
        long_abstract: None,
        keywords: None,
        ddc: None,
        license: None,
        series: None,
        volume: None,
        edition: None,
        publisher: None,
    }
}

impl Default for ProjectMetadata {
    fn default() -> (r: Self)
        ensures
            r@ == default_md_model(),
    {
        ProjectMetadata {
            title: String::new(),
            subtitle: None,
            authors: None,
            editors: None,
            web_url: None,
            identifiers: None,
            published: None,
            languages: None,
            number_of_pages: None,
            short_abstract: None,
            long_abstract: None,
            keywords: None,
            ddc: None,
            license: None,
            series: None,
            volume: None,
            edition: None,
            publisher: None,
        }
    }
}

/// A partial update of project metadata; optional fields may also be
/// cleared.
pub struct PatchProjectMetadata {
    pub title: Option<String>,
    pub subtitle: Option<Option<String>>,
    pub authors: Option<Option<Vec<u128>>>,
    pub editors: Option<Option<Vec<u128>>>,
    pub web_url: Option<Option<String>>,
    pub identifiers: Option<Option<Vec<Identifier>>>,
    pub published: Option<Option<i64>>,
    pub languages: Option<Option<Vec<String>>>,
    pub number_of_pages: Option<Option<u32>>,
    pub short_abstract: Option<Option<String>>,
    pub long_abstract: Option<Option<String>>,
    pub keywords: Option<Option<Vec<Keyword>>>,
    pub ddc: Option<Option<String>>,
    pub license: Option<Option<String>>,
    pub series: Option<Option<String>>,
    pub volume: Option<Option<String>>,
    pub edition: Option<Option<String>>,
    pub publisher: Option<Option<String>>,
}

/// The mathematical value of a project metadata patch.
#[verifier::ext_equal]
pub struct PatchProjectMetadataModel {
    pub title: Option<Seq<char>>,
    pub subtitle: Option<Option<Seq<char>>>,
    pub authors: Option<Option<Seq<u128>>>,
    pub editors: Option<Option<Seq<u128>>>,
    pub web_url: Option<Option<Seq<char>>>,
    pub identifiers: Option<Option<Seq<IdentifierModel>>>,
    pub published: Option<Option<i64>>,
    pub languages: Option<Option<Seq<Seq<char>>>>,
    pub number_of_pages: Option<Option<u32>>,
    pub short_abstract: Option<Option<Seq<char>>>,
    pub long_abstract: Option<Option<Seq<char>>>,
    pub keywords: Option<Option<Seq<KeywordModel>>>,
    pub ddc: Option<Option<Seq<char>>>,
    pub license: Option<Option<Seq<char>>>,
    pub series: Option<Option<Seq<char>>>,
    pub volume: Option<Option<Seq<char>>>,
    pub edition: Option<Option<Seq<char>>>,
    pub publisher: Option<Option<Seq<char>>>,
}

impl View for PatchProjectMetadata {
    type V = PatchProjectMetadataModel;

    open spec fn view(&self) -> PatchProjectMetadataModel {
        PatchProjectMetadataModel {
            title: opt_str_view(self.title),
            subtitle: opt2_str_view(self.subtitle),
            authors: match self.authors {
                Option::Some(inner) => Some(opt_ids_view(inner)),
                Option::None => None,
            },
            editors: match self.editors {
                Option::Some(inner) => Some(opt_ids_view(inner)),
                Option::None => None,
            },
            web_url: opt2_str_view(self.web_url),
            identifiers: match self.identifiers {
                Option::Some(Option::Some(v)) => Some(Some(identifiers_view(v@))),
                Option::Some(Option::None) => Some(None),
                Option::None => None,
            },
            published: self.published,
            languages: match self.languages {
                Option::Some(Option::Some(v)) => Some(Some(string_views(v@))),
                Option::Some(Option::None) => Some(None),
                Option::None => None,
            },
            number_of_pages: self.number_of_pages,
            short_abstract: opt2_str_view(self.short_abstract),
            long_abstract: opt2_str_view(self.long_abstract),
            keywords: match self.keywords {
                Option::Some(Option::Some(v)) => Some(Some(keywords_view(v@))),
                Option::Some(Option::None) => Some(None),
                Option::None => None,
            },
            ddc: opt2_str_view(self.ddc),
            license: opt2_str_view(self.license),
            series: opt2_str_view(self.series),
            volume: opt2_str_view(self.volume),
            edition: opt2_str_view(self.edition),
            publisher: opt2_str_view(self.publisher),
        }
    }
}

/// Project metadata after a partial update: a present patch field replaces
/// the record's field, an absent one leaves it alone.
pub open spec fn patched_project_metadata(
    m: ProjectMetadataModel,
    p: PatchProjectMetadataModel,
) -> ProjectMetadataModel {
    ProjectMetadataModel {
        title: match p.title {
            Option::Some(t) => t,
            Option::None => m.title,
        },
        subtitle: match p.subtitle {
            Option::Some(x) => x,
            Option::None => m.subtitle,
        },
        authors: match p.authors {
            Option::Some(x) => x,
            Option::None => m.authors,
        },
        editors: match p.editors {
            Option::Some(x) => x,
            Option::None => m.editors,
        },
        web_url: match p.web_url {
            Option::Some(x) => x,
            Option::None => m.web_url,
        },
        identifiers: match p.identifiers {
            Option::Some(x) => x,
            Option::None => m.identifiers,
        },
        published: match p.published {
            Option::Some(x) => x,
            Option::None => m.published,
        },
        languages: match p.languages {
            Option::Some(x) => x,
            Option::None => m.languages,
        },
        number_of_pages: match p.number_of_pages {
            Option::Some(x) => x,
            Option::None => m.number_of_pages,
        },
        short_abstract: match p.short_abstract {
            Option::Some(x) => x,
            Option::None => m.short_abstract,
        },
        long_abstract: match p.long_abstract {
            Option::Some(x) => x,
            Option::None => m.long_abstract,
        },
        keywords: match p.keywords {
            Option::Some(x) => x,
            Option::None => m.keywords,
        },
        ddc: match p.ddc {
            Option::Some(x) => x,
            Option::None => m.ddc,
        },
        license: match p.license {
            Option::Some(x) => x,
            Option::None => m.license,
        },
        series: match p.series {
            Option::Some(x) => x,
            Option::None => m.series,
        },
        volume: match p.volume {
            Option::Some(x) => x,
            Option::None => m.volume,
        },
        edition: match p.edition {
            Option::Some(x) => x,
            Option::None => m.edition,
        },
        publisher: match p.publisher {
            Option::Some(x) => x,
            Option::None => m.publisher,
        },
    }
}

impl Patch<PatchProjectMetadata, ProjectMetadata> for ProjectMetadata {
    open spec fn patch_ok(&self, patch: &PatchProjectMetadata) -> bool {
        true
    }

    open spec fn patch_rel(
        &self,
        patch: &PatchProjectMetadata,
        r: &ProjectMetadata,
        after: &Self,
    ) -> bool {
        &&& r@ == patched_project_metadata(self@, patch@)
        &&& *after == *self
    }

    fn patch(&mut self, patch: PatchProjectMetadata) -> (r: ProjectMetadata) {
        let base = self.clone();
        ProjectMetadata {
            title: match patch.title {
                Some(t) => t,
                None => base.title,
            },
            subtitle: match patch.subtitle {
                Some(x) => x,
                None => base.subtitle,
            },
            authors: match patch.authors {
                Some(x) => x,
                None => base.authors,
            },
            editors: match patch.editors {
                Some(x) => x,
                None => base.editors,
            },
            web_url: match patch.web_url {
                Some(x) => x,
                None => base.web_url,
            },
            identifiers: match patch.identifiers {
                Some(x) => x,
                None => base.identifiers,
            },
            published: match patch.published {
                Some(x) => x,
                None => base.published,
            },
            languages: match patch.languages {
                Some(x) => x,
                None => base.languages,
            },
            number_of_pages: match patch.number_of_pages {
                Some(x) => x,
                None => base.number_of_pages,
            },
            short_abstract: match patch.short_abstract {
                Some(x) => x,
                None => base.short_abstract,
            },
            long_abstract: match patch.long_abstract {
                Some(x) => x,
                None => base.long_abstract,
            },
            keywords: match patch.keywords {
                Some(x) => x,
                None => base.keywords,
            },
            ddc: match patch.ddc {
                Some(x) => x,
                None => base.ddc,
            },
            license: match patch.license {
                Some(x) => x,
                None => base.license,
            },
            series: match patch.series {
                Some(x) => x,
                None => base.series,
            },
            volume: match patch.volume {
                Some(x) => x,
                None => base.volume,
            },
            edition: match patch.edition {
                Some(x) => x,
                None => base.edition,
            },
            publisher: match patch.publisher {
                Some(x) => x,
                None => base.publisher,
            },
        }
    }
}

/// The settings of a project, as far as the pipelines read them.
#[derive(PartialEq, Eq, Structural, Clone, Copy, Debug)]
pub struct ProjectSettings {
    pub template_id: Option<u128>,
}

/// One bibliography entry, keyed by its citation key.
pub struct BibEntry {
    pub key: String,
}

/// The mathematical value of a bibliography entry.
#[verifier::ext_equal]
pub struct BibEntryModel {
    pub key: Seq<char>,
}

impl View for BibEntry {
    type V = BibEntryModel;

    open spec fn view(&self) -> BibEntryModel {
        BibEntryModel { key: self.key@ }
    }
}

impl Clone for BibEntry {
    fn clone(&self) -> (r: Self)
        ensures
            r@ == self@,
    {
        BibEntry { key: self.key.clone() }
    }
}

/// The bibliography map the first `j` recorded entries denote, keyed by
/// citation key, later entries winning.
pub open spec fn bib_upto(s: Seq<(String, BibEntry)>, j: int) -> Map<Seq<char>, BibEntryModel>
    decreases j,
    when 0 <= j <= s.len()
{
    if j <= 0 {
        Map::empty()
    } else {
        bib_upto(s, j - 1).insert(s[j - 1].0@, s[j - 1].1@)
    }
}

/// A project: metadata, settings, the content tree, and the bibliography.
pub struct Project {
    pub metadata: Option<ProjectMetadata>,
    pub settings: Option<ProjectSettings>,
    pub sections: Vec<SectionOrToc>,
    pub bibliography: Vec<(String, BibEntry)>,
}

impl Project {
    /// The bibliography as a map from citation key to entry.
    pub open spec fn bib_view(self) -> Map<Seq<char>, BibEntryModel> {
        bib_upto(self.bibliography@, self.bibliography@.len() as int)
    }

    /// The view of the optional metadata.
    pub open spec fn md_view(self) -> Option<ProjectMetadataModel> {
        match self.metadata {
            Option::Some(m) => Some(m@),
            Option::None => None,
        }
    }

    /// The metadata the editor operations act on: the present one, or a
    /// fresh default.
    pub open spec fn effective_md(self) -> ProjectMetadataModel {
        match self.metadata {
            Option::Some(m) => m@,
            Option::None => default_md_model(),
        }
    }

    /// A fresh project: no metadata, no settings, no contents, no
    /// bibliography.
    pub fn new() -> (r: Self)
        ensures
            r.metadata is None,
            r.settings is None,
            r.sections@.len() == 0,
            r.bib_view() == Map::<Seq<char>, BibEntryModel>::empty(),
    {
        Project { metadata: None, settings: None, sections: Vec::new(), bibliography: Vec::new() }
    }
}

/// Everything of the project except its metadata is the same.
pub open spec fn project_eq_except_md(a: Project, b: Project) -> bool {
    &&& a.settings == b.settings
    &&& a.sections == b.sections
    &&& a.bibliography == b.bibliography
}

/// The project's metadata, if any.
pub fn get_project_metadata(project: &Project) -> (r: Option<ProjectMetadata>)
    ensures
        match r {
            Option::Some(m) => project.md_view() == Some(m@),
            Option::None => project.metadata is None,
        },
{
    match &project.metadata {
        Some(m) => Some(m.clone()),
        None => None,
    }
}

/// Replaces the project's metadata.
pub fn set_project_metadata(project: &mut Project, metadata: ProjectMetadata)
    ensures
        final(project).metadata == Some(metadata),
        project_eq_except_md(*final(project), *old(project)),
{
    project.metadata = Some(metadata);
}

/// The project's settings, if any.
pub fn get_project_settings(project: &Project) -> (r: Option<ProjectSettings>)
    ensures
        r == project.settings,
{
    project.settings
}

/// Replaces the project's settings.
pub fn set_project_settings(project: &mut Project, settings: ProjectSettings)
    ensures
        final(project).settings == Some(settings),
        final(project).metadata == old(project).metadata,
        final(project).sections == old(project).sections,
        final(project).bibliography == old(project).bibliography,
{
    project.settings = Some(settings);
}

/// Patches the project's metadata (a missing record starts from the
/// default), after checking that every patched author and editor is a known
/// person; a failed check changes nothing.
#[verifier::loop_isolation(false)]
pub fn patch_project_metadata(
    project: &mut Project,
    patch: PatchProjectMetadata,
    known_people: &Vec<u128>,
) -> (r: Result<(), ApiError>)
    ensures
        ({
            let nm = patched_project_metadata(old(project).effective_md(), patch@);
            match r {
                Result::Ok(()) => {
                    &&& (nm.authors matches Some(a) ==> forall|k: int|
                        0 <= k < a.len() ==> known_people@.contains(#[trigger] a[k]))
                    &&& (nm.editors matches Some(e) ==> forall|k: int|
                        0 <= k < e.len() ==> known_people@.contains(#[trigger] e[k]))
                    &&& final(project).md_view() == Some(nm)
                    &&& project_eq_except_md(*final(project), *old(project))
                },
                Result::Err(e) => {
                    &&& e is BadRequest
                    &&& *final(project) == *old(project)
                    &&& !((nm.authors matches Some(a) ==> forall|k: int|
                        0 <= k < a.len() ==> known_people@.contains(#[trigger] a[k])) && (
                    nm.editors matches Some(e2) ==> forall|k: int|
                        0 <= k < e2.len() ==> known_people@.contains(#[trigger] e2[k])))
                },
            }
        }),
{
    let mut base = match &project.metadata {
        Some(m) => m.clone(),
        None => ProjectMetadata::default(),
    };
    let ghost patch_m = patch@;
    let new_metadata = Patch::patch(&mut base, patch);
    proof {
        assert(new_metadata@ == patched_project_metadata(old(project).effective_md(), patch_m));
    }
    match &new_metadata.authors {
        Some(authors) => {
            let na = authors.len();
            let mut k: usize = 0;
            while k < na
                invariant
                    na == authors@.len(),
                    k <= na,
                    forall|j: int| 0 <= j < k ==> known_people@.contains(#[trigger] authors@[j]),
                decreases na - k,
            {
                if !ids_contains(known_people, authors[k]) {
                    proof {
                        let nm = patched_project_metadata(
                            old(project).effective_md(),
                            patch_m,
                        );
                        assert(nm.authors matches Some(a) && a[k as int] == authors@[k as int]);
                        assert(!known_people@.contains(authors@[k as int]));
                    }
                    return Err(ApiError::BadRequest(String::from_str("Author does not exist")));
                }
                k = k + 1;
            }
        },
        None => {},
    }
    match &new_metadata.editors {
        Some(editors) => {
            let ne = editors.len();
            let mut k2: usize = 0;
            while k2 < ne
                invariant
                    ne == editors@.len(),
                    k2 <= ne,
                    forall|j: int| 0 <= j < k2 ==> known_people@.contains(#[trigger] editors@[j]),
                decreases ne - k2,
            {
                if !ids_contains(known_people, editors[k2]) {
                    proof {
                        let nm = patched_project_metadata(
                            old(project).effective_md(),
                            patch_m,
                        );
                        assert(nm.editors matches Some(e) && e[k2 as int] == editors@[k2 as int]);
                        assert(!known_people@.contains(editors@[k2 as int]));
                    }
                    return Err(ApiError::BadRequest(String::from_str("Editor does not exist")));
                }
                k2 = k2 + 1;
            }
        },
        None => {},
    }
    project.metadata = Some(new_metadata);
    Ok(())
}


/// Index of the first occurrence of this token, searched from `i` on.
pub open spec fn find_id_from(s: Seq<u128>, x: u128, i: int) -> Option<int>
    decreases s.len() - i,
    when 0 <= i <= s.len()
{
    if i >= s.len() {
        None
    } else if s[i] == x {
        Some(i)
    } else {
        find_id_from(s, x, i + 1)
    }
}

fn find_id(v: &Vec<u128>, x: u128) -> (r: Option<usize>)
    ensures
        match r {
            Option::Some(i) => find_id_from(v@, x, 0) == Some(i as int) && i < v@.len(),
            Option::None => find_id_from(v@, x, 0) is None,
        },
{
    let n = v.len();
    let mut i: usize = 0;
    while i < n
        invariant
            n == v@.len(),
            i <= n,
            find_id_from(v@, x, 0) == find_id_from(v@, x, i as int),
        decreases n - i,
    {
        if v[i] == x {
            return Some(i);
        }
        i = i + 1;
    }
    None
}

/// Adds a person as author.  Metadata and the author list are created when
/// absent; a person already listed is not added again.
#[verifier::loop_isolation(false)]
pub fn add_author_to_project(project: &mut Project, author_id: u128)
    ensures
        project_eq_except_md(*final(project), *old(project)),
        ({
            let base = old(project).effective_md();
            let cur = match base.authors {
                Option::Some(v) => v,
                Option::None => Seq::empty(),
            };
            let upd = if cur.contains(author_id) {
                cur
            } else {
                cur.push(author_id)
            };
            final(project).md_view() == Some(
                ProjectMetadataModel { authors: Some(upd), ..base },
            )
        }),
{
    if project.metadata.is_none() {
        project.metadata = Some(ProjectMetadata::default());
    }
    match &mut project.metadata {
        Some(md) => {
            if md.authors.is_none() {
                md.authors = Some(Vec::new());
            }
            match &mut md.authors {
                Some(authors) => {
                    if !ids_contains(authors, author_id) {
                        authors.push(author_id);
                    }
                },
                None => {
                    proof {
                        assert(false);
                    }
                },
            }
        },
        None => {
            proof {
                assert(false);
            }
        },
    }
}

/// Adds a person as editor, under the same rules as authors.
#[verifier::loop_isolation(false)]
pub fn add_editor_to_project(project: &mut Project, editor_id: u128)
    ensures
        project_eq_except_md(*final(project), *old(project)),
        ({
            let base = old(project).effective_md();
            let cur = match base.editors {
                Option::Some(v) => v,
                Option::None => Seq::empty(),
            };
            let upd = if cur.contains(editor_id) {
                cur
            } else {
                cur.push(editor_id)
            };
            final(project).md_view() == Some(
                ProjectMetadataModel { editors: Some(upd), ..base },
            )
        }),
{
    if project.metadata.is_none() {
        project.metadata = Some(ProjectMetadata::default());
    }
    match &mut project.metadata {
        Some(md) => {
            if md.editors.is_none() {
                md.editors = Some(Vec::new());
            }
            match &mut md.editors {
                Some(editors) => {
                    if !ids_contains(editors, editor_id) {
                        editors.push(editor_id);
                    }
                },
                None => {
                    proof {
                        assert(false);
                    }
                },
            }
        },
        None => {
            proof {
                assert(false);
            }
        },
    }
}

/// Removes a person from the authors.  A project without metadata or author
/// list reports absence; an author not listed is silently left alone.
#[verifier::loop_isolation(false)]
pub fn remove_author_from_project(project: &mut Project, author_id: u128) -> (r: Result<
    (),
    ApiError,
>)
    ensures
        match r {
            Result::Ok(()) => {
                &&& old(project).metadata matches Some(m)
                &&& project_eq_except_md(*final(project), *old(project))
                &&& ({
                    let base = old(project).effective_md();
                    let cur = base.authors.unwrap();
                    &&& base.authors is Some
                    &&& final(project).md_view() == Some(
                        ProjectMetadataModel {
                            authors: Some(
                                match find_id_from(cur, author_id, 0) {
                                    Option::Some(i) => cur.remove(i),
                                    Option::None => cur,
                                },
                            ),
                            ..base
                        },
                    )
                })
            },
            Result::Err(e) => {
                &&& e is NotFound
                &&& *final(project) == *old(project)
                &&& (old(project).metadata is None || old(project).effective_md().authors is None)
            },
        },
{
    let has_authors = match &project.metadata {
        Some(md) => md.authors.is_some(),
        None => false,
    };
    if !has_authors {
        return Err(ApiError::NotFound);
    }
    match &mut project.metadata {
        Some(md) => {
            match &mut md.authors {
                Some(authors) => {
                    match find_id(authors, author_id) {
                        Some(i) => {
                            authors.remove(i);
                        },
                        None => {},
                    }
                },
                None => {
                    proof {
                        assert(false);
                    }
                },
            }
        },
        None => {
            proof {
                assert(false);
            }
        },
    }
    Ok(())
}

/// Removes a person from the editors.  Unlike authors, an editor not listed
/// reports absence.
#[verifier::loop_isolation(false)]
pub fn remove_editor_from_project(project: &mut Project, editor_id: u128) -> (r: Result<
    (),
    ApiError,
>)
    ensures
        match r {
            Result::Ok(()) => {
                &&& old(project).metadata matches Some(m)
                &&& project_eq_except_md(*final(project), *old(project))
                &&& ({
                    let base = old(project).effective_md();
                    let cur = base.editors.unwrap();
                    &&& base.editors is Some
                    &&& find_id_from(cur, editor_id, 0) is Some
                    &&& final(project).md_view() == Some(
                        ProjectMetadataModel {
                            editors: Some(cur.remove(find_id_from(cur, editor_id, 0).unwrap())),
                            ..base
                        },
                    )
                })
            },
            Result::Err(e) => {
                &&& e is NotFound
                &&& *final(project) == *old(project)
                &&& (old(project).metadata is None || old(project).effective_md().editors is None
                    || find_id_from(old(project).effective_md().editors.unwrap(), editor_id, 0)
                    is None)
            },
        },
{
    let has_editors = match &project.metadata {
        Some(md) => md.editors.is_some(),
        None => false,
    };
    if !has_editors {
        return Err(ApiError::NotFound);
    }
    match &mut project.metadata {
        Some(md) => {
            match &mut md.editors {
                Some(editors) => {
                    match find_id(editors, editor_id) {
                        Some(i) => {
                            editors.remove(i);
                            Ok(())
                        },
                        None => Err(ApiError::NotFound),
                    }
                },
                None => {
                    proof {
                        assert(false);
                    }
                    Err(ApiError::NotFound)
                },
            }
        },
        None => {
            proof {
                assert(false);
            }
            Err(ApiError::NotFound)
        },
    }
}


/// Index of the first keyword with this title, searched from `i` on.
pub open spec fn find_keyword_from(s: Seq<KeywordModel>, title: Seq<char>, i: int) -> Option<int>
    decreases s.len() - i,
    when 0 <= i <= s.len()
{
    if i >= s.len() {
        None
    } else if s[i].title == title {
        Some(i)
    } else {
        find_keyword_from(s, title, i + 1)
    }
}


fn find_keyword(v: &Vec<Keyword>, title: &str) -> (r: Option<usize>)
    ensures
        match r {
            Option::Some(i) => find_keyword_from(keywords_view(v@), title@, 0) == Some(i as int)
                && i < v@.len(),
            Option::None => find_keyword_from(keywords_view(v@), title@, 0) is None,
        },
{
    let n = v.len();
    let mut i: usize = 0;
    while i < n
        invariant
            n == v@.len(),
            i <= n,
            find_keyword_from(keywords_view(v@), title@, 0) == find_keyword_from(
                keywords_view(v@),
                title@,
                i as int,
            ),
        decreases n - i,
    {
        proof {
            assert(keywords_view(v@)[i as int] == v@[i as int]@);
        }
        if crate::text::str_eq_str(v[i].title.as_str(), title) {
            return Some(i);
        }
        i = i + 1;
    }
    None
}

fn find_identifier(v: &Vec<Identifier>, id: u128) -> (r: Option<usize>)
    ensures
        match r {
            Option::Some(i) => find_identifier_from(identifiers_view(v@), id, 0) == Some(i as int)
                && i < v@.len(),
            Option::None => find_identifier_from(identifiers_view(v@), id, 0) is None,
        },
{
    let n = v.len();
    let mut i: usize = 0;
    while i < n
        invariant
            n == v@.len(),
            i <= n,
            find_identifier_from(identifiers_view(v@), id, 0) == find_identifier_from(
                identifiers_view(v@),
                id,
                i as int,
            ),
        decreases n - i,
    {
        proof {
            assert(identifiers_view(v@)[i as int] == v@[i as int]@);
        }
        let matches_id = match v[i].id {
            Some(t) => t == id,
            None => 0u128 == id,
        };
        if matches_id {
            return Some(i);
        }
        i = i + 1;
    }
    None
}

/// Adds a keyword.  Metadata and the keyword list are created when absent; a
/// keyword already listed is not added again.
#[verifier::loop_isolation(false)]
pub fn add_keyword_to_project(project: &mut Project, keyword: Keyword)
    ensures
        project_eq_except_md(*final(project), *old(project)),
        ({
            let base = old(project).effective_md();
            let cur = match base.keywords {
                Option::Some(v) => v,
                Option::None => Seq::empty(),
            };
            let upd = if cur.contains(keyword@) {
                cur
            } else {
                cur.push(keyword@)
            };
            final(project).md_view() == Some(
                ProjectMetadataModel { keywords: Some(upd), ..base },
            )
        }),
{
    if project.metadata.is_none() {
        project.metadata = Some(ProjectMetadata::default());
    }
    match &mut project.metadata {
        Some(md) => {
            if md.keywords.is_none() {
                md.keywords = Some(Vec::new());
            }
            match &mut md.keywords {
                Some(keywords) => {
                    let n = keywords.len();
                    let mut i: usize = 0;
                    let mut present = false;
                    while i < n
                        invariant
                            n == keywords@.len(),
                            i <= n,
                            present <==> exists|j: int|
                                0 <= j < i && (#[trigger] keywords@[j])@ == keyword@,
                        decreases n - i,
                    {
                        if crate::text::str_eq_str(
                            keywords[i].title.as_str(),
                            keyword.title.as_str(),
                        ) {
                            proof {
                                assert(keywords@[i as int]@ == keyword@);
                            }
                            present = true;
                        }
                        i = i + 1;
                    }
                    proof {
                        let cur = keywords_view(keywords@);
                        assert(present <==> cur.contains(keyword@)) by {
                            if present {
                                let j = choose|j: int|
                                    0 <= j < n && (#[trigger] keywords@[j])@ == keyword@;
                                assert(cur[j] == keyword@);
                            }
                            if cur.contains(keyword@) {
                                let j = choose|j: int| 0 <= j < cur.len() && cur[j] == keyword@;
                                assert(keywords@[j]@ == keyword@);
                            }
                        }
                    }
                    if !present {
                        let ghost pre = keywords_view(keywords@);
                        keywords.push(keyword);
                        proof {
                            assert(keywords_view(keywords@) =~= pre.push(
                                keywords@[keywords@.len() - 1]@,
                            ));
                        }
                    }
                },
                None => {
                    proof {
                        assert(false);
                    }
                },
            }
        },
        None => {
            proof {
                assert(false);
            }
        },
    }
}

/// Removes the first keyword with this title; a missing list or an unknown
/// title reports absence.
#[verifier::loop_isolation(false)]
pub fn remove_keyword_from_project(project: &mut Project, keyword: &str) -> (r: Result<
    (),
    ApiError,
>)
    ensures
        match r {
            Result::Ok(()) => {
                &&& old(project).metadata matches Some(m)
                &&& project_eq_except_md(*final(project), *old(project))
                &&& ({
                    let base = old(project).effective_md();
                    let cur = base.keywords.unwrap();
                    &&& base.keywords is Some
                    &&& find_keyword_from(cur, keyword@, 0) is Some
                    &&& final(project).md_view() == Some(
                        ProjectMetadataModel {
                            keywords: Some(cur.remove(find_keyword_from(cur, keyword@, 0).unwrap())),
                            ..base
                        },
                    )
                })
            },
            Result::Err(e) => {
                &&& e is NotFound
                &&& *final(project) == *old(project)
                &&& (old(project).metadata is None || old(project).effective_md().keywords is None
                    || find_keyword_from(
                    old(project).effective_md().keywords.unwrap(),
                    keyword@,
                    0,
                ) is None)
            },
        },
{
    let has_keywords = match &project.metadata {
        Some(md) => md.keywords.is_some(),
        None => false,
    };
    if !has_keywords {
        return Err(ApiError::NotFound);
    }
    let pos = match &project.metadata {
        Some(md) => match &md.keywords {
            Some(keywords) => find_keyword(keywords, keyword),
            None => None,
        },
        None => None,
    };
    let i = match pos {
        Some(i) => i,
        None => {
            return Err(ApiError::NotFound);
        },
    };
    match &mut project.metadata {
        Some(md) => {
            match &mut md.keywords {
                Some(keywords) => {
                    let ghost pre = keywords_view(keywords@);
                    keywords.remove(i);
                    proof {
                        assert(keywords_view(keywords@) =~= pre.remove(i as int));
                    }
                },
                None => {
                    proof {
                        assert(false);
                    }
                },
            }
        },
        None => {
            proof {
                assert(false);
            }
        },
    }
    Ok(())
}

/// The identity an operation compares an identifier against: its token, or
/// zero where none was assigned.
pub open spec fn ident_ident(m: IdentifierModel) -> u128 {
    match m.id {
        Option::Some(i) => i,
        Option::None => 0,
    }
}

/// Index of the first identifier carrying this identity, searched from `i`
/// on.
pub open spec fn find_identifier_from(s: Seq<IdentifierModel>, id: u128, i: int) -> Option<int>
    decreases s.len() - i,
    when 0 <= i <= s.len()
{
    if i >= s.len() {
        None
    } else if ident_ident(s[i]) == id {
        Some(i)
    } else {
        find_identifier_from(s, id, i + 1)
    }
}

/// Adds an identifier under a freshly drawn identity; an identifier arriving
/// with an identity of its own is rejected.  Metadata and the identifier
/// list are created when absent.
#[verifier::loop_isolation(false)]
pub fn add_identifier_to_project(project: &mut Project, identifier: Identifier) -> (r: Result<
    Identifier,
    ApiError,
>)
    ensures
        match r {
            Result::Ok(ident) => {
                &&& identifier.id is None
                &&& ident@.name == identifier@.name
                &&& ident@.value == identifier@.value
                &&& ident@.id is Some
                &&& project_eq_except_md(*final(project), *old(project))
                &&& ({
                    let base = old(project).effective_md();
                    let cur = match base.identifiers {
                        Option::Some(v) => v,
                        Option::None => Seq::empty(),
                    };
                    let upd = if cur.contains(ident@) {
                        cur
                    } else {
                        cur.push(ident@)
                    };
                    final(project).md_view() == Some(
                        ProjectMetadataModel { identifiers: Some(upd), ..base },
                    )
                })
            },
            Result::Err(e) => {
                &&& e is BadRequest
                &&& identifier.id is Some
                &&& *final(project) == *old(project)
            },
        },
{
    if identifier.id.is_some() {
        return Err(ApiError::BadRequest(
            String::from_str("Identifier is not supposed to have an id."),
        ));
    }
    let mut identifier = identifier;
    identifier.id = Some(crate::content::new_token());
    if project.metadata.is_none() {
        project.metadata = Some(ProjectMetadata::default());
    }
    match &mut project.metadata {
        Some(md) => {
            if md.identifiers.is_none() {
                md.identifiers = Some(Vec::new());
            }
            match &mut md.identifiers {
                Some(identifiers) => {
                    let n = identifiers.len();
                    let mut i: usize = 0;
                    let mut present = false;
                    while i < n
                        invariant
                            n == identifiers@.len(),
                            i <= n,
                            present <==> exists|j: int|
                                0 <= j < i && (#[trigger] identifiers@[j])@ == identifier@,
                        decreases n - i,
                    {
                        let same = match (identifiers[i].id, identifier.id) {
                            (Some(a), Some(b)) => a == b,
                            (None, None) => true,
                            _ => false,
                        };
                        if same && crate::text::str_eq_str(
                            identifiers[i].name.as_str(),
                            identifier.name.as_str(),
                        ) && crate::text::str_eq_str(
                            identifiers[i].value.as_str(),
                            identifier.value.as_str(),
                        ) {
                            proof {
                                assert(identifiers@[i as int]@ == identifier@);
                            }
                            present = true;
                        }
                        i = i + 1;
                    }
                    proof {
                        let cur = identifiers_view(identifiers@);
                        assert(present <==> cur.contains(identifier@)) by {
                            if present {
                                let j = choose|j: int|
                                    0 <= j < n && (#[trigger] identifiers@[j])@ == identifier@;
                                assert(cur[j] == identifier@);
                            }
                            if cur.contains(identifier@) {
                                let j = choose|j: int| 0 <= j < cur.len() && cur[j] == identifier@;
                                assert(identifiers@[j]@ == identifier@);
                            }
                        }
                    }
                    let copy = identifier.clone();
                    if !present {
                        let ghost pre = identifiers_view(identifiers@);
                        identifiers.push(identifier);
                        proof {
                            assert(identifiers_view(identifiers@) =~= pre.push(
                                identifiers@[identifiers@.len() - 1]@,
                            ));
                        }
                    }
                    Ok(copy)
                },
                None => {
                    proof {
                        assert(false);
                    }
                    Err(ApiError::NotFound)
                },
            }
        },
        None => {
            proof {
                assert(false);
            }
            Err(ApiError::NotFound)
        },
    }
}

/// Removes the identifier carrying this identity; a missing list or an
/// unknown identity reports absence.
#[verifier::loop_isolation(false)]
pub fn remove_identifier_from_project(project: &mut Project, identifier_id: u128) -> (r: Result<
    (),
    ApiError,
>)
    ensures
        match r {
            Result::Ok(()) => {
                &&& old(project).metadata matches Some(m)
                &&& project_eq_except_md(*final(project), *old(project))
                &&& ({
                    let base = old(project).effective_md();
                    let cur = base.identifiers.unwrap();
                    &&& base.identifiers is Some
                    &&& find_identifier_from(cur, identifier_id, 0) is Some
                    &&& final(project).md_view() == Some(
                        ProjectMetadataModel {
                            identifiers: Some(
                                cur.remove(find_identifier_from(cur, identifier_id, 0).unwrap()),
                            ),
                            ..base
                        },
                    )
                })
            },
            Result::Err(e) => {
                &&& e is NotFound
                &&& *final(project) == *old(project)
                &&& (old(project).metadata is None || old(
                    project,
                ).effective_md().identifiers is None || find_identifier_from(
                    old(project).effective_md().identifiers.unwrap(),
                    identifier_id,
                    0,
                ) is None)
            },
        },
{
    let has_identifiers = match &project.metadata {
        Some(md) => md.identifiers.is_some(),
        None => false,
    };
    if !has_identifiers {
        return Err(ApiError::NotFound);
    }
    let pos = match &project.metadata {
        Some(md) => match &md.identifiers {
            Some(identifiers) => find_identifier(identifiers, identifier_id),
            None => None,
        },
        None => None,
    };
    let i = match pos {
        Some(i) => i,
        None => {
            return Err(ApiError::NotFound);
        },
    };
    match &mut project.metadata {
        Some(md) => {
            match &mut md.identifiers {
                Some(identifiers) => {
                    let ghost pre = identifiers_view(identifiers@);
                    identifiers.remove(i);
                    proof {
                        assert(identifiers_view(identifiers@) =~= pre.remove(i as int));
                    }
                },
                None => {
                    proof {
                        assert(false);
                    }
                },
            }
        },
        None => {
            proof {
                assert(false);
            }
        },
    }
    Ok(())
}

/// Replaces the identifier carrying this identity.  An identifier arriving
/// with a different identity of its own is rejected; one arriving without an
/// identity adopts the addressed one.
#[verifier::loop_isolation(false)]
pub fn update_identifier_in_project(
    project: &mut Project,
    identifier_id: u128,
    identifier: Identifier,
) -> (r: Result<(), ApiError>)
    ensures
        match r {
            Result::Ok(()) => {
                &&& (identifier.id is Some ==> identifier.id == Some(identifier_id))
                &&& old(project).metadata matches Some(m)
                &&& project_eq_except_md(*final(project), *old(project))
                &&& ({
                    let base = old(project).effective_md();
                    let cur = base.identifiers.unwrap();
                    &&& base.identifiers is Some
                    &&& find_identifier_from(cur, identifier_id, 0) is Some
                    &&& final(project).md_view() == Some(
                        ProjectMetadataModel {
                            identifiers: Some(
                                cur.update(
                                    find_identifier_from(cur, identifier_id, 0).unwrap(),
                                    IdentifierModel { id: Some(identifier_id), ..identifier@ },
                                ),
                            ),
                            ..base
                        },
                    )
                })
            },
            Result::Err(crate::api::ApiError::BadRequest(_)) => {
                &&& identifier.id is Some
                &&& identifier.id != Some(identifier_id)
                &&& *final(project) == *old(project)
            },
            Result::Err(crate::api::ApiError::NotFound) => {
                &&& *final(project) == *old(project)
                &&& (old(project).metadata is None || old(
                    project,
                ).effective_md().identifiers is None || find_identifier_from(
                    old(project).effective_md().identifiers.unwrap(),
                    identifier_id,
                    0,
                ) is None)
            },
            _ => false,
        },
{
    let mut identifier = identifier;
    match identifier.id {
        Some(id) => {
            if id != identifier_id {
                return Err(ApiError::BadRequest(
                    String::from_str("Identifier id in url and body don't match"),
                ));
            }
        },
        None => {
            identifier.id = Some(identifier_id);
        },
    }
    let has_identifiers = match &project.metadata {
        Some(md) => md.identifiers.is_some(),
        None => false,
    };
    if !has_identifiers {
        return Err(ApiError::NotFound);
    }
    let pos = match &project.metadata {
        Some(md) => match &md.identifiers {
            Some(identifiers) => find_identifier(identifiers, identifier_id),
            None => None,
        },
        None => None,
    };
    let i = match pos {
        Some(i) => i,
        None => {
            return Err(ApiError::NotFound);
        },
    };
    match &mut project.metadata {
        Some(md) => {
            match &mut md.identifiers {
                Some(identifiers) => {
                    let ghost pre = identifiers_view(identifiers@);
                    let _old = identifiers.remove(i);
                    identifiers.insert(i, identifier);
                    proof {
                        assert(identifiers_view(identifiers@) =~= pre.update(
                            i as int,
                            identifiers@[i as int]@,
                        ));
                    }
                },
                None => {
                    proof {
                        assert(false);
                    }
                },
            }
        },
        None => {
            proof {
                assert(false);
            }
        },
    }
    Ok(())
}


/// What the section produced by an HTML import looks like: a fresh section
/// titled for the import, no subsections, and one content block per
/// transcribed block of the fragment, each under a fresh identity.
pub open spec fn imported_section_matches(
    e: SectionOrTocModel,
    nodes: Seq<crate::html::HtmlNode>,
) -> bool {
    &&& e is Section
    &&& {
        let sec = e->Section_0;
        let blocks = crate::html::fragment_blocks(nodes);
        &&& sec.id is Some
        &&& sec.css_classes.len() == 0
        &&& sec.sub_sections.len() == 0
        &&& sec.visible_in_toc
        &&& sec.metadata.title == "Imported Section"@
        &&& sec.metadata.subtitle is None
        &&& sec.metadata.authors.len() == 0
        &&& sec.metadata.editors.len() == 0
        &&& sec.metadata.web_url is None
        &&& sec.metadata.identifiers.len() == 0
        &&& sec.metadata.published is None
        &&& sec.metadata.last_changed is None
        &&& sec.metadata.lang is None
        &&& sec.children.len() == blocks.len()
        &&& forall|i: int|
            0 <= i < blocks.len() ==> {
                &&& (#[trigger] sec.children[i]).content == Some(blocks[i])
                &&& sec.children[i].id is Some
                &&& sec.children[i].revision_id is None
                &&& sec.children[i].css_classes is None
            }
    }
}

/// Imports converter HTML output into the project: the fragment is parsed,
/// its footnotes collected, its nodes transcribed into typed content blocks,
/// and a fresh section holding them is appended to the contents.  This
/// succeeds exactly when the input parses as a fragment; a parse failure or
/// a whole-document input fails the conversion and changes nothing.
#[verifier::loop_isolation(false)]
pub fn import_html(project: &mut Project, input: &str) -> (r: Result<
    (),
    crate::importing::ImportError,
>)
    ensures
        r is Ok <==> crate::html::html_fragment_ok(input@),
        match r {
            Result::Ok(()) => {
                &&& final(project).sections@.len() == old(project).sections@.len() + 1
                &&& final(project).sections@.drop_last() == old(project).sections@
                &&& (exists|nodes: Seq<crate::html::HtmlNode>|
                    imported_section_matches(final(project).sections@.last()@, nodes))
                &&& final(project).metadata == old(project).metadata
                &&& final(project).settings == old(project).settings
                &&& final(project).bibliography == old(project).bibliography
            },
            Result::Err(e) => {
                &&& e == crate::importing::ImportError::HtmlConversionFailed
                &&& *final(project) == *old(project)
            },
        },
{
    let nodes = match crate::html::parse_html_fragment(input) {
        Ok(nodes) => nodes,
        Err(e) => {
            return Err(crate::importing::ImportError::HtmlConversionFailed);
        },
    };
    let section = section_from_fragment(&nodes);
    proof {
        assert(imported_section_matches(
            SectionOrTocModel::Section(section_model(section)),
            nodes@,
        ));
    }
    project.sections.push(SectionOrToc::Section(section));
    proof {
        assert(final(project).sections@.drop_last() =~= old(project).sections@);
        assert(final(project).sections@.last()@ == SectionOrTocModel::Section(
            section_model(final(project).sections@.last()->Section_0),
        ));
    }
    Ok(())
}

/// Builds the fresh section an HTML import appends: the fragment's
/// transcribed blocks, each under a fresh identity.
#[verifier::loop_isolation(false)]
fn section_from_fragment(nodes: &Vec<crate::html::HtmlNode>) -> (r: Section)
    ensures
        imported_section_matches(SectionOrTocModel::Section(r@), nodes@),
{
    let block_data = crate::html::transcribe_fragment(nodes);
    let ghost blocks = crate::html::fragment_blocks(nodes@);
    let mut children: Vec<crate::content::ContentBlock> = Vec::new();
    let n = block_data.len();
    let mut i: usize = 0;
    while i < n
        invariant
            n == block_data@.len(),
            crate::content::blocks_view(block_data@) == blocks,
            i <= n,
            children@.len() == i,
            forall|k: int|
                0 <= k < i ==> {
                    &&& (#[trigger] children@[k])@.content == Some(blocks[k])
                    &&& children@[k]@.id is Some
                    &&& children@[k]@.revision_id is None
                    &&& children@[k]@.css_classes is None
                },
        decreases n - i,
    {
        let bd = block_data[i].clone();
        proof {
            assert(crate::content::blocks_view(block_data@)[i as int] == block_data@[i as int]@);
        }
        children.push(
            crate::content::ContentBlock {
                id: Some(crate::content::new_token()),
                revision_id: None,
                content: Some(bd),
                css_classes: None,
            },
        );
        i = i + 1;
    }
    let section = Section {
        id: Some(crate::content::new_token()),
        css_classes: Vec::new(),
        sub_sections: Vec::new(),
        children,
        visible_in_toc: true,
        metadata: crate::content::SectionMetadata {
            title: String::from_str("Imported Section"),
            subtitle: None,
            authors: Vec::new(),
            editors: Vec::new(),
            web_url: None,
            identifiers: Vec::new(),
            published: None,
            last_changed: None,
            lang: None,
        },
    };
    proof {
        assert(section@.sub_sections =~= Seq::<crate::content::SectionModel>::empty());
        assert(section@.css_classes =~= Seq::<Seq<char>>::empty());
        assert(section@.metadata.authors =~= Seq::<u128>::empty());
        assert(section@.metadata.editors =~= Seq::<u128>::empty());
        assert(section@.metadata.identifiers
            =~= Seq::<crate::content::IdentifierModel>::empty());
        assert(section@.children.len() == blocks.len());
        assert forall|k: int| 0 <= k < blocks.len() implies {
            &&& (#[trigger] section@.children[k]).content == Some(blocks[k])
            &&& section@.children[k].id is Some
            &&& section@.children[k].revision_id is None
            &&& section@.children[k].css_classes is None
        } by {
            assert(section@.children[k] == section.children@[k]@);
        }
    }
    section
}


/// Appends a new contents entry — a section or the table-of-contents
/// placeholder — at the end of the project's contents; a section arriving
/// without an identity receives a freshly drawn one.  A copy of the inserted
/// entry is reported back.
pub fn add_content(project: &mut Project, content: SectionOrToc) -> (r: SectionOrToc)
    ensures
        final(project).sections@.len() == old(project).sections@.len() + 1,
        final(project).sections@.drop_last() == old(project).sections@,
        final(project).metadata == old(project).metadata,
        final(project).settings == old(project).settings,
        final(project).bibliography == old(project).bibliography,
        r@ == final(project).sections@.last()@,
        match content {
            SectionOrToc::Toc => final(project).sections@.last()@ is Toc,
            SectionOrToc::Section(sec) => {
                &&& final(project).sections@.last()@ matches SectionOrTocModel::Section(m)
                &&& {
                    let m = final(project).sections@.last()@->Section_0;
                    &&& m.id is Some
                    &&& (sec.id is Some ==> m.id == sec.id)
                    &&& m == (SectionModel { id: m.id, ..sec@ })
                }
            },
        },
{
    let entry = match content {
        SectionOrToc::Toc => SectionOrToc::Toc,
        SectionOrToc::Section(mut sec) => {
            if sec.id.is_none() {
                sec.id = Some(crate::content::new_token());
            }
            SectionOrToc::Section(sec)
        },
    };
    let copy = entry.clone();
    let ghost em = entry@;
    project.sections.push(entry);
    proof {
        assert(final(project).sections@.drop_last() =~= old(project).sections@);
        assert(final(project).sections@.last()@ == em);
    }
    copy
}

} // verus!
