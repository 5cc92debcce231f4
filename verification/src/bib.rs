//! Bibliography ingestion: parsing BibLaTeX text through the external
//! bibliography parser and merging the parsed entries into a project's
//! bibliography table, keyed by citation key with last-write-wins on
//! collisions.

use vstd::prelude::*;

verus! {

use crate::importing::ImportError;
use crate::project::{bib_upto, BibEntry, BibEntryModel, Project};
use crate::text::string_views;

/// Whether a BibLaTeX source text parses, and the citation keys of its
/// entries in library order: a function of the text alone.
pub uninterp spec fn biblatex_keys(s: Seq<char>) -> Option<Seq<Seq<char>>>;

/// Relies on hayagriva's io::from_biblatex_str: parses a BibLaTeX source
/// string into a library of entries, deterministically in the text.  The
/// entries' citation keys are handed out in library order; a text that does
/// not parse is reported as an invalid bibliography file.
#[verifier::external_body]
fn parse_biblatex(text: &str) -> (r: Result<Vec<String>, ImportError>)
    ensures
        r is Ok <==> biblatex_keys(text@) is Some,
        r matches Ok(keys) ==> string_views(keys@) == biblatex_keys(text@).unwrap(),
        r matches Err(e) ==> e == ImportError::BibFileInvalid,
{
    match hayagriva::io::from_biblatex_str(text) {
        Ok(library) => Ok(library.iter().map(|e| e.key().to_string()).collect()),
        Err(_) => Err(ImportError::BibFileInvalid),
    }
}

/// The bibliography after merging the first `j` keys, in order, each keyed
/// by its citation key (last write wins).
pub open spec fn bib_merged_upto(
    m: Map<Seq<char>, BibEntryModel>,
    keys: Seq<Seq<char>>,
    j: int,
) -> Map<Seq<char>, BibEntryModel>
    decreases j,
    when 0 <= j <= keys.len()
{
    if j <= 0 {
        m
    } else {
        bib_merged_upto(m, keys, j - 1).insert(keys[j - 1], BibEntryModel { key: keys[j - 1] })
    }
}

proof fn lemma_bib_upto_prefix(s1: Seq<(String, BibEntry)>, s2: Seq<(String, BibEntry)>, j: int)
    requires
        0 <= j <= s1.len(),
        j <= s2.len(),
        forall|t: int| 0 <= t < j ==> s1[t] == s2[t],
    ensures
        bib_upto(s1, j) == bib_upto(s2, j),
    decreases j,
{
    if j > 0 {
        lemma_bib_upto_prefix(s1, s2, j - 1);
    }
}

/// Parses a bibliography text and merges every entry into the project's
/// bibliography, keyed by citation key.  A text that does not parse aborts
/// with an invalid-bibliography error and changes nothing; on success the
/// number of merged entries is reported.
#[verifier::loop_isolation(false)]
pub fn import_bib_entries(project: &mut Project, bib_text: &str) -> (r: Result<usize, ImportError>)
    ensures
        match r {
            Result::Ok(n) => {
                &&& biblatex_keys(bib_text@) matches Some(keys)
                &&& n == biblatex_keys(bib_text@).unwrap().len()
                &&& final(project).bib_view() == bib_merged_upto(
                    old(project).bib_view(),
                    biblatex_keys(bib_text@).unwrap(),
                    biblatex_keys(bib_text@).unwrap().len() as int,
                )
                &&& final(project).metadata == old(project).metadata
                &&& final(project).settings == old(project).settings
                &&& final(project).sections == old(project).sections
            },
            Result::Err(e) => {
                &&& e == ImportError::BibFileInvalid
                &&& biblatex_keys(bib_text@) is None
                &&& *final(project) == *old(project)
            },
        },
{
    let keys = match parse_biblatex(bib_text) {
        Ok(keys) => keys,
        Err(e) => {
            return Err(e);
        },
    };
    let ghost key_views = string_views(keys@);
    let n = keys.len();
    let mut i: usize = 0;
    while i < n
        invariant
            n == keys@.len(),
            i <= n,
            project.metadata == old(project).metadata,
            project.settings == old(project).settings,
            project.sections == old(project).sections,
            project.bib_view() == bib_merged_upto(old(project).bib_view(), key_views, i as int),
        decreases n - i,
    {
        let key = keys[i].clone();
        let entry = BibEntry { key: key.clone() };
        let ghost pre = project.bibliography@;
        project.bibliography.push((key, entry));
        proof {
            lemma_bib_upto_prefix(pre, project.bibliography@, pre.len() as int);
            assert(key_views[i as int] == keys@[i as int]@);
        }
        i = i + 1;
    }
    Ok(n)
}

} // verus!
