//! Depth-first operations on the project's content tree: removing a section
//! by identity, inserting a section after another one or as another's first
//! child, and the section-move operations composed from them.

use vstd::prelude::*;

verus! {

use crate::api::ApiError;
use crate::content::{
    contents_model,
    Section,
    section_model,
    SectionModel,
    SectionOrToc,
    SectionOrTocModel,
    sections_model,
};
use crate::project::Project;

/// Removes the first section with this identity from a top-level contents
/// list, depth first, reporting it and the list that remains.
pub open spec fn contents_remove_from(
    s: Seq<SectionOrTocModel>,
    id: u128,
    i: int,
) -> Option<(SectionModel, Seq<SectionOrTocModel>)>
    decreases s, s.len() - i,
    when 0 <= i <= s.len()
{
    if i >= s.len() {
        None
    } else {
        match s[i] {
            SectionOrTocModel::Toc => contents_remove_from(s, id, i + 1),
            SectionOrTocModel::Section(sec) => {
                if sec.id == Some(id) {
                    Some((sec, s.remove(i)))
                } else {
                    match section_remove(sec, id) {
                        Option::Some(pair) => Some(
                            (pair.0, s.update(i, SectionOrTocModel::Section(pair.1))),
                        ),
                        Option::None => contents_remove_from(s, id, i + 1),
                    }
                }
            },
        }
    }
}

/// Removes the first section with this identity from inside a section's
/// subsections, depth first.
pub open spec fn section_remove(sec: SectionModel, id: u128) -> Option<(SectionModel, SectionModel)>
    decreases sec, 0int,
{
    match subs_remove_from(sec.sub_sections, id, 0) {
        Option::Some(pair) => Some(
            (pair.0, SectionModel { sub_sections: pair.1, ..sec }),
        ),
        Option::None => None,
    }
}

/// Removes the first section with this identity from a subsection list,
/// depth first.
pub open spec fn subs_remove_from(v: Seq<SectionModel>, id: u128, i: int) -> Option<
    (SectionModel, Seq<SectionModel>),
>
    decreases v, v.len() - i,
    when 0 <= i <= v.len()
{
    if i >= v.len() {
        None
    } else {
        if v[i].id == Some(id) {
            Some((v[i], v.remove(i)))
        } else {
            match section_remove(v[i], id) {
                Option::Some(pair) => Some((pair.0, v.update(i, pair.1))),
                Option::None => subs_remove_from(v, id, i + 1),
            }
        }
    }
}

/// Removes the first section with this identity from a subsection list.
#[verifier::loop_isolation(false)]
pub fn remove_section_in_subs(subs: &mut Vec<Section>, id: u128) -> (r: Option<Section>)
    ensures
        match r {
            Option::Some(found) => {
                &&& subs_remove_from(sections_model(old(subs)@), id, 0) matches Some(pair)
                &&& found@ == subs_remove_from(sections_model(old(subs)@), id, 0).unwrap().0
                &&& sections_model(final(subs)@) == subs_remove_from(
                    sections_model(old(subs)@),
                    id,
                    0,
                ).unwrap().1
            },
            Option::None => {
                &&& subs_remove_from(sections_model(old(subs)@), id, 0) is None
                &&& sections_model(final(subs)@) == sections_model(old(subs)@)
            },
        },
    decreases sections_model(subs@),
{
    let ghost orig = sections_model(old(subs)@);
    let n = subs.len();
    let mut i: usize = 0;
    proof {
        crate::content::lemma_sections_model_len(old(subs)@);
    }
    while i < n
        invariant
            n == subs@.len(),
            i <= n,
            sections_model(subs@) == orig,
            orig.len() == n,
            subs_remove_from(orig, id, 0) == subs_remove_from(orig, id, i as int),
        decreases n - i,
    {
        let ghost snap = subs@;
        proof {
            crate::content::lemma_sections_model_index(snap, i as int);
            assert(orig[i as int] == section_model(snap[i as int]));
        }
        let is_match = match subs[i].id {
            Some(t) => t == id,
            None => false,
        };
        if is_match {
            let found = subs.remove(i);
            proof {
                assert(found == snap[i as int]);
                assert(orig[i as int].id == Some(id));
                assert(sections_model(subs@) =~= orig.remove(i as int)) by {
                    crate::content::lemma_sections_model_len(subs@);
                    assert forall|k: int|
                        0 <= k < subs@.len() implies sections_model(subs@)[k] == orig.remove(
                        i as int,
                    )[k] by {
                        crate::content::lemma_sections_model_index(subs@, k);
                        if k < i {
                            assert(subs@[k] == snap[k]);
                            crate::content::lemma_sections_model_index(snap, k);
                        } else {
                            assert(subs@[k] == snap[k + 1]);
                            crate::content::lemma_sections_model_index(snap, k + 1);
                        }
                    }
                }
            }
            return Some(found);
        }
        let mut entry = subs.remove(i);
        proof {
            assert(entry == snap[i as int]);
            assert(decreases_to!(orig => orig[i as int]));
            assert(decreases_to!(orig[i as int] => orig[i as int].sub_sections));
            assert(sections_model(entry.sub_sections@) == orig[i as int].sub_sections);
        }
        let inner = remove_section_in_subs(&mut entry.sub_sections, id);
        let ghost entry_after = entry;
        subs.insert(i, entry);
        proof {
            crate::content::lemma_sections_model_len(subs@);
            assert(subs@.len() == n);
            assert forall|k: int|
                0 <= k < n && k != i implies sections_model(subs@)[k] == orig[k] by {
                crate::content::lemma_sections_model_index(subs@, k);
                if k < i {
                    assert(subs@[k] == snap[k]);
                } else {
                    assert(subs@[k] == snap[k]);
                }
                crate::content::lemma_sections_model_index(snap, k);
            }
            crate::content::lemma_sections_model_index(subs@, i as int);
            assert(subs@[i as int] == entry_after);
            assert(section_model(entry_after) == (SectionModel {
                sub_sections: sections_model(entry_after.sub_sections@),
                ..orig[i as int]
            }));
        }
        match inner {
            Some(found) => {
                proof {
                    assert(section_remove(orig[i as int], id) == Some(
                        (found@, section_model(entry_after)),
                    ));
                    assert(sections_model(subs@) =~= orig.update(
                        i as int,
                        section_model(entry_after),
                    ));
                    assert(subs_remove_from(orig, id, i as int) == Some(
                        (found@, sections_model(subs@)),
                    ));
                }
                return Some(found);
            },
            None => {
                proof {
                    assert(section_remove(orig[i as int], id) is None);
                    assert(section_model(entry_after) =~= orig[i as int]);
                    assert(sections_model(subs@) =~= orig);
                    assert(subs_remove_from(orig, id, i as int) == subs_remove_from(
                        orig,
                        id,
                        i + 1,
                    ));
                }
            },
        }
        i = i + 1;
    }
    None
}

/// Removes the first section with this identity from the top-level contents
/// list, depth first; reports absence when no section carries it.
#[verifier::loop_isolation(false)]
pub fn remove_section(sections: &mut Vec<SectionOrToc>, id: u128) -> (r: Option<Section>)
    ensures
        match r {
            Option::Some(found) => {
                &&& contents_remove_from(contents_model(old(sections)@), id, 0) matches Some(pair)
                &&& found@ == contents_remove_from(
                    contents_model(old(sections)@),
                    id,
                    0,
                ).unwrap().0
                &&& contents_model(final(sections)@) == contents_remove_from(
                    contents_model(old(sections)@),
                    id,
                    0,
                ).unwrap().1
            },
            Option::None => {
                &&& contents_remove_from(contents_model(old(sections)@), id, 0) is None
                &&& contents_model(final(sections)@) == contents_model(old(sections)@)
            },
        },
{
    let ghost orig = contents_model(old(sections)@);
    let n = sections.len();
    let mut i: usize = 0;
    while i < n
        invariant
            n == sections@.len(),
            i <= n,
            contents_model(sections@) == orig,
            orig.len() == n,
            contents_remove_from(orig, id, 0) == contents_remove_from(orig, id, i as int),
        decreases n - i,
    {
        proof {
            assert(contents_model(sections@)[i as int] == sections@[i as int]@);
        }
        let is_section_match = match &sections[i] {
            SectionOrToc::Section(sec) => match sec.id {
                Some(t) => t == id,
                None => false,
            },
            SectionOrToc::Toc => false,
        };
        if is_section_match {
            let entry = sections.remove(i);
            proof {
                assert(contents_model(sections@) =~= orig.remove(i as int));
            }
            match entry {
                SectionOrToc::Section(found) => {
                    return Some(found);
                },
                SectionOrToc::Toc => {
                    proof {
                        assert(false);
                    }
                    return None;
                },
            }
        }
        let is_toc = match &sections[i] {
            SectionOrToc::Toc => true,
            SectionOrToc::Section(_) => false,
        };
        if !is_toc {
            let entry = sections.remove(i);
            match entry {
                SectionOrToc::Section(mut sec) => {
                    let inner = remove_section_in_subs(&mut sec.sub_sections, id);
                    let ghost sec_after = sec;
                    sections.insert(i, SectionOrToc::Section(sec));
                    proof {
                        assert(sections@[i as int]@ == SectionOrTocModel::Section(
                            section_model(sec_after),
                        ));
                        assert(section_model(sec_after) == SectionModel {
                            sub_sections: sections_model(sec_after.sub_sections@),
                            ..orig[i as int]->Section_0
                        });
                        assert(forall|k: int|
                            0 <= k < n && k != i ==> (#[trigger] sections@[k])@ == orig[k]);
                    }
                    match inner {
                        Some(found) => {
                            proof {
                                assert(contents_model(sections@) =~= orig.update(
                                    i as int,
                                    SectionOrTocModel::Section(section_model(sec_after)),
                                ));
                                assert(contents_remove_from(orig, id, i as int) == Some(
                                    (found@, contents_model(sections@)),
                                ));
                            }
                            return Some(found);
                        },
                        None => {
                            proof {
                                assert(section_model(sec_after) == orig[i as int]->Section_0);
                                assert(sections@[i as int]@ == orig[i as int]);
                                assert(contents_model(sections@) =~= orig);
                                assert(contents_remove_from(orig, id, i as int)
                                    == contents_remove_from(orig, id, i + 1));
                            }
                        },
                    }
                },
                SectionOrToc::Toc => {
                    proof {
                        assert(false);
                    }
                    sections.insert(i, entry);
                },
            }
        } else {
            proof {
                assert(contents_remove_from(orig, id, i as int) == contents_remove_from(
                    orig,
                    id,
                    i + 1,
                ));
            }
        }
        i = i + 1;
    }
    None
}

/// Deletes a section, addressed by the last identity of its path, with all
/// its subsections and content blocks; an unknown identity reports absence.
pub fn delete_section(project: &mut Project, section_id: u128) -> (r: Result<(), ApiError>)
    ensures
        match r {
            Result::Ok(()) => {
                &&& contents_remove_from(
                    contents_model(old(project).sections@),
                    section_id,
                    0,
                ) is Some
                &&& contents_model(final(project).sections@) == contents_remove_from(
                    contents_model(old(project).sections@),
                    section_id,
                    0,
                ).unwrap().1
                &&& final(project).metadata == old(project).metadata
                &&& final(project).settings == old(project).settings
                &&& final(project).bibliography == old(project).bibliography
            },
            Result::Err(e) => {
                &&& e is NotFound
                &&& contents_remove_from(
                    contents_model(old(project).sections@),
                    section_id,
                    0,
                ) is None
                &&& final(project).metadata == old(project).metadata
                &&& final(project).settings == old(project).settings
                &&& final(project).bibliography == old(project).bibliography
                &&& contents_model(final(project).sections@) == contents_model(
                    old(project).sections@,
                )
            },
        },
{
    match remove_section(&mut project.sections, section_id) {
        Some(_) => Ok(()),
        None => Err(ApiError::NotFound),
    }
}


/// Inserts a section as the next sibling of the one with this identity,
/// depth first, reporting the list that results.
pub open spec fn contents_insert_after_from(
    s: Seq<SectionOrTocModel>,
    target: u128,
    sec: SectionModel,
    i: int,
) -> Option<Seq<SectionOrTocModel>>
    decreases s, s.len() - i,
    when 0 <= i <= s.len()
{
    if i >= s.len() {
        None
    } else {
        match s[i] {
            SectionOrTocModel::Toc => contents_insert_after_from(s, target, sec, i + 1),
            SectionOrTocModel::Section(c) => {
                if c.id == Some(target) {
                    Some(s.insert(i + 1, SectionOrTocModel::Section(sec)))
                } else {
                    match section_insert_after(c, target, sec) {
                        Option::Some(c2) => Some(s.update(i, SectionOrTocModel::Section(c2))),
                        Option::None => contents_insert_after_from(s, target, sec, i + 1),
                    }
                }
            },
        }
    }
}

/// Inserts a section as the next sibling of the one with this identity
/// inside a section's subsections.
pub open spec fn section_insert_after(
    c: SectionModel,
    target: u128,
    sec: SectionModel,
) -> Option<SectionModel>
    decreases c, 0int,
{
    match subs_insert_after_from(c.sub_sections, target, sec, 0) {
        Option::Some(v2) => Some(SectionModel { sub_sections: v2, ..c }),
        Option::None => None,
    }
}

/// Inserts a section as the next sibling of the one with this identity in a
/// subsection list.
pub open spec fn subs_insert_after_from(
    v: Seq<SectionModel>,
    target: u128,
    sec: SectionModel,
    i: int,
) -> Option<Seq<SectionModel>>
    decreases v, v.len() - i,
    when 0 <= i <= v.len()
{
    if i >= v.len() {
        None
    } else {
        if v[i].id == Some(target) {
            Some(v.insert(i + 1, sec))
        } else {
            match section_insert_after(v[i], target, sec) {
                Option::Some(c2) => Some(v.update(i, c2)),
                Option::None => subs_insert_after_from(v, target, sec, i + 1),
            }
        }
    }
}

/// Inserts a section as the next sibling of the target inside a subsection
/// list; when no subsection carries the target identity, the section is
/// handed back unchanged.
#[verifier::loop_isolation(false)]
pub fn insert_after_in_subs(subs: &mut Vec<Section>, target: u128, sec: Section) -> (r: Result<
    (),
    Section,
>)
    ensures
        match r {
            Result::Ok(()) => {
                &&& subs_insert_after_from(
                    sections_model(old(subs)@),
                    target,
                    sec@,
                    0,
                ) matches Some(v2)
                &&& sections_model(final(subs)@) == subs_insert_after_from(
                    sections_model(old(subs)@),
                    target,
                    sec@,
                    0,
                ).unwrap()
            },
            Result::Err(back) => {
                &&& subs_insert_after_from(sections_model(old(subs)@), target, sec@, 0) is None
                &&& sections_model(final(subs)@) == sections_model(old(subs)@)
                &&& back@ == sec@
            },
        },
    decreases sections_model(subs@),
{
    let ghost orig = sections_model(old(subs)@);
    let ghost secm = sec@;
    let n = subs.len();
    let mut i: usize = 0;
    let mut sec = sec;
    proof {
        crate::content::lemma_sections_model_len(old(subs)@);
    }
    while i < n
        invariant
            n == subs@.len(),
            i <= n,
            sections_model(subs@) == orig,
            sec@ == secm,
            orig.len() == n,
            subs_insert_after_from(orig, target, secm, 0) == subs_insert_after_from(
                orig,
                target,
                secm,
                i as int,
            ),
        decreases n - i,
    {
        let ghost snap = subs@;
        proof {
            crate::content::lemma_sections_model_index(snap, i as int);
            assert(orig[i as int] == section_model(snap[i as int]));
        }
        let is_match = match subs[i].id {
            Some(t) => t == target,
            None => false,
        };
        if is_match {
            subs.insert(i + 1, sec);
            proof {
                assert(orig[i as int].id == Some(target));
                assert(sections_model(subs@) =~= orig.insert(i + 1, secm)) by {
                    crate::content::lemma_sections_model_len(subs@);
                    assert forall|k: int|
                        0 <= k < subs@.len() implies sections_model(subs@)[k] == orig.insert(
                        i + 1,
                        secm,
                    )[k] by {
                        crate::content::lemma_sections_model_index(subs@, k);
                        if k <= i {
                            assert(subs@[k] == snap[k]);
                            crate::content::lemma_sections_model_index(snap, k);
                        } else if k == i + 1 {
                        } else {
                            assert(subs@[k] == snap[k - 1]);
                            crate::content::lemma_sections_model_index(snap, k - 1);
                        }
                    }
                }
            }
            return Ok(());
        }
        let mut entry = subs.remove(i);
        proof {
            assert(entry == snap[i as int]);
            assert(decreases_to!(orig => orig[i as int]));
            assert(decreases_to!(orig[i as int] => orig[i as int].sub_sections));
            assert(sections_model(entry.sub_sections@) == orig[i as int].sub_sections);
        }
        let inner = insert_after_in_subs(&mut entry.sub_sections, target, sec);
        let ghost entry_after = entry;
        subs.insert(i, entry);
        proof {
            crate::content::lemma_sections_model_len(subs@);
            assert forall|k: int|
                0 <= k < n && k != i implies sections_model(subs@)[k] == orig[k] by {
                crate::content::lemma_sections_model_index(subs@, k);
                assert(subs@[k] == snap[k]);
                crate::content::lemma_sections_model_index(snap, k);
            }
            crate::content::lemma_sections_model_index(subs@, i as int);
            assert(subs@[i as int] == entry_after);
            assert(section_model(entry_after) == (SectionModel {
                sub_sections: sections_model(entry_after.sub_sections@),
                ..orig[i as int]
            }));
        }
        match inner {
            Ok(()) => {
                proof {
                    assert(section_insert_after(orig[i as int], target, secm) == Some(
                        section_model(entry_after),
                    ));
                    assert(sections_model(subs@) =~= orig.update(
                        i as int,
                        section_model(entry_after),
                    ));
                    assert(subs_insert_after_from(orig, target, secm, i as int) == Some(
                        sections_model(subs@),
                    ));
                }
                return Ok(());
            },
            Err(back) => {
                sec = back;
                proof {
                    assert(section_insert_after(orig[i as int], target, secm) is None);
                    assert(section_model(entry_after) =~= orig[i as int]);
                    assert(sections_model(subs@) =~= orig);
                    assert(subs_insert_after_from(orig, target, secm, i as int)
                        == subs_insert_after_from(orig, target, secm, i + 1));
                }
            },
        }
        i = i + 1;
    }
    Err(sec)
}

/// Inserts a section as the next sibling of the one with this identity in
/// the top-level contents, depth first; when no section carries the
/// identity, the section is handed back unchanged.
#[verifier::loop_isolation(false)]
pub fn insert_section_after(
    sections: &mut Vec<SectionOrToc>,
    target: u128,
    sec: Section,
) -> (r: Result<(), Section>)
    ensures
        match r {
            Result::Ok(()) => {
                &&& contents_insert_after_from(
                    contents_model(old(sections)@),
                    target,
                    sec@,
                    0,
                ) matches Some(v2)
                &&& contents_model(final(sections)@) == contents_insert_after_from(
                    contents_model(old(sections)@),
                    target,
                    sec@,
                    0,
                ).unwrap()
            },
            Result::Err(back) => {
                &&& contents_insert_after_from(
                    contents_model(old(sections)@),
                    target,
                    sec@,
                    0,
                ) is None
                &&& contents_model(final(sections)@) == contents_model(old(sections)@)
                &&& back@ == sec@
            },
        },
{
    let ghost orig = contents_model(old(sections)@);
    let ghost secm = sec@;
    let n = sections.len();
    let mut i: usize = 0;
    let mut sec = sec;
    while i < n
        invariant
            n == sections@.len(),
            i <= n,
            contents_model(sections@) == orig,
            sec@ == secm,
            orig.len() == n,
            contents_insert_after_from(orig, target, secm, 0) == contents_insert_after_from(
                orig,
                target,
                secm,
                i as int,
            ),
        decreases n - i,
    {
        let ghost snap = sections@;
        proof {
            assert(contents_model(snap)[i as int] == snap[i as int]@);
        }
        let is_toc = match &sections[i] {
            SectionOrToc::Toc => true,
            SectionOrToc::Section(_) => false,
        };
        if !is_toc {
            let is_match = match &sections[i] {
                SectionOrToc::Section(c) => match c.id {
                    Some(t) => t == target,
                    None => false,
                },
                SectionOrToc::Toc => false,
            };
            if is_match {
                sections.insert(i + 1, SectionOrToc::Section(sec));
                proof {
                    assert(orig[i as int]->Section_0.id == Some(target));
                    assert(contents_model(sections@) =~= orig.insert(
                        i + 1,
                        SectionOrTocModel::Section(secm),
                    )) by {
                        assert forall|k: int|
                            0 <= k < sections@.len() implies contents_model(sections@)[k]
                            == orig.insert(i + 1, SectionOrTocModel::Section(secm))[k] by {
                            if k <= i {
                                assert(sections@[k] == snap[k]);
                            } else if k > i + 1 {
                                assert(sections@[k] == snap[k - 1]);
                            }
                        }
                    }
                }
                return Ok(());
            }
            let entry = sections.remove(i);
            match entry {
                SectionOrToc::Section(mut c) => {
                    proof {
                        assert(SectionOrToc::Section(c)@ == snap[i as int]@);
                        assert(sections_model(c.sub_sections@)
                            == orig[i as int]->Section_0.sub_sections);
                    }
                    let inner = insert_after_in_subs(&mut c.sub_sections, target, sec);
                    let ghost c_after = c;
                    sections.insert(i, SectionOrToc::Section(c));
                    proof {
                        assert forall|k: int|
                            0 <= k < n && k != i implies (#[trigger] sections@[k])@ == orig[k] by {
                            assert(sections@[k] == snap[k]);
                        }
                        assert(sections@[i as int]@ == SectionOrTocModel::Section(
                            section_model(c_after),
                        ));
                        assert(section_model(c_after) == (SectionModel {
                            sub_sections: sections_model(c_after.sub_sections@),
                            ..orig[i as int]->Section_0
                        }));
                    }
                    match inner {
                        Ok(()) => {
                            proof {
                                assert(section_insert_after(
                                    orig[i as int]->Section_0,
                                    target,
                                    secm,
                                ) == Some(section_model(c_after)));
                                assert(contents_model(sections@) =~= orig.update(
                                    i as int,
                                    SectionOrTocModel::Section(section_model(c_after)),
                                ));
                                assert(contents_insert_after_from(orig, target, secm, i as int)
                                    == Some(contents_model(sections@)));
                            }
                            return Ok(());
                        },
                        Err(back) => {
                            sec = back;
                            proof {
                                assert(section_insert_after(
                                    orig[i as int]->Section_0,
                                    target,
                                    secm,
                                ) is None);
                                assert(section_model(c_after) =~= orig[i as int]->Section_0);
                                assert(sections@[i as int]@ == orig[i as int]);
                                assert(contents_model(sections@) =~= orig);
                                assert(contents_insert_after_from(orig, target, secm, i as int)
                                    == contents_insert_after_from(orig, target, secm, i + 1));
                            }
                        },
                    }
                },
                SectionOrToc::Toc => {
                    proof {
                        assert(false);
                    }
                    sections.insert(i, entry);
                },
            }
        } else {
            proof {
                assert(contents_insert_after_from(orig, target, secm, i as int)
                    == contents_insert_after_from(orig, target, secm, i + 1));
            }
        }
        i = i + 1;
    }
    Err(sec)
}

/// Moves a section to stand just after another one: the section is removed
/// wherever it stands and inserted as the target's next sibling.  When the
/// target is unknown the section is re-appended at the end, and absence is
/// reported; an unknown moved identity reports absence and changes nothing.
pub fn move_content_after(project: &mut Project, content_id: u128, after_id: u128) -> (r: Result<
    (),
    ApiError,
>)
    ensures
        final(project).metadata == old(project).metadata,
        final(project).settings == old(project).settings,
        final(project).bibliography == old(project).bibliography,
        match r {
            Result::Ok(()) => {
                let removed = contents_remove_from(
                    contents_model(old(project).sections@),
                    content_id,
                    0,
                );
                &&& removed matches Some(pair)
                &&& contents_insert_after_from(removed.unwrap().1, after_id, removed.unwrap().0, 0)
                    matches Some(v2)
                &&& contents_model(final(project).sections@) == contents_insert_after_from(
                    removed.unwrap().1,
                    after_id,
                    removed.unwrap().0,
                    0,
                ).unwrap()
            },
            Result::Err(e) => {
                let removed = contents_remove_from(
                    contents_model(old(project).sections@),
                    content_id,
                    0,
                );
                &&& e is NotFound
                &&& match removed {
                    Option::None => contents_model(final(project).sections@) == contents_model(
                        old(project).sections@,
                    ),
                    Option::Some(pair) => {
                        &&& contents_insert_after_from(pair.1, after_id, pair.0, 0) is None
                        &&& contents_model(final(project).sections@) == pair.1.push(
                            SectionOrTocModel::Section(pair.0),
                        )
                    },
                }
            },
        },
{
    let content = match remove_section(&mut project.sections, content_id) {
        Some(content) => content,
        None => {
            return Err(ApiError::NotFound);
        },
    };
    match insert_section_after(&mut project.sections, after_id, content) {
        Ok(()) => Ok(()),
        Err(back) => {
            let ghost pre = contents_model(project.sections@);
            let ghost backm = back@;
            project.sections.push(SectionOrToc::Section(back));
            proof {
                assert(contents_model(project.sections@) =~= pre.push(
                    SectionOrTocModel::Section(backm),
                ));
            }
            Err(ApiError::NotFound)
        },
    }
}


/// Makes a section the first child of the one with this identity, depth
/// first, reporting the list that results.
pub open spec fn contents_insert_child_from(
    s: Seq<SectionOrTocModel>,
    parent: u128,
    sec: SectionModel,
    i: int,
) -> Option<Seq<SectionOrTocModel>>
    decreases s, s.len() - i,
    when 0 <= i <= s.len()
{
    if i >= s.len() {
        None
    } else {
        match s[i] {
            SectionOrTocModel::Toc => contents_insert_child_from(s, parent, sec, i + 1),
            SectionOrTocModel::Section(c) => {
                if c.id == Some(parent) {
                    Some(
                        s.update(
                            i,
                            SectionOrTocModel::Section(
                                SectionModel { sub_sections: c.sub_sections.insert(0, sec), ..c },
                            ),
                        ),
                    )
                } else {
                    match section_insert_child(c, parent, sec) {
                        Option::Some(c2) => Some(s.update(i, SectionOrTocModel::Section(c2))),
                        Option::None => contents_insert_child_from(s, parent, sec, i + 1),
                    }
                }
            },
        }
    }
}

/// Makes a section the first child of the one with this identity inside a
/// section's subsections.
pub open spec fn section_insert_child(
    c: SectionModel,
    parent: u128,
    sec: SectionModel,
) -> Option<SectionModel>
    decreases c, 0int,
{
    match subs_insert_child_from(c.sub_sections, parent, sec, 0) {
        Option::Some(v2) => Some(SectionModel { sub_sections: v2, ..c }),
        Option::None => None,
    }
}

/// Makes a section the first child of the one with this identity in a
/// subsection list.
pub open spec fn subs_insert_child_from(
    v: Seq<SectionModel>,
    parent: u128,
    sec: SectionModel,
    i: int,
) -> Option<Seq<SectionModel>>
    decreases v, v.len() - i,
    when 0 <= i <= v.len()
{
    if i >= v.len() {
        None
    } else {
        if v[i].id == Some(parent) {
            Some(v.update(i, SectionModel { sub_sections: v[i].sub_sections.insert(0, sec), ..v[i] }))
        } else {
            match section_insert_child(v[i], parent, sec) {
                Option::Some(c2) => Some(v.update(i, c2)),
                Option::None => subs_insert_child_from(v, parent, sec, i + 1),
            }
        }
    }
}

/// Makes a section the first child of the target inside a subsection list;
/// when no subsection carries the target identity, the section is handed
/// back unchanged.
#[verifier::loop_isolation(false)]
pub fn insert_child_in_subs(subs: &mut Vec<Section>, parent: u128, sec: Section) -> (r: Result<
    (),
    Section,
>)
    ensures
        match r {
            Result::Ok(()) => {
                &&& subs_insert_child_from(
                    sections_model(old(subs)@),
                    parent,
                    sec@,
                    0,
                ) matches Some(v2)
                &&& sections_model(final(subs)@) == subs_insert_child_from(
                    sections_model(old(subs)@),
                    parent,
                    sec@,
                    0,
                ).unwrap()
            },
            Result::Err(back) => {
                &&& subs_insert_child_from(sections_model(old(subs)@), parent, sec@, 0) is None
                &&& sections_model(final(subs)@) == sections_model(old(subs)@)
                &&& back@ == sec@
            },
        },
    decreases sections_model(subs@),
{
    let ghost orig = sections_model(old(subs)@);
    let ghost secm = sec@;
    let n = subs.len();
    let mut i: usize = 0;
    let mut sec = sec;
    proof {
        crate::content::lemma_sections_model_len(old(subs)@);
    }
    while i < n
        invariant
            n == subs@.len(),
            i <= n,
            sections_model(subs@) == orig,
            sec@ == secm,
            orig.len() == n,
            subs_insert_child_from(orig, parent, secm, 0) == subs_insert_child_from(
                orig,
                parent,
                secm,
                i as int,
            ),
        decreases n - i,
    {
        let ghost snap = subs@;
        proof {
            crate::content::lemma_sections_model_index(snap, i as int);
            assert(orig[i as int] == section_model(snap[i as int]));
        }
        let is_match = match subs[i].id {
            Some(t) => t == parent,
            None => false,
        };
        let mut entry = subs.remove(i);
        proof {
            assert(entry == snap[i as int]);
            assert(decreases_to!(orig => orig[i as int]));
            assert(decreases_to!(orig[i as int] => orig[i as int].sub_sections));
            assert(sections_model(entry.sub_sections@) == orig[i as int].sub_sections);
        }
        if is_match {
            let ghost pre_subs = sections_model(entry.sub_sections@);
            proof {
                crate::content::lemma_sections_model_len(entry.sub_sections@);
            }
            entry.sub_sections.insert(0, sec);
            let ghost entry_after = entry;
            subs.insert(i, entry);
            proof {
                assert(orig[i as int].id == Some(parent));
                assert(sections_model(entry_after.sub_sections@) =~= pre_subs.insert(0, secm)) by {
                    crate::content::lemma_sections_model_len(entry_after.sub_sections@);
                    assert forall|k: int|
                        0 <= k < entry_after.sub_sections@.len() implies sections_model(
                        entry_after.sub_sections@,
                    )[k] == pre_subs.insert(0, secm)[k] by {
                        crate::content::lemma_sections_model_index(entry_after.sub_sections@, k);
                        if k > 0 {
                            assert(entry_after.sub_sections@[k] == snap[i as int].sub_sections@[k
                                - 1]);
                            crate::content::lemma_sections_model_index(
                                snap[i as int].sub_sections@,
                                k - 1,
                            );
                        }
                    }
                }
                crate::content::lemma_sections_model_len(subs@);
                assert forall|k: int|
                    0 <= k < n && k != i implies sections_model(subs@)[k] == orig[k] by {
                    crate::content::lemma_sections_model_index(subs@, k);
                    assert(subs@[k] == snap[k]);
                    crate::content::lemma_sections_model_index(snap, k);
                }
                crate::content::lemma_sections_model_index(subs@, i as int);
                assert(subs@[i as int] == entry_after);
                assert(section_model(entry_after) == (SectionModel {
                    sub_sections: pre_subs.insert(0, secm),
                    ..orig[i as int]
                }));
                assert(sections_model(subs@) =~= orig.update(
                    i as int,
                    section_model(entry_after),
                ));
                assert(subs_insert_child_from(orig, parent, secm, i as int) == Some(
                    sections_model(subs@),
                ));
            }
            return Ok(());
        }
        let inner = insert_child_in_subs(&mut entry.sub_sections, parent, sec);
        let ghost entry_after = entry;
        subs.insert(i, entry);
        proof {
            crate::content::lemma_sections_model_len(subs@);
            assert forall|k: int|
                0 <= k < n && k != i implies sections_model(subs@)[k] == orig[k] by {
                crate::content::lemma_sections_model_index(subs@, k);
                assert(subs@[k] == snap[k]);
                crate::content::lemma_sections_model_index(snap, k);
            }
            crate::content::lemma_sections_model_index(subs@, i as int);
            assert(subs@[i as int] == entry_after);
            assert(section_model(entry_after) == (SectionModel {
                sub_sections: sections_model(entry_after.sub_sections@),
                ..orig[i as int]
            }));
        }
        match inner {
            Ok(()) => {
                proof {
                    assert(section_insert_child(orig[i as int], parent, secm) == Some(
                        section_model(entry_after),
                    ));
                    assert(sections_model(subs@) =~= orig.update(
                        i as int,
                        section_model(entry_after),
                    ));
                    assert(subs_insert_child_from(orig, parent, secm, i as int) == Some(
                        sections_model(subs@),
                    ));
                }
                return Ok(());
            },
            Err(back) => {
                sec = back;
                proof {
                    assert(section_insert_child(orig[i as int], parent, secm) is None);
                    assert(section_model(entry_after) =~= orig[i as int]);
                    assert(sections_model(subs@) =~= orig);
                    assert(subs_insert_child_from(orig, parent, secm, i as int)
                        == subs_insert_child_from(orig, parent, secm, i + 1));
                }
            },
        }
        i = i + 1;
    }
    Err(sec)
}

/// Makes a section the first child of the one with this identity in the
/// top-level contents, depth first; when no section carries the identity,
/// the section is handed back unchanged.
#[verifier::loop_isolation(false)]
pub fn insert_section_as_first_child(
    sections: &mut Vec<SectionOrToc>,
    parent: u128,
    sec: Section,
) -> (r: Result<(), Section>)
    ensures
        match r {
            Result::Ok(()) => {
                &&& contents_insert_child_from(
                    contents_model(old(sections)@),
                    parent,
                    sec@,
                    0,
                ) matches Some(v2)
                &&& contents_model(final(sections)@) == contents_insert_child_from(
                    contents_model(old(sections)@),
                    parent,
                    sec@,
                    0,
                ).unwrap()
            },
            Result::Err(back) => {
                &&& contents_insert_child_from(
                    contents_model(old(sections)@),
                    parent,
                    sec@,
                    0,
                ) is None
                &&& contents_model(final(sections)@) == contents_model(old(sections)@)
                &&& back@ == sec@
            },
        },
{
    let ghost orig = contents_model(old(sections)@);
    let ghost secm = sec@;
    let n = sections.len();
    let mut i: usize = 0;
    let mut sec = sec;
    while i < n
        invariant
            n == sections@.len(),
            i <= n,
            contents_model(sections@) == orig,
            sec@ == secm,
            orig.len() == n,
            contents_insert_child_from(orig, parent, secm, 0) == contents_insert_child_from(
                orig,
                parent,
                secm,
                i as int,
            ),
        decreases n - i,
    {
        let ghost snap = sections@;
        proof {
            assert(contents_model(snap)[i as int] == snap[i as int]@);
        }
        let is_toc = match &sections[i] {
            SectionOrToc::Toc => true,
            SectionOrToc::Section(_) => false,
        };
        if !is_toc {
            let entry = sections.remove(i);
            match entry {
                SectionOrToc::Section(mut c) => {
                    proof {
                        assert(SectionOrToc::Section(c)@ == snap[i as int]@);
                        assert(sections_model(c.sub_sections@)
                            == orig[i as int]->Section_0.sub_sections);
                    }
                    let is_match = match c.id {
                        Some(t) => t == parent,
                        None => false,
                    };
                    if is_match {
                        let ghost pre_subs = sections_model(c.sub_sections@);
                        proof {
                            crate::content::lemma_sections_model_len(c.sub_sections@);
                        }
                        c.sub_sections.insert(0, sec);
                        let ghost c_after = c;
                        sections.insert(i, SectionOrToc::Section(c));
                        proof {
                            assert(orig[i as int]->Section_0.id == Some(parent));
                            assert(sections_model(c_after.sub_sections@) =~= pre_subs.insert(
                                0,
                                secm,
                            )) by {
                                crate::content::lemma_sections_model_len(c_after.sub_sections@);
                                assert forall|k: int|
                                    0 <= k < c_after.sub_sections@.len() implies sections_model(
                                    c_after.sub_sections@,
                                )[k] == pre_subs.insert(0, secm)[k] by {
                                    crate::content::lemma_sections_model_index(
                                        c_after.sub_sections@,
                                        k,
                                    );
                                    if k > 0 {
                                        crate::content::lemma_sections_model_index(
                                            snap[i as int]->Section_0.sub_sections@,
                                            k - 1,
                                        );
                                    }
                                }
                            }
                            assert forall|k: int|
                                0 <= k < n && k != i implies (#[trigger] sections@[k])@
                                == orig[k] by {
                                assert(sections@[k] == snap[k]);
                            }
                            assert(sections@[i as int]@ == SectionOrTocModel::Section(
                                section_model(c_after),
                            ));
                            assert(section_model(c_after) == (SectionModel {
                                sub_sections: pre_subs.insert(0, secm),
                                ..orig[i as int]->Section_0
                            }));
                            assert(contents_model(sections@) =~= orig.update(
                                i as int,
                                SectionOrTocModel::Section(section_model(c_after)),
                            ));
                            assert(contents_insert_child_from(orig, parent, secm, i as int)
                                == Some(contents_model(sections@)));
                        }
                        return Ok(());
                    }
                    let inner = insert_child_in_subs(&mut c.sub_sections, parent, sec);
                    let ghost c_after = c;
                    sections.insert(i, SectionOrToc::Section(c));
                    proof {
                        assert forall|k: int|
                            0 <= k < n && k != i implies (#[trigger] sections@[k])@ == orig[k] by {
                            assert(sections@[k] == snap[k]);
                        }
                        assert(sections@[i as int]@ == SectionOrTocModel::Section(
                            section_model(c_after),
                        ));
                        assert(section_model(c_after) == (SectionModel {
                            sub_sections: sections_model(c_after.sub_sections@),
                            ..orig[i as int]->Section_0
                        }));
                    }
                    match inner {
                        Ok(()) => {
                            proof {
                                assert(section_insert_child(
                                    orig[i as int]->Section_0,
                                    parent,
                                    secm,
                                ) == Some(section_model(c_after)));
                                assert(contents_model(sections@) =~= orig.update(
                                    i as int,
                                    SectionOrTocModel::Section(section_model(c_after)),
                                ));
                                assert(contents_insert_child_from(orig, parent, secm, i as int)
                                    == Some(contents_model(sections@)));
                            }
                            return Ok(());
                        },
                        Err(back) => {
                            sec = back;
                            proof {
                                assert(section_insert_child(
                                    orig[i as int]->Section_0,
                                    parent,
                                    secm,
                                ) is None);
                                assert(section_model(c_after) =~= orig[i as int]->Section_0);
                                assert(sections@[i as int]@ == orig[i as int]);
                                assert(contents_model(sections@) =~= orig);
                                assert(contents_insert_child_from(orig, parent, secm, i as int)
                                    == contents_insert_child_from(orig, parent, secm, i + 1));
                            }
                        },
                    }
                },
                SectionOrToc::Toc => {
                    proof {
                        assert(false);
                    }
                    sections.insert(i, entry);
                },
            }
        } else {
            proof {
                assert(contents_insert_child_from(orig, parent, secm, i as int)
                    == contents_insert_child_from(orig, parent, secm, i + 1));
            }
        }
        i = i + 1;
    }
    Err(sec)
}

/// Moves a section to be the first child of another one.  When the parent is
/// unknown the section is re-appended at the end, and absence is reported;
/// an unknown moved identity reports absence and changes nothing.
pub fn move_content_child_of(project: &mut Project, content_id: u128, parent_id: u128) -> (r: Result<
    (),
    ApiError,
>)
    ensures
        final(project).metadata == old(project).metadata,
        final(project).settings == old(project).settings,
        final(project).bibliography == old(project).bibliography,
        match r {
            Result::Ok(()) => {
                let removed = contents_remove_from(
                    contents_model(old(project).sections@),
                    content_id,
                    0,
                );
                &&& removed matches Some(pair)
                &&& contents_insert_child_from(removed.unwrap().1, parent_id, removed.unwrap().0, 0)
                    matches Some(v2)
                &&& contents_model(final(project).sections@) == contents_insert_child_from(
                    removed.unwrap().1,
                    parent_id,
                    removed.unwrap().0,
                    0,
                ).unwrap()
            },
            Result::Err(e) => {
                let removed = contents_remove_from(
                    contents_model(old(project).sections@),
                    content_id,
                    0,
                );
                &&& e is NotFound
                &&& match removed {
                    Option::None => contents_model(final(project).sections@) == contents_model(
                        old(project).sections@,
                    ),
                    Option::Some(pair) => {
                        &&& contents_insert_child_from(pair.1, parent_id, pair.0, 0) is None
                        &&& contents_model(final(project).sections@) == pair.1.push(
                            SectionOrTocModel::Section(pair.0),
                        )
                    },
                }
            },
        },
{
    let content = match remove_section(&mut project.sections, content_id) {
        Some(content) => content,
        None => {
            return Err(ApiError::NotFound);
        },
    };
    match insert_section_as_first_child(&mut project.sections, parent_id, content) {
        Ok(()) => Ok(()),
        Err(back) => {
            let ghost pre = contents_model(project.sections@);
            let ghost backm = back@;
            project.sections.push(SectionOrToc::Section(back));
            proof {
                assert(contents_model(project.sections@) =~= pre.push(
                    SectionOrTocModel::Section(backm),
                ));
            }
            Err(ApiError::NotFound)
        },
    }
}

/// The first section with this identity, depth first.
pub open spec fn contents_find_from(s: Seq<SectionOrTocModel>, id: u128, i: int) -> Option<
    SectionModel,
>
    decreases s, s.len() - i,
    when 0 <= i <= s.len()
{
    if i >= s.len() {
        None
    } else {
        match s[i] {
            SectionOrTocModel::Toc => contents_find_from(s, id, i + 1),
            SectionOrTocModel::Section(c) => {
                if c.id == Some(id) {
                    Some(c)
                } else {
                    match subs_find_from(c.sub_sections, id, 0) {
                        Option::Some(f) => Some(f),
                        Option::None => contents_find_from(s, id, i + 1),
                    }
                }
            },
        }
    }
}

/// The first section with this identity in a subsection list, depth first.
pub open spec fn subs_find_from(v: Seq<SectionModel>, id: u128, i: int) -> Option<SectionModel>
    decreases v, v.len() - i,
    when 0 <= i <= v.len()
{
    if i >= v.len() {
        None
    } else {
        if v[i].id == Some(id) {
            Some(v[i])
        } else {
            match subs_find_from(v[i].sub_sections, id, 0) {
                Option::Some(f) => Some(f),
                Option::None => subs_find_from(v, id, i + 1),
            }
        }
    }
}

/// Finds the first section with this identity in a subsection list and
/// reports a copy of it.
#[verifier::loop_isolation(false)]
fn find_in_subs(subs: &Vec<Section>, id: u128) -> (r: Option<Section>)
    ensures
        match r {
            Option::Some(found) => subs_find_from(sections_model(subs@), id, 0) == Some(found@),
            Option::None => subs_find_from(sections_model(subs@), id, 0) is None,
        },
    decreases sections_model(subs@),
{
    let ghost orig = sections_model(subs@);
    let n = subs.len();
    let mut i: usize = 0;
    proof {
        crate::content::lemma_sections_model_len(subs@);
    }
    while i < n
        invariant
            n == subs@.len(),
            i <= n,
            subs_find_from(orig, id, 0) == subs_find_from(orig, id, i as int),
        decreases n - i,
    {
        proof {
            crate::content::lemma_sections_model_index(subs@, i as int);
            assert(orig[i as int] == section_model(subs@[i as int]));
        }
        let is_match = match subs[i].id {
            Some(t) => t == id,
            None => false,
        };
        if is_match {
            return Some(subs[i].clone());
        }
        proof {
            assert(decreases_to!(orig => orig[i as int]));
            assert(decreases_to!(orig[i as int] => orig[i as int].sub_sections));
            assert(sections_model(subs@[i as int].sub_sections@)
                == orig[i as int].sub_sections);
        }
        match find_in_subs(&subs[i].sub_sections, id) {
            Some(found) => {
                return Some(found);
            },
            None => {},
        }
        i = i + 1;
    }
    None
}

/// Finds the first section with this identity in the contents, depth first,
/// and reports a copy of it.
#[verifier::loop_isolation(false)]
pub fn find_section(sections: &Vec<SectionOrToc>, id: u128) -> (r: Option<Section>)
    ensures
        match r {
            Option::Some(found) => contents_find_from(contents_model(sections@), id, 0) == Some(
                found@,
            ),
            Option::None => contents_find_from(contents_model(sections@), id, 0) is None,
        },
{
    let ghost orig = contents_model(sections@);
    let n = sections.len();
    let mut i: usize = 0;
    while i < n
        invariant
            n == sections@.len(),
            i <= n,
            contents_find_from(orig, id, 0) == contents_find_from(orig, id, i as int),
        decreases n - i,
    {
        proof {
            assert(contents_model(sections@)[i as int] == sections@[i as int]@);
        }
        match &sections[i] {
            SectionOrToc::Section(c) => {
                let is_match = match c.id {
                    Some(t) => t == id,
                    None => false,
                };
                if is_match {
                    return Some(c.clone());
                }
                proof {
                    assert(sections_model(c.sub_sections@)
                        == orig[i as int]->Section_0.sub_sections);
                }
                match find_in_subs(&c.sub_sections, id) {
                    Some(found) => {
                        return Some(found);
                    },
                    None => {},
                }
            },
            SectionOrToc::Toc => {},
        }
        i = i + 1;
    }
    None
}

/// A copy of the section addressed by the last identity of its path, with
/// its subsections stripped; an unknown identity reports absence.
pub fn get_section(project: &Project, section_id: u128) -> (r: Result<Section, ApiError>)
    ensures
        match r {
            Result::Ok(s) => {
                &&& contents_find_from(
                    contents_model(project.sections@),
                    section_id,
                    0,
                ) matches Some(f)
                &&& s@ == (SectionModel {
                    sub_sections: Seq::empty(),
                    ..contents_find_from(contents_model(project.sections@), section_id, 0).unwrap()
                })
            },
            Result::Err(e) => {
                &&& e is NotFound
                &&& contents_find_from(contents_model(project.sections@), section_id, 0) is None
            },
        },
{
    match find_section(&project.sections, section_id) {
        Some(mut found) => {
            found.sub_sections = Vec::new();
            proof {
                assert(found@.sub_sections =~= Seq::<SectionModel>::empty());
            }
            Ok(found)
        },
        None => Err(ApiError::NotFound),
    }
}

/// Copies of the content blocks of the section addressed by the last
/// identity of its path; an unknown identity reports absence.
pub fn get_content_blocks_in_section(project: &Project, section_id: u128) -> (r: Result<
    Vec<crate::content::ContentBlock>,
    ApiError,
>)
    ensures
        match r {
            Result::Ok(blocks) => {
                &&& contents_find_from(
                    contents_model(project.sections@),
                    section_id,
                    0,
                ) matches Some(f)
                &&& crate::content::blocks_model(blocks@) == contents_find_from(
                    contents_model(project.sections@),
                    section_id,
                    0,
                ).unwrap().children
            },
            Result::Err(e) => {
                &&& e is NotFound
                &&& contents_find_from(contents_model(project.sections@), section_id, 0) is None
            },
        },
{
    match find_section(&project.sections, section_id) {
        Some(found) => Ok(found.children),
        None => Err(ApiError::NotFound),
    }
}


/// A block with its inner content stripped, for contents listings.
pub open spec fn stripped_block(b: crate::content::ContentBlockModel) -> crate::content::ContentBlockModel {
    crate::content::ContentBlockModel { content: None, ..b }
}

/// The blocks of a section with their inner content stripped.
pub open spec fn stripped_blocks(s: Seq<crate::content::ContentBlockModel>) -> Seq<
    crate::content::ContentBlockModel,
> {
    s.map_values(|b: crate::content::ContentBlockModel| stripped_block(b))
}

/// A section with the inner content of every block stripped, at every depth.
pub open spec fn stripped_section(m: SectionModel) -> SectionModel
    decreases m, 1int,
{
    SectionModel {
        children: stripped_blocks(m.children),
        sub_sections: stripped_sections(m.sub_sections),
        ..m
    }
}

/// A subsection list with every block's inner content stripped.
pub open spec fn stripped_sections(v: Seq<SectionModel>) -> Seq<SectionModel>
    decreases v, 0int,
{
    if v.len() == 0 {
        Seq::empty()
    } else {
        stripped_sections(v.drop_last()).push(stripped_section(v.last()))
    }
}

proof fn lemma_stripped_sections_index(v: Seq<SectionModel>, k: int)
    requires
        0 <= k < v.len(),
    ensures
        stripped_sections(v).len() == v.len(),
        stripped_sections(v)[k] == stripped_section(v[k]),
    decreases v,
{
    if v.len() > 0 {
        if k < v.len() - 1 {
            lemma_stripped_sections_index(v.drop_last(), k);
            assert(v.drop_last()[k] == v[k]);
        } else {
            lemma_stripped_sections_len(v.drop_last());
        }
    }
}

proof fn lemma_stripped_sections_len(v: Seq<SectionModel>)
    ensures
        stripped_sections(v).len() == v.len(),
    decreases v,
{
    if v.len() > 0 {
        lemma_stripped_sections_len(v.drop_last());
    }
}

/// Copies one block with its inner content stripped.
fn strip_block(b: &crate::content::ContentBlock) -> (r: crate::content::ContentBlock)
    ensures
        r@ == stripped_block(b@),
{
    crate::content::ContentBlock {
        id: b.id,
        revision_id: b.revision_id,
        content: None,
        css_classes: match &b.css_classes {
            Some(v) => Some(crate::content::clone_strings(v)),
            None => None,
        },
    }
}

/// Copies a section with the inner content of every block stripped, at every
/// depth.
#[verifier::loop_isolation(false)]
fn strip_section(s: &Section) -> (r: Section)
    ensures
        r@ == stripped_section(s@),
    decreases *s,
{
    let mut children: Vec<crate::content::ContentBlock> = Vec::new();
    let cn = s.children.len();
    let mut i: usize = 0;
    while i < cn
        invariant
            cn == s.children@.len(),
            i <= cn,
            children@.len() == i,
            forall|k: int|
                0 <= k < i ==> (#[trigger] children@[k])@ == stripped_block(s.children@[k]@),
        decreases cn - i,
    {
        children.push(strip_block(&s.children[i]));
        i = i + 1;
    }
    let mut subs: Vec<Section> = Vec::new();
    let sn = s.sub_sections.len();
    let mut j: usize = 0;
    proof {
        assert(decreases_to!(*s => s.sub_sections));
    }
    while j < sn
        invariant
            sn == s.sub_sections@.len(),
            j <= sn,
            subs@.len() == j,
            forall|k: int|
                0 <= k < j ==> section_model(#[trigger] subs@[k]) == stripped_section(
                    section_model(s.sub_sections@[k]),
                ),
        decreases sn - j,
    {
        proof {
            broadcast use vstd::std_specs::vec::axiom_vec_index_decreases;

            assert(decreases_to!(s.sub_sections@ => s.sub_sections@[j as int]));
        }
        subs.push(strip_section(&s.sub_sections[j]));
        j = j + 1;
    }
    let r = Section {
        id: s.id,
        css_classes: crate::content::clone_strings(&s.css_classes),
        sub_sections: subs,
        children,
        visible_in_toc: s.visible_in_toc,
        metadata: s.metadata.clone(),
    };
    proof {
        assert forall|k: int| 0 <= k < cn implies crate::content::blocks_model(r.children@)[k]
            == stripped_blocks(s@.children)[k] by {
            assert(r.children@[k]@ == stripped_block(s.children@[k]@));
            assert(s@.children[k] == s.children@[k]@);
        }
        assert(crate::content::blocks_model(r.children@) =~= stripped_blocks(s@.children));
        crate::content::lemma_sections_model_len(r.sub_sections@);
        crate::content::lemma_sections_model_len(s.sub_sections@);
        lemma_stripped_sections_len(s@.sub_sections);
        assert forall|k: int| 0 <= k < sn implies sections_model(r.sub_sections@)[k]
            == stripped_sections(s@.sub_sections)[k] by {
            crate::content::lemma_sections_model_index(r.sub_sections@, k);
            crate::content::lemma_sections_model_index(s.sub_sections@, k);
            lemma_stripped_sections_index(s@.sub_sections, k);
        }
        assert(sections_model(r.sub_sections@) =~= stripped_sections(s@.sub_sections));
    }
    r
}

/// The stripped view of a contents list, entry for entry.
pub open spec fn stripped_contents(s: Seq<SectionOrTocModel>) -> Seq<SectionOrTocModel> {
    s.map_values(
        |e: SectionOrTocModel|
            match e {
                SectionOrTocModel::Toc => SectionOrTocModel::Toc,
                SectionOrTocModel::Section(sec) => SectionOrTocModel::Section(
                    stripped_section(sec),
                ),
            },
    )
}

/// The project's contents listing: every entry copied with the inner content
/// of its blocks stripped, so the listing stays light.
pub fn get_project_contents(project: &Project) -> (r: Vec<SectionOrToc>)
    ensures
        contents_model(r@) == stripped_contents(contents_model(project.sections@)),
{
    let n = project.sections.len();
    let mut out: Vec<SectionOrToc> = Vec::new();
    let mut i: usize = 0;
    while i < n
        invariant
            n == project.sections@.len(),
            i <= n,
            out@.len() == i,
            forall|k: int|
                0 <= k < i ==> (#[trigger] out@[k])@ == stripped_contents(
                    contents_model(project.sections@),
                )[k],
        decreases n - i,
    {
        proof {
            assert(contents_model(project.sections@)[i as int] == project.sections@[i as int]@);
        }
        match &project.sections[i] {
            SectionOrToc::Toc => {
                out.push(SectionOrToc::Toc);
            },
            SectionOrToc::Section(sec) => {
                out.push(SectionOrToc::Section(strip_section(sec)));
            },
        }
        i = i + 1;
    }
    proof {
        assert forall|k: int| 0 <= k < n implies contents_model(out@)[k] == stripped_contents(
            contents_model(project.sections@),
        )[k] by {
            assert(out@[k]@ == stripped_contents(contents_model(project.sections@))[k]);
        }
        assert(contents_model(out@) =~= stripped_contents(contents_model(project.sections@)));
    }
    out
}

} // verus!
