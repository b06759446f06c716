//! Section merge: building one desired tag state per file out of the
//! sections whose patterns matched it, and the shared-tags intersection
//! behind the listing command.
//!
//! Merging walks the sections in file-appearance order and, per matched
//! file, upserts each assignment by identifier: a later section's value
//! for the same identifier wins. The desired state that reaches the diff
//! engine therefore never holds two assignments with one identifier.

use vstd::prelude::*;

use crate::diff::sp_unique_ids;
use crate::kiln::{state_seq_view, FileTagState, FileTagStateView, Section, SectionView};
use crate::tags::{tag_seq_view, TagPair, TagPairView};

verus! {

/// One assignment folded into a tag list: the first assignment with the
/// same identifier is replaced in place, otherwise the new one is
/// appended.
pub open spec fn sp_upsert(tags: Seq<TagPairView>, p: TagPairView) -> Seq<TagPairView>
    decreases tags.len(),
{
    if tags.len() == 0 {
        seq![p]
    } else if tags[0].id == p.id {
        seq![p] + tags.drop_first()
    } else {
        seq![tags[0]] + sp_upsert(tags.drop_first(), p)
    }
}

/// A whole assignment list folded in, in order: the later value for an
/// identifier wins.
pub open spec fn sp_merge_pairs(tags: Seq<TagPairView>, pairs: Seq<TagPairView>, i: int) -> Seq<
    TagPairView,
>
    decreases pairs.len() - i,
{
    if i < 0 || i >= pairs.len() {
        tags
    } else {
        sp_merge_pairs(sp_upsert(tags, pairs[i]), pairs, i + 1)
    }
}

/// A section's assignments folded into the state of one file: the file's
/// entry is extended (or created) with the section's pairs.
pub open spec fn sp_state_upsert(
    states: Seq<FileTagStateView>,
    file: Seq<char>,
    pairs: Seq<TagPairView>,
) -> Seq<FileTagStateView>
    decreases states.len(),
{
    if states.len() == 0 {
        seq![
            FileTagStateView { filepath: file, tags: sp_merge_pairs(seq![], pairs, 0) },
        ]
    } else if states[0].filepath == file {
        seq![
            FileTagStateView { filepath: file, tags: sp_merge_pairs(states[0].tags, pairs, 0) },
        ] + states.drop_first()
    } else {
        seq![states[0]] + sp_state_upsert(states.drop_first(), file, pairs)
    }
}

/// One section folded into the whole desired state, file by file.
pub open spec fn sp_merge_files(
    states: Seq<FileTagStateView>,
    files: Seq<Seq<char>>,
    pairs: Seq<TagPairView>,
    j: int,
) -> Seq<FileTagStateView>
    decreases files.len() - j,
{
    if j < 0 || j >= files.len() {
        states
    } else {
        sp_merge_files(sp_state_upsert(states, files[j], pairs), files, pairs, j + 1)
    }
}

/// All sections folded in, in file-appearance order; `files[i]` is the
/// list of files section `i` resolved to.
pub open spec fn sp_merge(
    states: Seq<FileTagStateView>,
    sections: Seq<SectionView>,
    files: Seq<Seq<Seq<char>>>,
    i: int,
) -> Seq<FileTagStateView>
    decreases sections.len() - i,
{
    if i < 0 || i >= sections.len() {
        states
    } else {
        sp_merge(
            sp_merge_files(states, files[i], sections[i].tag_set, 0),
            sections,
            files,
            i + 1,
        )
    }
}

/// The desired state of a whole run: every section merged over its
/// resolved files, starting from nothing.
pub open spec fn sp_desired_states(sections: Seq<SectionView>, files: Seq<Seq<Seq<char>>>) -> Seq<
    FileTagStateView,
> {
    sp_merge(seq![], sections, files, 0)
}

pub open spec fn file_list_view(files: Seq<String>) -> Seq<Seq<char>> {
    files.map_values(|f: String| f@)
}

pub open spec fn file_lists_view(files: Seq<Vec<String>>) -> Seq<Seq<Seq<char>>> {
    files.map_values(|v: Vec<String>| file_list_view(v@))
}

proof fn lemma_upsert_at(tags: Seq<TagPairView>, p: TagPairView, k: int)
    requires
        0 <= k < tags.len(),
        tags[k].id == p.id,
        forall|m: int| 0 <= m < k ==> tags[m].id != p.id,
    ensures
        sp_upsert(tags, p) == tags.update(k, p),
    decreases k,
{
    if k == 0 {
        assert(seq![p] + tags.drop_first() =~= tags.update(0, p));
    } else {
        lemma_upsert_at(tags.drop_first(), p, k - 1);
        assert(seq![tags[0]] + tags.drop_first().update(k - 1, p) =~= tags.update(k, p));
    }
}

proof fn lemma_upsert_absent(tags: Seq<TagPairView>, p: TagPairView)
    requires
        forall|m: int| 0 <= m < tags.len() ==> tags[m].id != p.id,
    ensures
        sp_upsert(tags, p) == tags.push(p),
    decreases tags.len(),
{
    if tags.len() == 0 {
        assert(seq![p] =~= tags.push(p));
    } else {
        lemma_upsert_absent(tags.drop_first(), p);
        assert(seq![tags[0]] + tags.drop_first().push(p) =~= tags.push(p));
    }
}

fn clone_tags(tags: &Vec<TagPair>) -> (r: Vec<TagPair>)
    ensures
        tag_seq_view(r@) == tag_seq_view(tags@),
{
    let mut r: Vec<TagPair> = Vec::new();
    let mut k: usize = 0;
    while k < tags.len()
        invariant
            k <= tags@.len(),
            r@.len() == k,
            tag_seq_view(r@) =~= tag_seq_view(tags@).subrange(0, k as int),
        decreases tags@.len() - k,
    {
        let ghost old_r = r@;
        r.push(tags[k].clone());
        proof {
            assert(r@[k as int]@ == tags@[k as int]@);
            assert(forall|m: int| 0 <= m < k ==> r@[m] == old_r[m]);
            assert(tag_seq_view(r@) =~= tag_seq_view(tags@).subrange(0, k as int + 1));
        }
        k = k + 1;
    }
    proof {
        assert(tag_seq_view(tags@).subrange(0, tags@.len() as int) =~= tag_seq_view(tags@));
    }
    r
}

/// Fold one assignment into a tag list, the later value winning.
fn upsert_pair(tags: &mut Vec<TagPair>, p: TagPair)
    ensures
        tag_seq_view(final(tags)@) == sp_upsert(tag_seq_view(old(tags)@), p@),
{
    let ghost orig = tag_seq_view(tags@);
    let mut k: usize = 0;
    while k < tags.len()
        invariant
            k <= tags@.len(),
            orig == tag_seq_view(tags@),
            orig == tag_seq_view(old(tags)@),
            orig.len() == tags@.len(),
            forall|m: int| 0 <= m < k ==> orig[m].id != p@.id,
        decreases tags@.len() - k,
    {
        if tags[k].id == p.id {
            proof {
                lemma_upsert_at(orig, p@, k as int);
            }
            let ghost before = tags@;
            tags[k] = p;
            proof {
                assert(tags@ =~= before.update(k as int, tags@[k as int]));
                assert(tag_seq_view(tags@) =~= orig.update(k as int, p@));
            }
            return ;
        }
        k = k + 1;
    }
    proof {
        lemma_upsert_absent(orig, p@);
    }
    let ghost before = tags@;
    tags.push(p);
    proof {
        assert(tag_seq_view(tags@) =~= tag_seq_view(before).push(p@));
    }
}

/// Fold a whole assignment list into a tag list, in order.
fn merge_pairs_into(tags: &mut Vec<TagPair>, pairs: &Vec<TagPair>)
    ensures
        tag_seq_view(final(tags)@) == sp_merge_pairs(
            tag_seq_view(old(tags)@),
            tag_seq_view(pairs@),
            0,
        ),
{
    let ghost orig = tag_seq_view(old(tags)@);
    let ghost pairsv = tag_seq_view(pairs@);
    let mut k: usize = 0;
    while k < pairs.len()
        invariant
            k <= pairs@.len(),
            pairsv == tag_seq_view(pairs@),
            pairsv.len() == pairs@.len(),
            sp_merge_pairs(orig, pairsv, 0) == sp_merge_pairs(
                tag_seq_view(tags@),
                pairsv,
                k as int,
            ),
        decreases pairs@.len() - k,
    {
        upsert_pair(tags, pairs[k].clone());
        k = k + 1;
    }
}

/// The desired tag state of a whole run, from the parsed sections and the
/// files each section's pattern resolved to. Sections and files are
/// walked in order, so a later section's value for an identifier wins.
pub fn get_new_tags_from_sections(sections: &Vec<Section>, files: &Vec<Vec<String>>) -> (r: Vec<
    FileTagState,
>)
    requires
        files@.len() == sections@.len(),
    ensures
        state_seq_view(r@) == sp_desired_states(
            crate::kiln::section_seq_view(sections@),
            file_lists_view(files@),
        ),
{
    let ghost sectionsv = crate::kiln::section_seq_view(sections@);
    let ghost filesv = file_lists_view(files@);
    let ghost target = sp_desired_states(sectionsv, filesv);
    let mut states: Vec<FileTagState> = Vec::new();
    let mut i: usize = 0;
    proof {
        assert(state_seq_view(states@) =~= Seq::<FileTagStateView>::empty());
    }
    while i < sections.len()
        invariant
            i <= sections@.len(),
            sectionsv == crate::kiln::section_seq_view(sections@),
            filesv == file_lists_view(files@),
            sectionsv.len() == sections@.len(),
            filesv.len() == sections@.len(),
            files@.len() == sections@.len(),
            target == sp_merge(state_seq_view(states@), sectionsv, filesv, i as int),
        decreases sections@.len() - i,
    {
        let section_files = &files[i];
        let ghost flist = filesv[i as int];
        proof {
            assert(flist == file_list_view(files@[i as int]@));
        }
        let mut j: usize = 0;
        while j < section_files.len()
            invariant
                j <= section_files@.len(),
                i < sections@.len(),
                sectionsv == crate::kiln::section_seq_view(sections@),
                filesv == file_lists_view(files@),
                sectionsv.len() == sections@.len(),
                filesv.len() == sections@.len(),
                files@.len() == sections@.len(),
                section_files@ == files@[i as int]@,
                flist == file_list_view(files@[i as int]@),
                flist.len() == section_files@.len(),
                target == sp_merge(
                    sp_merge_files(
                        state_seq_view(states@),
                        flist,
                        sectionsv[i as int].tag_set,
                        j as int,
                    ),
                    sectionsv,
                    filesv,
                    i as int + 1,
                ),
            decreases section_files@.len() - j,
        {
            add_section_tags(&mut states, &section_files[j], &sections[i].tag_set);
            proof {
                assert(sectionsv[i as int].tag_set == tag_seq_view(sections@[i as int].tag_set@));
                assert(flist[j as int] == section_files@[j as int]@);
            }
            j = j + 1;
        }
        i = i + 1;
    }
    states
}

proof fn lemma_state_upsert_at(
    states: Seq<FileTagStateView>,
    file: Seq<char>,
    pairs: Seq<TagPairView>,
    k: int,
)
    requires
        0 <= k < states.len(),
        states[k].filepath == file,
        forall|m: int| 0 <= m < k ==> states[m].filepath != file,
    ensures
        sp_state_upsert(states, file, pairs) == states.update(
            k,
            FileTagStateView { filepath: file, tags: sp_merge_pairs(states[k].tags, pairs, 0) },
        ),
    decreases k,
{
    if k == 0 {
        assert(seq![
            FileTagStateView { filepath: file, tags: sp_merge_pairs(states[0].tags, pairs, 0) },
        ] + states.drop_first() =~= states.update(
            0,
            FileTagStateView { filepath: file, tags: sp_merge_pairs(states[0].tags, pairs, 0) },
        ));
    } else {
        lemma_state_upsert_at(states.drop_first(), file, pairs, k - 1);
        assert(seq![states[0]] + states.drop_first().update(
            k - 1,
            FileTagStateView { filepath: file, tags: sp_merge_pairs(states[k].tags, pairs, 0) },
        ) =~= states.update(
            k,
            FileTagStateView { filepath: file, tags: sp_merge_pairs(states[k].tags, pairs, 0) },
        ));
    }
}

proof fn lemma_state_upsert_absent(
    states: Seq<FileTagStateView>,
    file: Seq<char>,
    pairs: Seq<TagPairView>,
)
    requires
        forall|m: int| 0 <= m < states.len() ==> states[m].filepath != file,
    ensures
        sp_state_upsert(states, file, pairs) == states.push(
            FileTagStateView { filepath: file, tags: sp_merge_pairs(seq![], pairs, 0) },
        ),
    decreases states.len(),
{
    if states.len() == 0 {
        assert(seq![
            FileTagStateView { filepath: file, tags: sp_merge_pairs(seq![], pairs, 0) },
        ] =~= states.push(
            FileTagStateView { filepath: file, tags: sp_merge_pairs(seq![], pairs, 0) },
        ));
    } else {
        lemma_state_upsert_absent(states.drop_first(), file, pairs);
        assert(seq![states[0]] + states.drop_first().push(
            FileTagStateView { filepath: file, tags: sp_merge_pairs(seq![], pairs, 0) },
        ) =~= states.push(
            FileTagStateView { filepath: file, tags: sp_merge_pairs(seq![], pairs, 0) },
        ));
    }
}

/// Fold one matched file of one section into the desired state.
fn add_section_tags(states: &mut Vec<FileTagState>, file: &String, pairs: &Vec<TagPair>)
    ensures
        state_seq_view(final(states)@) == sp_state_upsert(
            state_seq_view(old(states)@),
            file@,
            tag_seq_view(pairs@),
        ),
{
    let ghost orig = state_seq_view(states@);
    let ghost pairsv = tag_seq_view(pairs@);
    let mut k: usize = 0;
    while k < states.len()
        invariant
            k <= states@.len(),
            orig == state_seq_view(states@),
            orig == state_seq_view(old(states)@),
            orig.len() == states@.len(),
            pairsv == tag_seq_view(pairs@),
            forall|m: int| 0 <= m < k ==> orig[m].filepath != file@,
        decreases states@.len() - k,
    {
        if states[k].filepath == *file {
            proof {
                lemma_state_upsert_at(orig, file@, pairsv, k as int);
            }
            let mut tags = clone_tags(&states[k].tags);
            merge_pairs_into(&mut tags, pairs);
            let ghost before = states@;
            states[k] = FileTagState { filepath: file.clone(), tags };
            proof {
                assert(states@[k as int]@ == (FileTagStateView {
                    filepath: file@,
                    tags: sp_merge_pairs(orig[k as int].tags, pairsv, 0),
                }));
                assert(state_seq_view(states@) =~= orig.update(
                    k as int,
                    FileTagStateView {
                        filepath: file@,
                        tags: sp_merge_pairs(orig[k as int].tags, pairsv, 0),
                    },
                ));
            }
            return ;
        }
        k = k + 1;
    }
    proof {
        lemma_state_upsert_absent(orig, file@, pairsv);
    }
    let mut tags: Vec<TagPair> = Vec::new();
    proof {
        assert(tag_seq_view(tags@) =~= Seq::<TagPairView>::empty());
        assert(Seq::<TagPairView>::empty() =~= seq![]);
    }
    merge_pairs_into(&mut tags, pairs);
    let ghost before = states@;
    states.push(FileTagState { filepath: file.clone(), tags });
    proof {
        assert(states@[before.len() as int]@ == (FileTagStateView {
            filepath: file@,
            tags: sp_merge_pairs(seq![], pairsv, 0),
        }));
        assert(state_seq_view(states@) =~= orig.push(
            FileTagStateView { filepath: file@, tags: sp_merge_pairs(seq![], pairsv, 0) },
        ));
    }
}

proof fn lemma_upsert_ids(tags: Seq<TagPairView>, p: TagPairView)
    ensures
        forall|k: int|
            0 <= k < sp_upsert(tags, p).len() ==> ((#[trigger] sp_upsert(tags, p)[k]).id == p.id
                || exists|m: int| 0 <= m < tags.len() && tags[m].id == sp_upsert(tags, p)[k].id),
    decreases tags.len(),
{
    if tags.len() > 0 && tags[0].id != p.id {
        lemma_upsert_ids(tags.drop_first(), p);
        let up = sp_upsert(tags, p);
        let up_rest = sp_upsert(tags.drop_first(), p);
        assert forall|k: int| 0 <= k < up.len() implies ((#[trigger] up[k]).id == p.id || exists|
            m: int,
        | 0 <= m < tags.len() && tags[m].id == up[k].id) by {
            if k == 0 {
                assert(tags[0].id == up[k].id);
            } else {
                assert(up[k] == up_rest[k - 1]);
                if up_rest[k - 1].id != p.id {
                    let m = choose|m: int|
                        0 <= m < tags.drop_first().len() && tags.drop_first()[m].id == up_rest[k
                            - 1].id;
                    assert(tags[m + 1].id == up[k].id);
                }
            }
        }
    }
}

proof fn lemma_upsert_unique(tags: Seq<TagPairView>, p: TagPairView)
    requires
        sp_unique_ids(tags),
    ensures
        sp_unique_ids(sp_upsert(tags, p)),
    decreases tags.len(),
{
    let up = sp_upsert(tags, p);
    if tags.len() == 0 {
    } else if tags[0].id == p.id {
        assert(forall|m: int|
            0 <= m < tags.drop_first().len() ==> #[trigger] tags.drop_first()[m] == tags[m + 1]);
        assert forall|a: int, b: int| 0 <= a < b < up.len() implies up[a].id != up[b].id by {
            if a == 0 {
                assert(up[b] == tags.drop_first()[b - 1]);
                assert(tags[0].id != tags[b].id);
            } else {
                assert(up[a] == tags[a] && up[b] == tags[b]);
            }
        }
    } else {
        assert(sp_unique_ids(tags.drop_first())) by {
            assert(forall|m: int|
                0 <= m < tags.drop_first().len() ==> #[trigger] tags.drop_first()[m] == tags[m
                    + 1]);
        }
        lemma_upsert_unique(tags.drop_first(), p);
        lemma_upsert_ids(tags.drop_first(), p);
        let up_rest = sp_upsert(tags.drop_first(), p);
        assert forall|a: int, b: int| 0 <= a < b < up.len() implies up[a].id != up[b].id by {
            if a == 0 {
                assert(up[b] == up_rest[b - 1]);
                if up_rest[b - 1].id == p.id {
                    assert(tags[0].id != p.id);
                } else {
                    let m = choose|m: int|
                        0 <= m < tags.drop_first().len() && tags.drop_first()[m].id == up_rest[b
                            - 1].id;
                    assert(tags[0].id != tags[m + 1].id);
                }
            } else {
                assert(up[a] == up_rest[a - 1] && up[b] == up_rest[b - 1]);
            }
        }
    }
}

proof fn lemma_merge_pairs_unique(tags: Seq<TagPairView>, pairs: Seq<TagPairView>, i: int)
    requires
        sp_unique_ids(tags),
    ensures
        sp_unique_ids(sp_merge_pairs(tags, pairs, i)),
    decreases pairs.len() - i,
{
    if 0 <= i < pairs.len() {
        lemma_upsert_unique(tags, pairs[i]);
        lemma_merge_pairs_unique(sp_upsert(tags, pairs[i]), pairs, i + 1);
    }
}

proof fn lemma_state_upsert_tags_unique(
    states: Seq<FileTagStateView>,
    file: Seq<char>,
    pairs: Seq<TagPairView>,
)
    requires
        forall|k: int| 0 <= k < states.len() ==> sp_unique_ids(#[trigger] states[k].tags),
    ensures
        forall|k: int|
            0 <= k < sp_state_upsert(states, file, pairs).len() ==> sp_unique_ids(
                (#[trigger] sp_state_upsert(states, file, pairs)[k]).tags,
            ),
    decreases states.len(),
{
    let up = sp_state_upsert(states, file, pairs);
    if states.len() == 0 {
        assert(sp_unique_ids(Seq::<TagPairView>::empty()));
        lemma_merge_pairs_unique(seq![], pairs, 0);
        assert(up[0].tags == sp_merge_pairs(seq![], pairs, 0));
    } else if states[0].filepath == file {
        lemma_merge_pairs_unique(states[0].tags, pairs, 0);
        assert forall|k: int| 0 <= k < up.len() implies sp_unique_ids(
            (#[trigger] up[k]).tags,
        ) by {
            if k > 0 {
                assert(up[k] == states[k]);
            }
        }
    } else {
        assert(forall|m: int|
            0 <= m < states.drop_first().len() ==> #[trigger] states.drop_first()[m] == states[m
                + 1]);
        lemma_state_upsert_tags_unique(states.drop_first(), file, pairs);
        let up_rest = sp_state_upsert(states.drop_first(), file, pairs);
        assert forall|k: int| 0 <= k < up.len() implies sp_unique_ids(
            (#[trigger] up[k]).tags,
        ) by {
            if k == 0 {
                assert(up[0] == states[0]);
            } else {
                assert(up[k] == up_rest[k - 1]);
            }
        }
    }
}

proof fn lemma_merge_files_tags_unique(
    states: Seq<FileTagStateView>,
    files: Seq<Seq<char>>,
    pairs: Seq<TagPairView>,
    j: int,
)
    requires
        forall|k: int| 0 <= k < states.len() ==> sp_unique_ids(#[trigger] states[k].tags),
    ensures
        forall|k: int|
            0 <= k < sp_merge_files(states, files, pairs, j).len() ==> sp_unique_ids(
                (#[trigger] sp_merge_files(states, files, pairs, j)[k]).tags,
            ),
    decreases files.len() - j,
{
    if 0 <= j < files.len() {
        lemma_state_upsert_tags_unique(states, files[j], pairs);
        let up = sp_state_upsert(states, files[j], pairs);
        lemma_merge_files_tags_unique(up, files, pairs, j + 1);
        let merged = sp_merge_files(states, files, pairs, j);
        assert(merged == sp_merge_files(up, files, pairs, j + 1));
        assert forall|k: int| 0 <= k < merged.len() implies sp_unique_ids(
            (#[trigger] merged[k]).tags,
        ) by {
            assert(merged[k] == sp_merge_files(up, files, pairs, j + 1)[k]);
        }
    }
}

proof fn lemma_merge_tags_unique(
    states: Seq<FileTagStateView>,
    sections: Seq<SectionView>,
    files: Seq<Seq<Seq<char>>>,
    i: int,
)
    requires
        forall|k: int| 0 <= k < states.len() ==> sp_unique_ids(#[trigger] states[k].tags),
    ensures
        forall|k: int|
            0 <= k < sp_merge(states, sections, files, i).len() ==> sp_unique_ids(
                (#[trigger] sp_merge(states, sections, files, i)[k]).tags,
            ),
    decreases sections.len() - i,
{
    if 0 <= i < sections.len() {
        lemma_merge_files_tags_unique(states, files[i], sections[i].tag_set, 0);
        let up = sp_merge_files(states, files[i], sections[i].tag_set, 0);
        lemma_merge_tags_unique(up, sections, files, i + 1);
        let merged = sp_merge(states, sections, files, i);
        assert(merged == sp_merge(up, sections, files, i + 1));
        assert forall|k: int| 0 <= k < merged.len() implies sp_unique_ids(
            (#[trigger] merged[k]).tags,
        ) by {
            assert(merged[k] == sp_merge(up, sections, files, i + 1)[k]);
        }
    }
}

/// The merge invariant: however sections overlap and conflict, every
/// desired file state handed to the diff engine carries at most one
/// assignment per identifier.
pub proof fn lemma_desired_states_unique(sections: Seq<SectionView>, files: Seq<Seq<Seq<char>>>)
    ensures
        forall|k: int|
            0 <= k < sp_desired_states(sections, files).len() ==> sp_unique_ids(
                (#[trigger] sp_desired_states(sections, files)[k]).tags,
            ),
{
    lemma_merge_tags_unique(seq![], sections, files, 0);
}

/// Whether an assignment stands, by full value, in every one of the other
/// tag sets.
pub open spec fn sp_in_all(sets: Seq<Seq<TagPairView>>, p: TagPairView) -> bool {
    forall|k: int| 1 <= k < sets.len() ==> (#[trigger] sets[k]).contains(p)
}

pub open spec fn sp_shared_from(sets: Seq<Seq<TagPairView>>, i: int) -> Seq<TagPairView>
    decreases sets[0].len() - i,
{
    if sets.len() == 0 || i < 0 || i >= sets[0].len() {
        seq![]
    } else {
        let rest = sp_shared_from(sets, i + 1);
        if sp_in_all(sets, sets[0][i]) {
            seq![sets[0][i]] + rest
        } else {
            rest
        }
    }
}

/// The assignments every listed file shares: those of the first set that
/// stand, by full value, in all the others. Empty when there are no sets.
pub open spec fn sp_shared_tags(sets: Seq<Seq<TagPairView>>) -> Seq<TagPairView> {
    sp_shared_from(sets, 0)
}

pub open spec fn tag_sets_view(sets: Seq<Vec<TagPair>>) -> Seq<Seq<TagPairView>> {
    sets.map_values(|v: Vec<TagPair>| tag_seq_view(v@))
}

fn set_contains_pair(set: &Vec<TagPair>, p: &TagPair) -> (r: bool)
    ensures
        r == tag_seq_view(set@).contains(p@),
{
    let mut k: usize = 0;
    while k < set.len()
        invariant
            k <= set@.len(),
            forall|m: int| 0 <= m < k ==> tag_seq_view(set@)[m] != p@,
        decreases set@.len() - k,
    {
        if &set[k] == p {
            proof {
                assert(tag_seq_view(set@)[k as int] == p@);
            }
            return true;
        }
        k = k + 1;
    }
    proof {
        assert(forall|m: int| 0 <= m < set@.len() ==> tag_seq_view(set@)[m] != p@);
    }
    false
}

fn in_all_sets(tag_sets: &Vec<Vec<TagPair>>, p: &TagPair) -> (r: bool)
    ensures
        r == sp_in_all(tag_sets_view(tag_sets@), p@),
{
    let ghost sets = tag_sets_view(tag_sets@);
    let mut k: usize = 1;
    while k < tag_sets.len()
        invariant
            1 <= k,
            k <= tag_sets@.len() || k == 1,
            sets == tag_sets_view(tag_sets@),
            sets.len() == tag_sets@.len(),
            forall|m: int| 1 <= m < k ==> (#[trigger] sets[m]).contains(p@),
        decreases tag_sets@.len() - k,
    {
        if !set_contains_pair(&tag_sets[k], p) {
            proof {
                assert(sets[k as int] == tag_seq_view(tag_sets@[k as int]@));
                assert(!sets[k as int].contains(p@));
            }
            return false;
        }
        proof {
            assert(sets[k as int] == tag_seq_view(tag_sets@[k as int]@));
        }
        k = k + 1;
    }
    true
}

/// The tags every listed file shares: the first file's tags filtered to
/// those that every other file also carries, value and all. With no
/// files at all, nothing is shared.
pub fn construct_shared_tags(tag_sets: &Vec<Vec<TagPair>>) -> (r: Vec<TagPair>)
    ensures
        tag_seq_view(r@) == sp_shared_tags(tag_sets_view(tag_sets@)),
{
    let ghost sets = tag_sets_view(tag_sets@);
    let mut r: Vec<TagPair> = Vec::new();
    if tag_sets.len() == 0 {
        proof {
            assert(tag_seq_view(r@) =~= sp_shared_tags(sets));
        }
        return r;
    }
    let first = &tag_sets[0];
    proof {
        assert(sets[0] == tag_seq_view(tag_sets@[0]@));
    }
    let mut k: usize = 0;
    while k < first.len()
        invariant
            k <= first@.len(),
            tag_sets@.len() > 0,
            first@ == tag_sets@[0]@,
            sets == tag_sets_view(tag_sets@),
            sets[0] == tag_seq_view(first@),
            sets[0].len() == first@.len(),
            sp_shared_tags(sets) == tag_seq_view(r@) + sp_shared_from(sets, k as int),
        decreases first@.len() - k,
    {
        let p = &first[k];
        let ghost old_r = r@;
        if in_all_sets(tag_sets, p) {
            r.push(p.clone());
            proof {
                assert(tag_seq_view(r@) =~= tag_seq_view(old_r).push(sets[0][k as int]));
                assert(tag_seq_view(old_r) + (seq![sets[0][k as int]] + sp_shared_from(
                    sets,
                    k as int + 1,
                )) =~= tag_seq_view(r@) + sp_shared_from(sets, k as int + 1));
            }
        } else {
            proof {
                assert(sets[0][k as int] == p@);
            }
        }
        k = k + 1;
    }
    proof {
        assert(tag_seq_view(r@) + sp_shared_from(sets, k as int) =~= tag_seq_view(r@));
    }
    r
}

pub open spec fn sp_difference_from(
    tags: Seq<TagPairView>,
    others: Seq<TagPairView>,
    i: int,
) -> Seq<TagPairView>
    decreases tags.len() - i,
{
    if i < 0 || i >= tags.len() {
        seq![]
    } else {
        let rest = sp_difference_from(tags, others, i + 1);
        if !others.contains(tags[i]) {
            seq![tags[i]] + rest
        } else {
            rest
        }
    }
}

/// The assignments of `tags` that do not stand, by full value, in
/// `others`; the listing command shows these per file, against the shared
/// set.
pub open spec fn sp_tags_difference(tags: Seq<TagPairView>, others: Seq<TagPairView>) -> Seq<
    TagPairView,
> {
    sp_difference_from(tags, others, 0)
}

/// The assignments of `tags` that `others` does not carry, in order.
pub fn tags_difference(tags: &Vec<TagPair>, others: &Vec<TagPair>) -> (r: Vec<TagPair>)
    ensures
        tag_seq_view(r@) == sp_tags_difference(tag_seq_view(tags@), tag_seq_view(others@)),
{
    let ghost tagsv = tag_seq_view(tags@);
    let ghost othersv = tag_seq_view(others@);
    let mut r: Vec<TagPair> = Vec::new();
    let mut k: usize = 0;
    while k < tags.len()
        invariant
            k <= tags@.len(),
            tagsv == tag_seq_view(tags@),
            othersv == tag_seq_view(others@),
            tagsv.len() == tags@.len(),
            sp_tags_difference(tagsv, othersv) == tag_seq_view(r@) + sp_difference_from(
                tagsv,
                othersv,
                k as int,
            ),
        decreases tags@.len() - k,
    {
        let p = &tags[k];
        let ghost old_r = r@;
        if !set_contains_pair(others, p) {
            r.push(p.clone());
            proof {
                assert(tag_seq_view(r@) =~= tag_seq_view(old_r).push(tagsv[k as int]));
                assert(tag_seq_view(old_r) + (seq![tagsv[k as int]] + sp_difference_from(
                    tagsv,
                    othersv,
                    k as int + 1,
                )) =~= tag_seq_view(r@) + sp_difference_from(tagsv, othersv, k as int + 1));
            }
        } else {
            proof {
                assert(tagsv[k as int] == p@);
            }
        }
        k = k + 1;
    }
    proof {
        assert(tag_seq_view(r@) + sp_difference_from(tagsv, othersv, k as int) =~= tag_seq_view(
            r@,
        ));
    }
    r
}

} // verus!
