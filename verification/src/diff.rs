//! The diff engine: identifier-keyed comparison of a desired against a
//! current tag state, honoring a preserve list.
//!
//! For every identifier in the desired set, a differing current value
//! yields a Modify, a missing one an Add, an equal one nothing. For every
//! identifier only in the current set, a Delete — unless preserved. All
//! Add/Modify operations come first, in desired-set order, then all
//! Deletes, in current-set order.

use vstd::prelude::*;

use crate::kiln::{
    diff_seq_view, state_seq_view, Diff, DiffView, FileDiff, FileDiffView, FileTagState,
    FileTagStateView,
};
use crate::tags::{tag_seq_view, TagId, TagPair, TagPairView};

verus! {

pub open spec fn sp_find_from(tags: Seq<TagPairView>, id: TagId, i: int) -> Option<TagPairView>
    decreases tags.len() - i,
{
    if i < 0 || i >= tags.len() {
        None
    } else if tags[i].id == id {
        Some(tags[i])
    } else {
        sp_find_from(tags, id, i + 1)
    }
}

/// The first assignment carrying `id`, if any.
pub open spec fn sp_find_by_id(tags: Seq<TagPairView>, id: TagId) -> Option<TagPairView> {
    sp_find_from(tags, id, 0)
}

pub open spec fn sp_has_id(tags: Seq<TagPairView>, id: TagId) -> bool {
    sp_find_by_id(tags, id) is Some
}

pub open spec fn sp_adds_mods_from(
    news: Seq<TagPairView>,
    olds: Seq<TagPairView>,
    i: int,
) -> Seq<DiffView>
    decreases news.len() - i,
{
    if i < 0 || i >= news.len() {
        seq![]
    } else {
        let head = news[i];
        let rest = sp_adds_mods_from(news, olds, i + 1);
        match sp_find_by_id(olds, head.id) {
            Some(o) => if o.val != head.val {
                seq![DiffView::Modify(o, head)] + rest
            } else {
                rest
            },
            None => seq![DiffView::Add(head)] + rest,
        }
    }
}

/// The Add and Modify operations, one per desired identifier that is
/// missing or differs, in desired-set order.
pub open spec fn sp_adds_mods(news: Seq<TagPairView>, olds: Seq<TagPairView>) -> Seq<DiffView> {
    sp_adds_mods_from(news, olds, 0)
}

pub open spec fn sp_deletes_from(
    olds: Seq<TagPairView>,
    news: Seq<TagPairView>,
    preserved: Seq<TagId>,
    i: int,
) -> Seq<DiffView>
    decreases olds.len() - i,
{
    if i < 0 || i >= olds.len() {
        seq![]
    } else {
        let head = olds[i];
        let rest = sp_deletes_from(olds, news, preserved, i + 1);
        if !sp_has_id(news, head.id) && !preserved.contains(head.id) {
            seq![DiffView::Delete(head)] + rest
        } else {
            rest
        }
    }
}

/// The Delete operations, one per unpreserved current identifier absent
/// from the desired set, in current-set order.
pub open spec fn sp_deletes(
    olds: Seq<TagPairView>,
    news: Seq<TagPairView>,
    preserved: Seq<TagId>,
) -> Seq<DiffView> {
    sp_deletes_from(olds, news, preserved, 0)
}

/// The whole diff of one file: Add/Modify first, then Delete.
pub open spec fn sp_diff(
    news: Seq<TagPairView>,
    olds: Seq<TagPairView>,
    preserved: Seq<TagId>,
) -> Seq<DiffView> {
    sp_adds_mods(news, olds) + sp_deletes(olds, news, preserved)
}

/// The first assignment in `vec` carrying `id`, if any.
pub fn find_tag_by_id(vec: &Vec<TagPair>, id: TagId) -> (r: Option<TagPair>)
    ensures
        match r {
            Some(t) => sp_find_by_id(tag_seq_view(vec@), id) == Some(t@),
            None => sp_find_by_id(tag_seq_view(vec@), id) is None,
        },
{
    let ghost tags = tag_seq_view(vec@);
    let mut k: usize = 0;
    while k < vec.len()
        invariant
            k <= vec@.len(),
            tags == tag_seq_view(vec@),
            tags.len() == vec@.len(),
            sp_find_by_id(tags, id) == sp_find_from(tags, id, k as int),
        decreases vec@.len() - k,
    {
        if vec[k].id == id {
            return Some(vec[k].clone());
        }
        k = k + 1;
    }
    None
}

fn contains_id(preserved: &Vec<TagId>, id: TagId) -> (r: bool)
    ensures
        r == preserved@.contains(id),
{
    let mut k: usize = 0;
    while k < preserved.len()
        invariant
            k <= preserved@.len(),
            forall|m: int| 0 <= m < k ==> preserved@[m] != id,
        decreases preserved@.len() - k,
    {
        if preserved[k] == id {
            return true;
        }
        k = k + 1;
    }
    false
}

/// Diff one file: desired against current under the preserve list.
pub fn diff_tag_sets(new_set: &Vec<TagPair>, old_set: &Vec<TagPair>, preserved_tags: &Vec<TagId>)
    -> (d: Vec<Diff>)
    ensures
        diff_seq_view(d@) == sp_diff(
            tag_seq_view(new_set@),
            tag_seq_view(old_set@),
            preserved_tags@,
        ),
{
    let ghost news = tag_seq_view(new_set@);
    let ghost olds = tag_seq_view(old_set@);
    let mut d: Vec<Diff> = Vec::new();
    let mut k: usize = 0;
    while k < new_set.len()
        invariant
            k <= new_set@.len(),
            news == tag_seq_view(new_set@),
            olds == tag_seq_view(old_set@),
            news.len() == new_set@.len(),
            sp_adds_mods(news, olds) == diff_seq_view(d@) + sp_adds_mods_from(
                news,
                olds,
                k as int,
            ),
        decreases new_set@.len() - k,
    {
        let new_tag = &new_set[k];
        let ghost old_d = d@;
        match find_tag_by_id(old_set, new_tag.id) {
            Some(old_tag) => {
                if old_tag.val != new_tag.val {
                    d.push(Diff::Modify(old_tag, new_tag.clone()));
                    proof {
                        assert(diff_seq_view(d@) =~= diff_seq_view(old_d).push(
                            DiffView::Modify(old_tag@, news[k as int]),
                        ));
                    }
                }
            },
            None => {
                d.push(Diff::Add(new_tag.clone()));
                proof {
                    assert(diff_seq_view(d@) =~= diff_seq_view(old_d).push(
                        DiffView::Add(news[k as int]),
                    ));
                }
            },
        }
        proof {
            assert(diff_seq_view(old_d) + sp_adds_mods_from(news, olds, k as int)
                =~= diff_seq_view(d@) + sp_adds_mods_from(news, olds, k as int + 1));
        }
        k = k + 1;
    }
    proof {
        assert(diff_seq_view(d@) + sp_adds_mods_from(news, olds, k as int) =~= diff_seq_view(
            d@,
        ));
        assert(diff_seq_view(d@) == sp_adds_mods(news, olds));
    }
    let ghost adds = diff_seq_view(d@);
    let mut k2: usize = 0;
    while k2 < old_set.len()
        invariant
            k2 <= old_set@.len(),
            news == tag_seq_view(new_set@),
            olds == tag_seq_view(old_set@),
            olds.len() == old_set@.len(),
            adds == sp_adds_mods(news, olds),
            adds + sp_deletes(olds, news, preserved_tags@) == diff_seq_view(d@)
                + sp_deletes_from(olds, news, preserved_tags@, k2 as int),
        decreases old_set@.len() - k2,
    {
        let old_tag = &old_set[k2];
        let ghost old_d = d@;
        let mut skip = contains_id(preserved_tags, old_tag.id);
        if !skip {
            match find_tag_by_id(new_set, old_tag.id) {
                Some(_) => {
                    skip = true;
                },
                None => {
                },
            }
        }
        if !skip {
            d.push(Diff::Delete(old_tag.clone()));
            proof {
                assert(diff_seq_view(d@) =~= diff_seq_view(old_d).push(
                    DiffView::Delete(olds[k2 as int]),
                ));
            }
        }
        proof {
            assert(diff_seq_view(old_d) + sp_deletes_from(olds, news, preserved_tags@, k2 as int)
                =~= diff_seq_view(d@) + sp_deletes_from(
                olds,
                news,
                preserved_tags@,
                k2 as int + 1,
            ));
        }
        k2 = k2 + 1;
    }
    proof {
        assert(diff_seq_view(d@) + sp_deletes_from(olds, news, preserved_tags@, k2 as int)
            =~= diff_seq_view(d@));
    }
    d
}

/// The current tags of `file` in a current-state listing: the first entry
/// for that file, or nothing at all.
pub open spec fn sp_lookup_from(
    states: Seq<FileTagStateView>,
    file: Seq<char>,
    i: int,
) -> Seq<TagPairView>
    decreases states.len() - i,
{
    if i < 0 || i >= states.len() {
        seq![]
    } else if states[i].filepath == file {
        states[i].tags
    } else {
        sp_lookup_from(states, file, i + 1)
    }
}

pub open spec fn sp_lookup_tags(states: Seq<FileTagStateView>, file: Seq<char>) -> Seq<
    TagPairView,
> {
    sp_lookup_from(states, file, 0)
}

/// The diff of a whole run: one entry per desired file, in order, each
/// diffed against that file's current tags (or nothing, for an untagged
/// file).
pub open spec fn sp_calculate_diff(
    desired: Seq<FileTagStateView>,
    current: Seq<FileTagStateView>,
    preserved: Seq<TagId>,
) -> Seq<FileDiffView> {
    desired.map_values(
        |d: FileTagStateView|
            FileDiffView {
                filepath: d.filepath,
                diffs: sp_diff(d.tags, sp_lookup_tags(current, d.filepath), preserved),
            },
    )
}

pub open spec fn file_diff_seq_view(diffs: Seq<FileDiff>) -> Seq<FileDiffView> {
    diffs.map_values(|d: FileDiff| d@)
}

fn lookup_current<'a>(current: &'a Vec<FileTagState>, file: &String, empty: &'a Vec<TagPair>)
    -> (r: &'a Vec<TagPair>)
    requires
        empty@.len() == 0,
    ensures
        tag_seq_view(r@) == sp_lookup_tags(state_seq_view(current@), file@),
{
    let ghost states = state_seq_view(current@);
    let mut k: usize = 0;
    while k < current.len()
        invariant
            k <= current@.len(),
            states == state_seq_view(current@),
            states.len() == current@.len(),
            sp_lookup_tags(states, file@) == sp_lookup_from(states, file@, k as int),
        decreases current@.len() - k,
    {
        if current[k].filepath == *file {
            return &current[k].tags;
        }
        k = k + 1;
    }
    proof {
        assert(tag_seq_view(empty@) =~= Seq::<TagPairView>::empty());
    }
    empty
}

/// Compute every file's diff from the desired and current states and the
/// preserve list. Pure: the result is a function of the three inputs.
pub fn calculate_diff(
    desired: &Vec<FileTagState>,
    current: &Vec<FileTagState>,
    preserved_tags: &Vec<TagId>,
) -> (r: Vec<FileDiff>)
    ensures
        file_diff_seq_view(r@) == sp_calculate_diff(
            state_seq_view(desired@),
            state_seq_view(current@),
            preserved_tags@,
        ),
{
    let ghost dstates = state_seq_view(desired@);
    let ghost cstates = state_seq_view(current@);
    let empty: Vec<TagPair> = Vec::new();
    let mut r: Vec<FileDiff> = Vec::new();
    let mut k: usize = 0;
    while k < desired.len()
        invariant
            k <= desired@.len(),
            dstates == state_seq_view(desired@),
            cstates == state_seq_view(current@),
            dstates.len() == desired@.len(),
            empty@.len() == 0,
            r@.len() == k,
            file_diff_seq_view(r@) =~= sp_calculate_diff(
                dstates,
                cstates,
                preserved_tags@,
            ).subrange(0, k as int),
        decreases desired@.len() - k,
    {
        let d = &desired[k];
        let cur = lookup_current(current, &d.filepath, &empty);
        let ops = diff_tag_sets(&d.tags, cur, preserved_tags);
        let ghost old_r = r@;
        r.push(FileDiff { filepath: d.filepath.clone(), diffs: ops });
        proof {
            let full = sp_calculate_diff(dstates, cstates, preserved_tags@);
            assert(dstates[k as int] == desired@[k as int]@);
            assert(full[k as int] == (FileDiffView {
                filepath: dstates[k as int].filepath,
                diffs: sp_diff(
                    dstates[k as int].tags,
                    sp_lookup_tags(cstates, dstates[k as int].filepath),
                    preserved_tags@,
                ),
            }));
            assert(r@.len() == k + 1);
            assert(r@[k as int].filepath@ == dstates[k as int].filepath);
            assert(diff_seq_view(r@[k as int].diffs@) == sp_diff(
                dstates[k as int].tags,
                sp_lookup_tags(cstates, dstates[k as int].filepath),
                preserved_tags@,
            ));
            assert(r@[k as int]@ == full[k as int]);
            assert(file_diff_seq_view(r@) =~= full.subrange(0, k as int + 1));
        }
        k = k + 1;
    }
    proof {
        assert(sp_calculate_diff(dstates, cstates, preserved_tags@).subrange(
            0,
            dstates.len() as int,
        ) =~= sp_calculate_diff(dstates, cstates, preserved_tags@));
    }
    r
}

/// A tag list with the assignments carrying `id` removed: what writing an
/// operation for `id` does to a store before putting its own value in.
pub open spec fn sp_remove_id(tags: Seq<TagPairView>, id: TagId) -> Seq<TagPairView>
    decreases tags.len(),
{
    if tags.len() == 0 {
        seq![]
    } else if tags[0].id != id {
        seq![tags[0]] + sp_remove_id(tags.drop_first(), id)
    } else {
        sp_remove_id(tags.drop_first(), id)
    }
}

/// What one operation does to a file's stored tags: Add and Modify replace
/// whatever carries the identifier and append the new value; Delete removes
/// whatever carries it.
pub open spec fn sp_apply_one(cur: Seq<TagPairView>, op: DiffView) -> Seq<TagPairView> {
    match op {
        DiffView::Add(p) => sp_remove_id(cur, p.id).push(p),
        DiffView::Modify(o, p) => sp_remove_id(cur, p.id).push(p),
        DiffView::Delete(p) => sp_remove_id(cur, p.id),
    }
}

/// A whole operation list applied in order.
pub open spec fn sp_apply(cur: Seq<TagPairView>, ops: Seq<DiffView>) -> Seq<TagPairView>
    decreases ops.len(),
{
    if ops.len() == 0 {
        cur
    } else {
        sp_apply(sp_apply_one(cur, ops[0]), ops.drop_first())
    }
}

fn remove_id_exec(tags: &Vec<TagPair>, id: TagId) -> (r: Vec<TagPair>)
    ensures
        tag_seq_view(r@) == sp_remove_id(tag_seq_view(tags@), id),
{
    let ghost full = tag_seq_view(tags@);
    let mut r: Vec<TagPair> = Vec::new();
    let mut k: usize = 0;
    proof {
        assert(full.skip(0) =~= full);
        assert(tag_seq_view(r@) + Seq::<TagPairView>::empty() =~= tag_seq_view(r@));
    }
    while k < tags.len()
        invariant
            k <= tags@.len(),
            full == tag_seq_view(tags@),
            full.len() == tags@.len(),
            sp_remove_id(full, id) == tag_seq_view(r@) + sp_remove_id(full.skip(k as int), id),
        decreases tags@.len() - k,
    {
        let ghost old_r = r@;
        proof {
            assert(full.skip(k as int).drop_first() =~= full.skip(k as int + 1));
            assert(full.skip(k as int)[0] == full[k as int]);
        }
        if tags[k].id != id {
            r.push(tags[k].clone());
            proof {
                assert(tag_seq_view(r@) =~= tag_seq_view(old_r).push(full[k as int]));
                assert(tag_seq_view(old_r) + (seq![full[k as int]] + sp_remove_id(
                    full.skip(k as int + 1),
                    id,
                )) =~= tag_seq_view(r@) + sp_remove_id(full.skip(k as int + 1), id));
            }
        }
        k = k + 1;
    }
    proof {
        assert(full.skip(k as int) =~= Seq::<TagPairView>::empty());
        assert(tag_seq_view(r@) + sp_remove_id(full.skip(k as int), id) =~= tag_seq_view(r@));
    }
    r
}

/// Apply an operation list to a file's current tags, as the store commit
/// does: Add and Modify put the new value in place of anything carrying
/// its identifier, Delete takes it out.
pub fn apply_diff(current: &Vec<TagPair>, ops: &Vec<Diff>) -> (r: Vec<TagPair>)
    ensures
        tag_seq_view(r@) == sp_apply(tag_seq_view(current@), diff_seq_view(ops@)),
{
    let ghost cur0 = tag_seq_view(current@);
    let ghost opsv = diff_seq_view(ops@);
    let mut r: Vec<TagPair> = Vec::new();
    let mut k0: usize = 0;
    while k0 < current.len()
        invariant
            k0 <= current@.len(),
            r@.len() == k0,
            tag_seq_view(r@) =~= tag_seq_view(current@).subrange(0, k0 as int),
        decreases current@.len() - k0,
    {
        let ghost old_r = r@;
        r.push(current[k0].clone());
        proof {
            assert(r@[k0 as int]@ == current@[k0 as int]@);
            assert(forall|m: int| 0 <= m < k0 ==> r@[m] == old_r[m]);
            assert(tag_seq_view(r@) =~= tag_seq_view(current@).subrange(0, k0 as int + 1));
        }
        k0 = k0 + 1;
    }
    proof {
        assert(tag_seq_view(current@).subrange(0, current@.len() as int) =~= cur0);
        assert(opsv.skip(0) =~= opsv);
    }
    let mut k: usize = 0;
    while k < ops.len()
        invariant
            k <= ops@.len(),
            cur0 == tag_seq_view(current@),
            opsv == diff_seq_view(ops@),
            opsv.len() == ops@.len(),
            sp_apply(cur0, opsv) == sp_apply(tag_seq_view(r@), opsv.skip(k as int)),
        decreases ops@.len() - k,
    {
        proof {
            assert(opsv.skip(k as int).drop_first() =~= opsv.skip(k as int + 1));
            assert(opsv.skip(k as int)[0] == opsv[k as int]);
        }
        let op = &ops[k];
        match op {
            Diff::Add(p) => {
                let mut next = remove_id_exec(&r, p.id);
                next.push(p.clone());
                proof {
                    assert(tag_seq_view(next@) =~= sp_apply_one(
                        tag_seq_view(r@),
                        opsv[k as int],
                    ));
                }
                r = next;
            },
            Diff::Modify(_, p) => {
                let mut next = remove_id_exec(&r, p.id);
                next.push(p.clone());
                proof {
                    assert(tag_seq_view(next@) =~= sp_apply_one(
                        tag_seq_view(r@),
                        opsv[k as int],
                    ));
                }
                r = next;
            },
            Diff::Delete(p) => {
                let next = remove_id_exec(&r, p.id);
                proof {
                    assert(tag_seq_view(next@) =~= sp_apply_one(
                        tag_seq_view(r@),
                        opsv[k as int],
                    ));
                }
                r = next;
            },
        }
        k = k + 1;
    }
    proof {
        assert(opsv.skip(k as int) =~= Seq::<DiffView>::empty());
    }
    r
}

/// The identifier an operation concerns.
pub open spec fn sp_op_id(op: DiffView) -> TagId {
    match op {
        DiffView::Add(p) => p.id,
        DiffView::Delete(p) => p.id,
        DiffView::Modify(o, n) => n.id,
    }
}

/// The operations of a list that concern `id`, in order.
pub open spec fn sp_ops_for_id(ops: Seq<DiffView>, id: TagId) -> Seq<DiffView>
    decreases ops.len(),
{
    if ops.len() == 0 {
        seq![]
    } else if sp_op_id(ops[0]) == id {
        seq![ops[0]] + sp_ops_for_id(ops.drop_first(), id)
    } else {
        sp_ops_for_id(ops.drop_first(), id)
    }
}

/// At most one assignment per identifier: the shape a desired tag state
/// must have when it reaches the diff engine.
pub open spec fn sp_unique_ids(tags: Seq<TagPairView>) -> bool {
    forall|a: int, b: int| 0 <= a < b < tags.len() ==> tags[a].id != tags[b].id
}

proof fn lemma_find_from_props(tags: Seq<TagPairView>, id: TagId, i: int)
    requires
        0 <= i <= tags.len(),
    ensures
        match sp_find_from(tags, id, i) {
            Some(p) => p.id == id && exists|k: int| i <= k < tags.len() && tags[k] == p,
            None => forall|k: int| i <= k < tags.len() ==> tags[k].id != id,
        },
    decreases tags.len() - i,
{
    if i < tags.len() {
        if tags[i].id == id {
            assert(i <= i < tags.len() && tags[i] == sp_find_from(tags, id, i)->Some_0);
        } else {
            lemma_find_from_props(tags, id, i + 1);
            match sp_find_from(tags, id, i + 1) {
                Some(p) => {
                    let k = choose|k: int| i + 1 <= k < tags.len() && tags[k] == p;
                    assert(i <= k < tags.len() && tags[k] == p);
                },
                None => {},
            }
        }
    }
}

/// In a unique-id list, an assignment's identifier finds exactly that
/// assignment.
proof fn lemma_find_unique(tags: Seq<TagPairView>, id: TagId, k: int)
    requires
        sp_unique_ids(tags),
        0 <= k < tags.len(),
        tags[k].id == id,
    ensures
        sp_find_by_id(tags, id) == Some(tags[k]),
{
    lemma_find_from_props(tags, id, 0);
    match sp_find_by_id(tags, id) {
        Some(p) => {
            let w = choose|w: int| 0 <= w < tags.len() && tags[w] == p;
            assert(tags[w].id == id);
            if w < k {
                assert(tags[w].id != tags[k].id);
                assert(false);
            } else if k < w {
                assert(tags[k].id != tags[w].id);
                assert(false);
            }
        },
        None => {
            assert(tags[k].id != id);
            assert(false);
        },
    }
}

proof fn lemma_ops_for_id_add(a: Seq<DiffView>, b: Seq<DiffView>, id: TagId)
    ensures
        sp_ops_for_id(a + b, id) == sp_ops_for_id(a, id) + sp_ops_for_id(b, id),
    decreases a.len(),
{
    if a.len() == 0 {
        assert(a + b =~= b);
        assert(sp_ops_for_id(a, id) + sp_ops_for_id(b, id) =~= sp_ops_for_id(b, id));
    } else {
        lemma_ops_for_id_add(a.drop_first(), b, id);
        assert((a + b).drop_first() =~= a.drop_first() + b);
        assert((a + b)[0] == a[0]);
        assert((a + b).len() > 0);
        if sp_op_id(a[0]) == id {
            assert(seq![a[0]] + (sp_ops_for_id(a.drop_first(), id) + sp_ops_for_id(b, id))
                =~= (seq![a[0]] + sp_ops_for_id(a.drop_first(), id)) + sp_ops_for_id(b, id));
        }
    }
}

proof fn lemma_ops_for_id_single(op: DiffView, id: TagId)
    ensures
        sp_op_id(op) == id ==> sp_ops_for_id(seq![op], id) == seq![op],
        sp_op_id(op) != id ==> sp_ops_for_id(seq![op], id) == Seq::<DiffView>::empty(),
{
    assert(seq![op].drop_first() =~= Seq::<DiffView>::empty());
    assert(sp_ops_for_id(Seq::<DiffView>::empty(), id) == Seq::<DiffView>::empty());
    assert(seq![op].len() == 1 && seq![op][0] == op);
    if sp_op_id(op) == id {
        assert(seq![op] + Seq::<DiffView>::empty() =~= seq![op]);
    }
}

proof fn lemma_find_from_none(tags: Seq<TagPairView>, id: TagId, i: int)
    requires
        0 <= i <= tags.len(),
        forall|k: int| i <= k < tags.len() ==> tags[k].id != id,
    ensures
        sp_find_from(tags, id, i) is None,
    decreases tags.len() - i,
{
    if i < tags.len() {
        lemma_find_from_none(tags, id, i + 1);
    }
}

/// Which operations of the Add/Modify half concern `id`: exactly one for a
/// desired identifier that is missing from or differs in the current set,
/// none otherwise. Needs the desired set free of duplicate identifiers.
proof fn lemma_adds_mods_filter(
    news: Seq<TagPairView>,
    olds: Seq<TagPairView>,
    id: TagId,
    i: int,
)
    requires
        0 <= i <= news.len(),
        sp_unique_ids(news),
    ensures
        sp_ops_for_id(sp_adds_mods_from(news, olds, i), id) == (match sp_find_from(
            news,
            id,
            i,
        ) {
            Some(n) => match sp_find_by_id(olds, id) {
                Some(o) => if o.val != n.val {
                    seq![DiffView::Modify(o, n)]
                } else {
                    seq![]
                },
                None => seq![DiffView::Add(n)],
            },
            None => seq![],
        }),
    decreases news.len() - i,
{
    if i < news.len() {
        lemma_adds_mods_filter(news, olds, id, i + 1);
        let head = news[i];
        let rest = sp_adds_mods_from(news, olds, i + 1);
        if head.id == id {
            assert(forall|k: int| i + 1 <= k < news.len() ==> news[k].id != id);
            lemma_find_from_none(news, id, i + 1);
            assert(sp_ops_for_id(rest, id) == Seq::<DiffView>::empty());
            match sp_find_by_id(olds, head.id) {
                Some(o) => {
                    if o.val != head.val {
                        let op = DiffView::Modify(o, head);
                        lemma_ops_for_id_add(seq![op], rest, id);
                        lemma_ops_for_id_single(op, id);
                        assert(seq![op] + Seq::<DiffView>::empty() =~= seq![op]);
                    }
                },
                None => {
                    let op = DiffView::Add(head);
                    lemma_ops_for_id_add(seq![op], rest, id);
                    lemma_ops_for_id_single(op, id);
                    assert(seq![op] + Seq::<DiffView>::empty() =~= seq![op]);
                },
            }
        } else {
            match sp_find_by_id(olds, head.id) {
                Some(o) => {
                    if o.val != head.val {
                        let op = DiffView::Modify(o, head);
                        lemma_ops_for_id_add(seq![op], rest, id);
                        lemma_ops_for_id_single(op, id);
                        assert(Seq::<DiffView>::empty() + sp_ops_for_id(rest, id)
                            =~= sp_ops_for_id(rest, id));
                    }
                },
                None => {
                    let op = DiffView::Add(head);
                    lemma_ops_for_id_add(seq![op], rest, id);
                    lemma_ops_for_id_single(op, id);
                    assert(Seq::<DiffView>::empty() + sp_ops_for_id(rest, id) =~= sp_ops_for_id(
                        rest,
                        id,
                    ));
                },
            }
        }
    }
}

/// Which operations of the Delete half concern `id`: one Delete per
/// current entry carrying it, when it is neither desired nor preserved,
/// and none otherwise.
proof fn lemma_deletes_filter(
    olds: Seq<TagPairView>,
    news: Seq<TagPairView>,
    preserved: Seq<TagId>,
    id: TagId,
    i: int,
)
    requires
        0 <= i <= olds.len(),
    ensures
        sp_ops_for_id(sp_deletes_from(olds, news, preserved, i), id) == (if !sp_has_id(news, id)
            && !preserved.contains(id) {
            sp_entries_from(olds, id, i).map_values(|p: TagPairView| DiffView::Delete(p))
        } else {
            Seq::<DiffView>::empty()
        }),
    decreases olds.len() - i,
{
    if i >= olds.len() {
        assert(sp_entries_from(olds, id, i).map_values(|p: TagPairView| DiffView::Delete(p))
            =~= Seq::<DiffView>::empty());
    } else {
        lemma_deletes_filter(olds, news, preserved, id, i + 1);
        let head = olds[i];
        let rest = sp_deletes_from(olds, news, preserved, i + 1);
        let restm = sp_entries_from(olds, id, i + 1).map_values(
            |p: TagPairView| DiffView::Delete(p),
        );
        if !sp_has_id(news, head.id) && !preserved.contains(head.id) {
            let op = DiffView::Delete(head);
            lemma_ops_for_id_add(seq![op], rest, id);
            lemma_ops_for_id_single(op, id);
            if head.id == id {
                assert(sp_entries_from(olds, id, i).map_values(
                    |p: TagPairView| DiffView::Delete(p),
                ) =~= seq![op] + restm);
            } else {
                assert(Seq::<DiffView>::empty() + sp_ops_for_id(rest, id) =~= sp_ops_for_id(
                    rest,
                    id,
                ));
            }
        } else {
            if head.id == id {
                assert(!sp_has_id(news, id) && !preserved.contains(id) ==> false) by {
                    if !sp_has_id(news, id) && !preserved.contains(id) {
                        assert(!sp_has_id(news, head.id) && !preserved.contains(head.id));
                    }
                }
            }
        }
    }
}

/// The assignments carrying `id` from position `i` on.
pub open spec fn sp_entries_from(tags: Seq<TagPairView>, id: TagId, i: int) -> Seq<TagPairView>
    decreases tags.len() - i,
{
    if i < 0 || i >= tags.len() {
        seq![]
    } else {
        let rest = sp_entries_from(tags, id, i + 1);
        if tags[i].id == id {
            seq![tags[i]] + rest
        } else {
            rest
        }
    }
}

proof fn lemma_entries_from_find(tags: Seq<TagPairView>, id: TagId, i: int)
    requires
        0 <= i <= tags.len(),
    ensures
        match sp_find_from(tags, id, i) {
            Some(p) => sp_entries_from(tags, id, i).len() > 0 && sp_entries_from(tags, id, i)[0]
                == p,
            None => sp_entries_from(tags, id, i) == Seq::<TagPairView>::empty(),
        },
    decreases tags.len() - i,
{
    if i < tags.len() {
        lemma_entries_from_find(tags, id, i + 1);
    }
}

/// Under unique identifiers there is at most one entry per identifier.
proof fn lemma_entries_from_unique(tags: Seq<TagPairView>, id: TagId, i: int)
    requires
        0 <= i <= tags.len(),
        sp_unique_ids(tags),
    ensures
        match sp_find_from(tags, id, i) {
            Some(p) => sp_entries_from(tags, id, i) == seq![p],
            None => sp_entries_from(tags, id, i) == Seq::<TagPairView>::empty(),
        },
    decreases tags.len() - i,
{
    lemma_entries_from_find(tags, id, i);
    if i < tags.len() {
        lemma_entries_from_unique(tags, id, i + 1);
        if tags[i].id == id {
            assert(forall|k: int| i + 1 <= k < tags.len() ==> tags[k].id != id);
            lemma_find_from_none(tags, id, i + 1);
            assert(sp_entries_from(tags, id, i) =~= seq![tags[i]] + Seq::<
                TagPairView,
            >::empty());
            assert(seq![tags[i]] + Seq::<TagPairView>::empty() =~= seq![tags[i]]);
        }
    }
}

/// The assignments carrying `id`, in order.
pub open spec fn sp_entries(tags: Seq<TagPairView>, id: TagId) -> Seq<TagPairView> {
    sp_entries_from(tags, id, 0)
}

proof fn lemma_entries_from_shift(tags: Seq<TagPairView>, id: TagId, i: int)
    requires
        0 <= i,
        tags.len() > 0,
    ensures
        sp_entries_from(tags, id, i + 1) == sp_entries_from(tags.drop_first(), id, i),
    decreases tags.len() - i,
{
    if i + 1 < tags.len() {
        lemma_entries_from_shift(tags, id, i + 1);
        assert(tags.drop_first()[i] == tags[i + 1]);
    }
}

proof fn lemma_entries_single(p: TagPairView, id: TagId)
    ensures
        p.id == id ==> sp_entries(seq![p], id) == seq![p],
        p.id != id ==> sp_entries(seq![p], id) == Seq::<TagPairView>::empty(),
{
    assert(sp_entries_from(seq![p], id, 1) == Seq::<TagPairView>::empty());
    if p.id == id {
        assert(sp_entries(seq![p], id) =~= seq![p]);
    }
}

proof fn lemma_entries_add(x: Seq<TagPairView>, y: Seq<TagPairView>, id: TagId)
    ensures
        sp_entries(x + y, id) == sp_entries(x, id) + sp_entries(y, id),
    decreases x.len(),
{
    if x.len() == 0 {
        assert(x + y =~= y);
        assert(sp_entries(x, id) + sp_entries(y, id) =~= sp_entries(y, id));
    } else {
        lemma_entries_add(x.drop_first(), y, id);
        lemma_entries_from_shift(x + y, id, 0);
        lemma_entries_from_shift(x, id, 0);
        assert((x + y).drop_first() =~= x.drop_first() + y);
        assert((x + y)[0] == x[0]);
        if x[0].id == id {
            assert(seq![x[0]] + (sp_entries(x.drop_first(), id) + sp_entries(y, id))
                =~= (seq![x[0]] + sp_entries(x.drop_first(), id)) + sp_entries(y, id));
        }
    }
}

proof fn lemma_entries_push(s: Seq<TagPairView>, p: TagPairView, id: TagId)
    ensures
        p.id == id ==> sp_entries(s.push(p), id) == sp_entries(s, id).push(p),
        p.id != id ==> sp_entries(s.push(p), id) == sp_entries(s, id),
{
    assert(s.push(p) =~= s + seq![p]);
    lemma_entries_add(s, seq![p], id);
    lemma_entries_single(p, id);
    if p.id == id {
        assert(sp_entries(s, id) + seq![p] =~= sp_entries(s, id).push(p));
    } else {
        assert(sp_entries(s, id) + Seq::<TagPairView>::empty() =~= sp_entries(s, id));
    }
}

/// Every entry for `id` carries `id`.
proof fn lemma_entries_ids(tags: Seq<TagPairView>, id: TagId, i: int)
    requires
        0 <= i,
    ensures
        forall|k: int|
            0 <= k < sp_entries_from(tags, id, i).len() ==> sp_entries_from(tags, id, i)[k].id
                == id,
    decreases tags.len() - i,
{
    if i < tags.len() {
        lemma_entries_ids(tags, id, i + 1);
    }
}

/// Removing all carriers of one identifier leaves a list with none of it,
/// and does not touch any other identifier's entries.
proof fn lemma_entries_remove(cur: Seq<TagPairView>, id2: TagId, id: TagId)
    ensures
        id2 == id ==> sp_entries(sp_remove_id(cur, id2), id) == Seq::<TagPairView>::empty(),
        id2 != id ==> sp_entries(sp_remove_id(cur, id2), id) == sp_entries(cur, id),
    decreases cur.len(),
{
    if cur.len() == 0 {
        assert(sp_entries_from(sp_remove_id(cur, id2), id, 0) == Seq::<TagPairView>::empty());
    } else {
        lemma_entries_remove(cur.drop_first(), id2, id);
        lemma_entries_from_shift(cur, id, 0);
        lemma_entries_single(cur[0], id);
        if cur[0].id != id2 {
            assert(sp_remove_id(cur, id2) == seq![cur[0]] + sp_remove_id(cur.drop_first(), id2));
            lemma_entries_add(seq![cur[0]], sp_remove_id(cur.drop_first(), id2), id);
            if cur[0].id == id {
                assert(sp_entries(cur, id) == seq![cur[0]] + sp_entries(cur.drop_first(), id));
            } else {
                assert(Seq::<TagPairView>::empty() + sp_entries(
                    sp_remove_id(cur.drop_first(), id2),
                    id,
                ) =~= sp_entries(sp_remove_id(cur.drop_first(), id2), id));
                assert(sp_entries(cur, id) == sp_entries(cur.drop_first(), id));
            }
        } else {
            if cur[0].id == id {
                assert(id2 == id);
            } else {
                assert(sp_entries(cur, id) == sp_entries(cur.drop_first(), id));
            }
        }
    }
}

proof fn lemma_remove_all_of_id(s: Seq<TagPairView>, id: TagId)
    requires
        forall|k: int| 0 <= k < s.len() ==> s[k].id == id,
    ensures
        sp_remove_id(s, id) == Seq::<TagPairView>::empty(),
    decreases s.len(),
{
    if s.len() > 0 {
        lemma_remove_all_of_id(s.drop_first(), id);
    }
}

/// Applying an operation list touches each identifier independently: the
/// entries for `id` afterwards are what applying just the operations for
/// `id` to the entries for `id` gives.
proof fn lemma_apply_project(cur: Seq<TagPairView>, ops: Seq<DiffView>, id: TagId)
    ensures
        sp_entries(sp_apply(cur, ops), id) == sp_apply(
            sp_entries(cur, id),
            sp_ops_for_id(ops, id),
        ),
    decreases ops.len(),
{
    if ops.len() == 0 {
        assert(sp_apply(sp_entries(cur, id), sp_ops_for_id(ops, id)) == sp_entries(cur, id));
    } else {
        let op = ops[0];
        let stepped = sp_apply_one(cur, op);
        lemma_apply_project(stepped, ops.drop_first(), id);
        lemma_entries_ids(cur, id, 0);
        match op {
            DiffView::Add(p) => {
                lemma_apply_project_step(cur, op, p, id);
                if p.id == id {
                    let rest = sp_ops_for_id(ops.drop_first(), id);
                    assert(sp_ops_for_id(ops, id) == seq![op] + rest);
                    assert((seq![op] + rest)[0] == op);
                    assert((seq![op] + rest).drop_first() =~= rest);
                    assert(sp_entries(stepped, id) == seq![p]);
                } else {
                    assert(sp_ops_for_id(ops, id) == sp_ops_for_id(ops.drop_first(), id));
                    assert(sp_entries(stepped, id) == sp_entries(cur, id));
                }
            },
            DiffView::Modify(o, p) => {
                lemma_apply_project_step(cur, op, p, id);
                if p.id == id {
                    let rest = sp_ops_for_id(ops.drop_first(), id);
                    assert(sp_ops_for_id(ops, id) == seq![op] + rest);
                    assert((seq![op] + rest)[0] == op);
                    assert((seq![op] + rest).drop_first() =~= rest);
                    assert(sp_entries(stepped, id) == seq![p]);
                } else {
                    assert(sp_ops_for_id(ops, id) == sp_ops_for_id(ops.drop_first(), id));
                    assert(sp_entries(stepped, id) == sp_entries(cur, id));
                }
            },
            DiffView::Delete(p) => {
                lemma_entries_remove(cur, p.id, id);
                if p.id == id {
                    lemma_remove_all_of_id(sp_entries(cur, id), id);
                    assert(sp_ops_for_id(ops, id) == seq![op] + sp_ops_for_id(
                        ops.drop_first(),
                        id,
                    ));
                    assert((seq![op] + sp_ops_for_id(ops.drop_first(), id)).drop_first()
                        =~= sp_ops_for_id(ops.drop_first(), id));
                    assert(sp_apply_one(sp_entries(cur, id), op) == Seq::<
                        TagPairView,
                    >::empty());
                    assert(sp_entries(stepped, id) == Seq::<TagPairView>::empty());
                } else {
                    assert(sp_ops_for_id(ops, id) == sp_ops_for_id(ops.drop_first(), id));
                    assert(sp_entries(stepped, id) == sp_entries(cur, id));
                }
            },
        }
    }
}

/// The Add/Modify step of the projection: the new value replaces whatever
/// carried its identifier, both in the whole state and in the projection.
proof fn lemma_apply_project_step(cur: Seq<TagPairView>, op: DiffView, p: TagPairView, id: TagId)
    requires
        match op {
            DiffView::Add(q) => q == p,
            DiffView::Modify(o, q) => q == p,
            DiffView::Delete(q) => false,
        },
    ensures
        p.id == id ==> sp_entries(sp_apply_one(cur, op), id) == seq![p] && sp_apply_one(
            sp_entries(cur, id),
            op,
        ) == seq![p],
        p.id != id ==> sp_entries(sp_apply_one(cur, op), id) == sp_entries(cur, id),
{
    lemma_entries_remove(cur, p.id, id);
    lemma_entries_push(sp_remove_id(cur, p.id), p, id);
    if p.id == id {
        assert(sp_entries(sp_apply_one(cur, op), id) =~= Seq::<TagPairView>::empty().push(p));
        assert(Seq::<TagPairView>::empty().push(p) =~= seq![p]);
        lemma_entries_ids(cur, id, 0);
        lemma_remove_all_of_id(sp_entries(cur, id), id);
        match op {
            DiffView::Add(q) => {
                assert(sp_apply_one(sp_entries(cur, id), op) =~= seq![p]);
            },
            DiffView::Modify(o, q) => {
                assert(sp_apply_one(sp_entries(cur, id), op) =~= seq![p]);
            },
            DiffView::Delete(q) => {
                assert(false);
            },
        }
    }
}

proof fn lemma_adds_mods_no_delete(news: Seq<TagPairView>, olds: Seq<TagPairView>, i: int)
    requires
        0 <= i <= news.len(),
    ensures
        forall|k: int|
            0 <= k < sp_adds_mods_from(news, olds, i).len() ==> !(sp_adds_mods_from(
                news,
                olds,
                i,
            )[k] is Delete),
    decreases news.len() - i,
{
    if i < news.len() {
        lemma_adds_mods_no_delete(news, olds, i + 1);
    }
}

proof fn lemma_deletes_props(
    olds: Seq<TagPairView>,
    news: Seq<TagPairView>,
    preserved: Seq<TagId>,
    i: int,
)
    requires
        0 <= i <= olds.len(),
    ensures
        forall|k: int|
            0 <= k < sp_deletes_from(olds, news, preserved, i).len() ==> ((#[trigger] sp_deletes_from(
                olds,
                news,
                preserved,
                i,
            )[k]) matches DiffView::Delete(p) && !preserved.contains(p.id) && !sp_has_id(
                news,
                p.id,
            ) && sp_has_id(olds, p.id)),
    decreases olds.len() - i,
{
    if i < olds.len() {
        lemma_deletes_props(olds, news, preserved, i + 1);
        let head = olds[i];
        if !sp_has_id(news, head.id) && !preserved.contains(head.id) {
            match sp_find_by_id(olds, head.id) {
                Some(_) => {},
                None => {
                    lemma_find_from_props(olds, head.id, 0);
                    assert(olds[i].id != head.id);
                    assert(false);
                },
            }
        }
    }
}

/// Preserve correctness, and a little more: every Delete the engine emits
/// concerns an identifier that stands in the current set, is absent from
/// the desired set, and is not in the preserve list. In particular no
/// preserved identifier is ever deleted.
pub proof fn lemma_preserve_correctness(
    news: Seq<TagPairView>,
    olds: Seq<TagPairView>,
    preserved: Seq<TagId>,
)
    ensures
        forall|k: int|
            0 <= k < sp_diff(news, olds, preserved).len() ==> (match (#[trigger] sp_diff(
                news,
                olds,
                preserved,
            )[k]) {
                DiffView::Delete(p) => !preserved.contains(p.id) && !sp_has_id(news, p.id)
                    && sp_has_id(olds, p.id),
                _ => true,
            }),
{
    lemma_adds_mods_no_delete(news, olds, 0);
    lemma_deletes_props(olds, news, preserved, 0);
    let adds = sp_adds_mods(news, olds);
    let dels = sp_deletes(olds, news, preserved);
    assert(forall|k: int| 0 <= k < adds.len() ==> (adds + dels)[k] == adds[k]);
    assert(forall|k: int|
        adds.len() <= k < adds.len() + dels.len() ==> (adds + dels)[k] == dels[k - adds.len()]);
}

/// Determinism: the diff is a function of the desired set, the current set
/// and the preserve list alone; two computations over equal inputs give
/// the identical ordered operation list.
pub proof fn lemma_diff_deterministic(
    news: Seq<TagPairView>,
    olds: Seq<TagPairView>,
    preserved: Seq<TagId>,
    d1: Seq<DiffView>,
    d2: Seq<DiffView>,
)
    requires
        d1 == sp_diff(news, olds, preserved),
        d2 == sp_diff(news, olds, preserved),
    ensures
        d1 == d2,
{
}

/// Partition completeness: per identifier, the diff holds exactly one
/// Modify where desired and current both carry it with different values,
/// exactly one Add where only desired carries it, exactly one Delete where
/// only current carries it unpreserved, and nothing otherwise. Both sets
/// must be free of duplicate identifiers, as merged states are.
pub proof fn lemma_partition_completeness(
    news: Seq<TagPairView>,
    olds: Seq<TagPairView>,
    preserved: Seq<TagId>,
    id: TagId,
)
    requires
        sp_unique_ids(news),
        sp_unique_ids(olds),
    ensures
        ({
            let ops = sp_ops_for_id(sp_diff(news, olds, preserved), id);
            match (sp_find_by_id(news, id), sp_find_by_id(olds, id)) {
                (Some(n), Some(o)) => ops == if o.val != n.val {
                    seq![DiffView::Modify(o, n)]
                } else {
                    Seq::<DiffView>::empty()
                },
                (Some(n), None) => ops == seq![DiffView::Add(n)],
                (None, Some(o)) => ops == if preserved.contains(id) {
                    Seq::<DiffView>::empty()
                } else {
                    seq![DiffView::Delete(o)]
                },
                (None, None) => ops == Seq::<DiffView>::empty(),
            }
        }),
{
    let adds = sp_adds_mods(news, olds);
    let dels = sp_deletes(olds, news, preserved);
    lemma_ops_for_id_add(adds, dels, id);
    lemma_adds_mods_filter(news, olds, id, 0);
    lemma_deletes_filter(olds, news, preserved, id, 0);
    lemma_entries_from_unique(olds, id, 0);
    match (sp_find_by_id(news, id), sp_find_by_id(olds, id)) {
        (Some(n), Some(o)) => {
            assert(sp_has_id(news, id));
            assert(sp_ops_for_id(dels, id) == Seq::<DiffView>::empty());
            if o.val != n.val {
                assert(sp_ops_for_id(adds, id) + sp_ops_for_id(dels, id) =~= seq![
                    DiffView::Modify(o, n),
                ]);
            } else {
                assert(sp_ops_for_id(adds, id) + sp_ops_for_id(dels, id) =~= Seq::<
                    DiffView,
                >::empty());
            }
        },
        (Some(n), None) => {
            assert(sp_ops_for_id(dels, id) == Seq::<DiffView>::empty());
            assert(sp_ops_for_id(adds, id) + sp_ops_for_id(dels, id) =~= seq![
                DiffView::Add(n),
            ]);
        },
        (None, Some(o)) => {
            assert(sp_ops_for_id(adds, id) == Seq::<DiffView>::empty());
            if preserved.contains(id) {
                assert(sp_ops_for_id(adds, id) + sp_ops_for_id(dels, id) =~= Seq::<
                    DiffView,
                >::empty());
            } else {
                assert(sp_entries(olds, id) == seq![o]);
                assert(seq![o].map_values(|p: TagPairView| DiffView::Delete(p)) =~= seq![
                    DiffView::Delete(o),
                ]);
                assert(sp_ops_for_id(adds, id) + sp_ops_for_id(dels, id) =~= seq![
                    DiffView::Delete(o),
                ]);
            }
        },
        (None, None) => {
            assert(sp_entries(olds, id) == Seq::<TagPairView>::empty());
            assert(Seq::<TagPairView>::empty().map_values(
                |p: TagPairView| DiffView::Delete(p),
            ) =~= Seq::<DiffView>::empty());
            assert(sp_ops_for_id(adds, id) + sp_ops_for_id(dels, id) =~= Seq::<
                DiffView,
            >::empty());
        },
    }
}

proof fn lemma_adds_mods_empty(news: Seq<TagPairView>, a: Seq<TagPairView>, i: int)
    requires
        0 <= i <= news.len(),
        forall|k: int|
            0 <= k < news.len() ==> (match sp_find_by_id(a, #[trigger] news[k].id) {
                Some(p) => p.val == news[k].val,
                None => false,
            }),
    ensures
        sp_adds_mods_from(news, a, i) == Seq::<DiffView>::empty(),
    decreases news.len() - i,
{
    if i < news.len() {
        lemma_adds_mods_empty(news, a, i + 1);
        assert(match sp_find_by_id(a, news[i].id) {
            Some(p) => p.val == news[i].val,
            None => false,
        });
    }
}

proof fn lemma_deletes_empty(
    a: Seq<TagPairView>,
    news: Seq<TagPairView>,
    preserved: Seq<TagId>,
    i: int,
)
    requires
        0 <= i <= a.len(),
        forall|k: int|
            0 <= k < a.len() ==> sp_has_id(news, #[trigger] a[k].id) || preserved.contains(
                a[k].id,
            ),
    ensures
        sp_deletes_from(a, news, preserved, i) == Seq::<DiffView>::empty(),
    decreases a.len() - i,
{
    if i < a.len() {
        lemma_deletes_empty(a, news, preserved, i + 1);
    }
}

/// Idempotence: computing a diff, applying it to the current state, and
/// diffing the result against the same desired state with the same
/// preserve list yields no operations at all. The desired set must be
/// free of duplicate identifiers, as merged states are; the current set
/// may hold whatever the store returned.
pub proof fn lemma_diff_apply_idempotent(
    news: Seq<TagPairView>,
    olds: Seq<TagPairView>,
    preserved: Seq<TagId>,
)
    requires
        sp_unique_ids(news),
    ensures
        sp_diff(news, sp_apply(olds, sp_diff(news, olds, preserved)), preserved) == Seq::<
            DiffView,
        >::empty(),
{
    let d = sp_diff(news, olds, preserved);
    let a = sp_apply(olds, d);
    let adds = sp_adds_mods(news, olds);
    let dels = sp_deletes(olds, news, preserved);
    // every desired identifier ends up in the applied state with exactly
    // the desired value
    assert forall|k: int| 0 <= k < news.len() implies (match sp_find_by_id(
        a,
        #[trigger] news[k].id,
    ) {
        Some(p) => p.val == news[k].val,
        None => false,
    }) by {
        let id = news[k].id;
        let n = news[k];
        lemma_find_unique(news, id, k);
        lemma_ops_for_id_add(adds, dels, id);
        lemma_adds_mods_filter(news, olds, id, 0);
        lemma_deletes_filter(olds, news, preserved, id, 0);
        assert(sp_has_id(news, id));
        assert(sp_ops_for_id(dels, id) == Seq::<DiffView>::empty());
        lemma_apply_project(olds, d, id);
        lemma_entries_from_find(olds, id, 0);
        lemma_entries_ids(olds, id, 0);
        match sp_find_by_id(olds, id) {
            Some(o) => {
                if o.val != n.val {
                    let op = DiffView::Modify(o, n);
                    assert(sp_ops_for_id(d, id) =~= seq![op]);
                    lemma_apply_upsert_entries(sp_entries(olds, id), op, n, id);
                    assert(sp_entries(a, id) == seq![n]);
                } else {
                    assert(sp_ops_for_id(d, id) =~= Seq::<DiffView>::empty());
                    assert(sp_apply(sp_entries(olds, id), sp_ops_for_id(d, id)) == sp_entries(
                        olds,
                        id,
                    ));
                    assert(sp_entries(a, id).len() > 0 && sp_entries(a, id)[0] == o);
                }
            },
            None => {
                let op = DiffView::Add(n);
                assert(sp_ops_for_id(d, id) =~= seq![op]);
                assert(sp_entries(olds, id) == Seq::<TagPairView>::empty());
                lemma_apply_upsert_entries(Seq::<TagPairView>::empty(), op, n, id);
                assert(sp_entries(a, id) == seq![n]);
            },
        }
        lemma_entries_from_find(a, id, 0);
        assert(sp_entries(a, id).len() > 0);
    }
    lemma_adds_mods_empty(news, a, 0);
    // every surviving assignment's identifier is desired or preserved
    assert forall|k: int| 0 <= k < a.len() implies sp_has_id(news, #[trigger] a[k].id)
        || preserved.contains(a[k].id) by {
        let id = a[k].id;
        lemma_ops_for_id_add(adds, dels, id);
        lemma_adds_mods_filter(news, olds, id, 0);
        lemma_deletes_filter(olds, news, preserved, id, 0);
        lemma_apply_project(olds, d, id);
        lemma_entries_from_find(a, id, 0);
        lemma_find_from_props(a, id, 0);
        match sp_find_by_id(a, id) {
            Some(_) => {},
            None => {
                assert(a[k].id != id);
                assert(false);
            },
        }
        assert(sp_entries(a, id).len() > 0);
        if !sp_has_id(news, id) && !preserved.contains(id) {
            lemma_find_from_props(news, id, 0);
            assert(sp_ops_for_id(adds, id) == Seq::<DiffView>::empty());
            let ents = sp_entries(olds, id);
            let dops = ents.map_values(|p: TagPairView| DiffView::Delete(p));
            assert(sp_ops_for_id(d, id) =~= dops);
            lemma_entries_ids(olds, id, 0);
            if ents.len() == 0 {
                assert(dops.len() == 0);
                assert(sp_apply(ents, sp_ops_for_id(d, id)) == ents);
                assert(sp_entries(a, id).len() == 0);
                assert(false);
            } else {
                assert(forall|m: int|
                    0 <= m < dops.len() ==> ((#[trigger] dops[m]) matches DiffView::Delete(p)
                        && p.id == id)) by {
                    assert(forall|m: int|
                        0 <= m < dops.len() ==> #[trigger] dops[m] == DiffView::Delete(ents[m]));
                }
                lemma_apply_deletes_entries(ents, dops, id);
                assert(sp_entries(a, id).len() == 0);
                assert(false);
            }
        }
    }
    lemma_deletes_empty(a, news, preserved, 0);
    assert(sp_adds_mods(news, a) + sp_deletes(a, news, preserved) =~= Seq::<DiffView>::empty());
}

/// One Add or Modify for an identifier, applied to entries that all carry
/// it, leaves exactly the new value.
proof fn lemma_apply_upsert_entries(s: Seq<TagPairView>, op: DiffView, n: TagPairView, id: TagId)
    requires
        forall|k: int| 0 <= k < s.len() ==> s[k].id == id,
        n.id == id,
        match op {
            DiffView::Add(q) => q == n,
            DiffView::Modify(o, q) => q == n,
            DiffView::Delete(q) => false,
        },
    ensures
        sp_apply(s, seq![op]) == seq![n],
{
    let ops = seq![op];
    assert(ops[0] == op);
    assert(ops.drop_first() =~= Seq::<DiffView>::empty());
    lemma_remove_all_of_id(s, id);
    assert(sp_apply_one(s, op) =~= seq![n]);
    assert(sp_apply(seq![n], Seq::<DiffView>::empty()) == seq![n]);
}

proof fn lemma_apply_deletes_on_empty(ops: Seq<DiffView>)
    requires
        forall|k: int|
            0 <= k < ops.len() ==> (#[trigger] ops[k]) matches DiffView::Delete(p),
    ensures
        sp_apply(Seq::<TagPairView>::empty(), ops) == Seq::<TagPairView>::empty(),
    decreases ops.len(),
{
    if ops.len() > 0 {
        assert(ops[0] matches DiffView::Delete(p));
        match ops[0] {
            DiffView::Delete(p) => {
                assert(sp_remove_id(Seq::<TagPairView>::empty(), p.id) == Seq::<
                    TagPairView,
                >::empty());
            },
            _ => {},
        }
        assert(forall|k: int|
            0 <= k < ops.drop_first().len() ==> #[trigger] ops.drop_first()[k] == ops[k + 1]);
        lemma_apply_deletes_on_empty(ops.drop_first());
    }
}

/// A run of Deletes for one identifier, applied to entries that all carry
/// it, leaves nothing.
proof fn lemma_apply_deletes_entries(s: Seq<TagPairView>, ops: Seq<DiffView>, id: TagId)
    requires
        forall|k: int| 0 <= k < s.len() ==> s[k].id == id,
        ops.len() > 0,
        forall|k: int|
            0 <= k < ops.len() ==> ((#[trigger] ops[k]) matches DiffView::Delete(p) && p.id
                == id),
    ensures
        sp_apply(s, ops) == Seq::<TagPairView>::empty(),
{
    lemma_remove_all_of_id(s, id);
    assert(ops[0] matches DiffView::Delete(p) && p.id == id) by {
        assert(0 <= 0 < ops.len());
    }
    match ops[0] {
        DiffView::Delete(p) => {
            assert(sp_apply_one(s, ops[0]) == sp_remove_id(s, p.id));
            assert(sp_apply_one(s, ops[0]) == Seq::<TagPairView>::empty());
        },
        _ => {},
    }
    assert(forall|k: int|
        0 <= k < ops.drop_first().len() ==> #[trigger] ops.drop_first()[k] == ops[k + 1]);
    lemma_apply_deletes_on_empty(ops.drop_first());
}

/// Whether any file has any operation at all: the aggregate flag the
/// presentation layer keys on.
pub fn has_changes(diffs: &Vec<FileDiff>) -> (r: bool)
    ensures
        r == exists|k: int| 0 <= k < diffs@.len() && diffs@[k].diffs@.len() > 0,
{
    let mut k: usize = 0;
    while k < diffs.len()
        invariant
            k <= diffs@.len(),
            forall|m: int| 0 <= m < k ==> diffs@[m].diffs@.len() == 0,
        decreases diffs@.len() - k,
    {
        if diffs[k].diffs.len() > 0 {
            return true;
        }
        k = k + 1;
    }
    false
}

} // verus!
