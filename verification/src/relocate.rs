use crate::hashing::{content_digest, hash_bytes, sha256_bytes, hex_string};
use crate::order::{seq_views, string_multisets_match};
use vstd::prelude::*;

verus! {

/// Failures of a relocation: an I/O step that did not finish, a post-copy
/// digest comparison that did not match, and a symbolic link that could not
/// be created.
#[derive(Clone, Copy, Debug, PartialEq, Eq, Structural)]
pub enum RelocationError {
    Io,
    VerificationMismatch,
    LinkCreation,
}

/// The stages a relocation passes through; `Failed` is terminal and every
/// stage may fall into it.
#[derive(Clone, Copy, Debug, PartialEq, Eq, Structural)]
pub enum RelocationStage {
    Planned,
    Copying,
    Verifying,
    Swapping,
    Done,
    Failed,
}

/// One user-initiated move: where from, where to, and the display name of
/// the folder being moved.
pub struct RelocationPlan {
    pub source_path: String,
    pub destination_path: String,
    pub folder_identity: String,
}

/// The stage after one step succeeds or fails.
pub open spec fn next_stage(s: RelocationStage, step_ok: bool) -> RelocationStage {
    match s {
        RelocationStage::Planned => if step_ok {
            RelocationStage::Copying
        } else {
            RelocationStage::Failed
        },
        RelocationStage::Copying => if step_ok {
            RelocationStage::Verifying
        } else {
            RelocationStage::Failed
        },
        RelocationStage::Verifying => if step_ok {
            RelocationStage::Swapping
        } else {
            RelocationStage::Failed
        },
        RelocationStage::Swapping => if step_ok {
            RelocationStage::Done
        } else {
            RelocationStage::Failed
        },
        RelocationStage::Done => RelocationStage::Done,
        RelocationStage::Failed => RelocationStage::Failed,
    }
}

/// Advances the stage machine by one step's outcome.
pub fn advance_stage(s: RelocationStage, step_ok: bool) -> (r: RelocationStage)
    ensures
        r == next_stage(s, step_ok),
{
    match s {
        RelocationStage::Planned => if step_ok {
            RelocationStage::Copying
        } else {
            RelocationStage::Failed
        },
        RelocationStage::Copying => if step_ok {
            RelocationStage::Verifying
        } else {
            RelocationStage::Failed
        },
        RelocationStage::Verifying => if step_ok {
            RelocationStage::Swapping
        } else {
            RelocationStage::Failed
        },
        RelocationStage::Swapping => if step_ok {
            RelocationStage::Done
        } else {
            RelocationStage::Failed
        },
        RelocationStage::Done => RelocationStage::Done,
        RelocationStage::Failed => RelocationStage::Failed,
    }
}

/// `Failed` and `Done` are terminal, and `Done` is reached only by the swap
/// step succeeding out of `Swapping`.
pub proof fn lemma_stage_machine(s: RelocationStage, step_ok: bool)
    ensures
        next_stage(RelocationStage::Failed, step_ok) == RelocationStage::Failed,
        next_stage(RelocationStage::Done, step_ok) == RelocationStage::Done,
        next_stage(s, step_ok) == RelocationStage::Done ==> (s == RelocationStage::Swapping
            || s == RelocationStage::Done),
        !step_ok && s != RelocationStage::Done ==> next_stage(s, step_ok)
            == RelocationStage::Failed,
{
}

/// A folder tree as the relocation engine models it: file contents and
/// named children.
pub enum FsTree {
    File { data: Vec<u8> },
    Dir { entries: Vec<(String, FsTree)> },
}

/// Deep equality of two trees: same shape, same names, same bytes.
pub open spec fn same_tree(a: FsTree, b: FsTree) -> bool
    decreases a, 0int,
{
    match (a, b) {
        (FsTree::File { data: d1 }, FsTree::File { data: d2 }) => d1@ == d2@,
        (FsTree::Dir { entries: e1 }, FsTree::Dir { entries: e2 }) => entries_match(e1@, e2@),
        _ => false,
    }
}

/// Two entry listings agree entry for entry: same names, same subtrees.
pub open spec fn entries_match(e1: Seq<(String, FsTree)>, e2: Seq<(String, FsTree)>) -> bool
    decreases e1, 1int,
{
    if e1.len() != e2.len() {
        false
    } else if e1.len() == 0 {
        true
    } else {
        entries_match(e1.drop_last(), e2.drop_last()) && e1.last().0@ == e2.last().0@
            && same_tree(e1.last().1, e2.last().1)
    }
}

/// Copies a whole tree; the copy is byte-for-byte the source.
#[verifier::loop_isolation(false)]
pub fn copy_tree(src: &FsTree) -> (r: FsTree)
    ensures
        same_tree(*src, r),
    decreases *src,
{
    match src {
        FsTree::File { data } => {
            let mut copied: Vec<u8> = Vec::new();
            let mut i: usize = 0;
            while i < data.len()
                invariant
                    i <= data@.len(),
                    copied@ == data@.take(i as int),
                decreases data@.len() - i,
            {
                copied.push(data[i]);
                proof {
                    assert(data@.take(i as int + 1) =~= data@.take(i as int).push(
                        data@[i as int],
                    ));
                }
                i += 1;
            }
            let out = FsTree::File { data: copied };
            proof {
                assert(data@.take(data@.len() as int) =~= data@);
                assert(same_tree(*src, out));
            }
            out
        },
        FsTree::Dir { entries } => {
            let mut copied: Vec<(String, FsTree)> = Vec::new();
            let mut i: usize = 0;
            proof {
                assert(entries@.take(0) =~= Seq::<(String, FsTree)>::empty());
            }
            while i < entries.len()
                invariant
                    i <= entries@.len(),
                    entries_match(entries@.take(i as int), copied@),
                decreases entries@.len() - i,
            {
                let ghost pre = copied@;
                let name = entries[i].0.clone();
                let sub = copy_tree(&entries[i].1);
                copied.push((name, sub));
                proof {
                    assert(entries@.take(i as int + 1).drop_last() =~= entries@.take(i as int));
                    assert(copied@.drop_last() =~= pre);
                    assert(entries@.take(i as int + 1).last() == entries@[i as int]);
                    assert(entries_match(entries@.take(i as int + 1), copied@));
                }
                i += 1;
            }
            let out = FsTree::Dir { entries: copied };
            proof {
                assert(entries@.take(entries@.len() as int) =~= entries@);
                assert(same_tree(*src, out));
            }
            out
        },
    }
}

/// The contents of the files directly under a directory's entry list, in
/// listing order.
pub open spec fn file_datas_of(es: Seq<(String, FsTree)>) -> Seq<Seq<u8>>
    decreases es.len(),
{
    if es.len() == 0 {
        Seq::<Seq<u8>>::empty()
    } else {
        let rest = file_datas_of(es.drop_last());
        match es.last().1 {
            FsTree::File { data } => rest.push(data@),
            FsTree::Dir { .. } => rest,
        }
    }
}

/// The digests the verification step compares.
pub open spec fn digests_of(datas: Seq<Seq<u8>>) -> Seq<Seq<char>> {
    datas.map_values(|d: Seq<u8>| content_digest(d))
}

/// The digests of a tree's top-level files; a tree that is a single file
/// has no top-level listing and so no digests.
pub open spec fn top_digests(t: FsTree) -> Seq<Seq<char>> {
    match t {
        FsTree::Dir { entries } => digests_of(file_datas_of(entries@)),
        FsTree::File { .. } => Seq::<Seq<char>>::empty(),
    }
}

/// Hashes every file directly under the tree's top level. A tree that is a
/// single file has no top-level listing and yields no digests.
pub fn top_level_digests(t: &FsTree) -> (r: Vec<String>)
    ensures
        seq_views(r@) == top_digests(*t),
{
    match t {
        FsTree::File { .. } => {
            let out: Vec<String> = Vec::new();
            proof {
                assert(seq_views(out@) =~= top_digests(*t));
            }
            out
        },
        FsTree::Dir { entries } => {
            let mut out: Vec<String> = Vec::new();
            let mut i: usize = 0;
            proof {
                assert(entries@.take(0) =~= Seq::<(String, FsTree)>::empty());
                assert(seq_views(out@) =~= digests_of(file_datas_of(entries@.take(0))));
            }
            while i < entries.len()
                invariant
                    i <= entries@.len(),
                    seq_views(out@) == digests_of(file_datas_of(entries@.take(i as int))),
                decreases entries@.len() - i,
            {
                let ghost pre = out@;
                match &entries[i].1 {
                    FsTree::File { data } => {
                        let digest = hash_bytes(data);
                        out.push(digest);
                        proof {
                            assert(seq_views(out@) =~= seq_views(pre).push(
                                content_digest(data@),
                            ));
                        }
                    },
                    FsTree::Dir { .. } => {},
                }
                proof {
                    assert(entries@.take(i as int + 1).drop_last() =~= entries@.take(i as int));
                    assert(entries@.take(i as int + 1).last() == entries@[i as int]);
                    assert(seq_views(out@) =~= digests_of(
                        file_datas_of(entries@.take(i as int + 1)),
                    ));
                }
                i += 1;
            }
            proof {
                assert(entries@.take(entries@.len() as int) =~= entries@);
            }
            out
        },
    }
}

/// Compares the multisets of top-level file digests of two trees, as the
/// verification step demands: a count mismatch is a mismatch.
pub fn trees_verify(source: &FsTree, destination: &FsTree) -> (r: bool)
    ensures
        r == (top_digests(*source).to_multiset() == top_digests(*destination).to_multiset()),
{
    let sd = top_level_digests(source);
    let dd = top_level_digests(destination);
    string_multisets_match(&sd, &dd)
}

/// Two equal trees carry equal top-level file contents, hence equal
/// top-level digests.
pub proof fn lemma_same_tree_file_datas(a: Seq<(String, FsTree)>, b: Seq<(String, FsTree)>)
    requires
        entries_match(a, b),
    ensures
        file_datas_of(a) == file_datas_of(b),
    decreases a.len(),
{
    if a.len() > 0 {
        lemma_same_tree_file_datas(a.drop_last(), b.drop_last());
        assert(same_tree(a.last().1, b.last().1));
    }
}

/// What stands at a path in the modeled filesystem.
pub enum PathState {
    Absent,
    Tree(FsTree),
    Link(String),
}

/// The two paths a relocation touches: the original folder and its new home.
pub struct RelocationSite {
    pub source: PathState,
    pub destination: PathState,
    pub destination_path: String,
}

/// Copies the source tree to the destination; the destination then holds a
/// byte-for-byte copy and the source is untouched.
pub fn copy_step(site: &mut RelocationSite) -> (r: Result<(), RelocationError>)
    ensures
        final(site).source == old(site).source,
        final(site).destination_path == old(site).destination_path,
        match old(site).source {
            PathState::Tree(t) => r is Ok && (final(site).destination matches PathState::Tree(c)
                && same_tree(t, c)),
            _ => r == Result::<(), RelocationError>::Err(RelocationError::Io) && final(site).destination == old(site).destination,
        },
{
    match &site.source {
        PathState::Tree(t) => {
            let copied = copy_tree(t);
            site.destination = PathState::Tree(copied);
            Ok(())
        },
        _ => Err(RelocationError::Io),
    }
}

/// Confirms that source and destination agree on the multiset of top-level
/// file digests; inspects only the top level, a documented limitation.
pub fn verify_step(site: &RelocationSite) -> (r: Result<(), RelocationError>)
    ensures
        match (site.source, site.destination) {
            (PathState::Tree(s), PathState::Tree(d)) => (r is Ok) == (top_digests(
                s,
            ).to_multiset() == top_digests(d).to_multiset()),
            _ => r is Err,
        },
        r is Err ==> r == Result::<(), RelocationError>::Err(
            RelocationError::VerificationMismatch,
        ),
{
    match (&site.source, &site.destination) {
        (PathState::Tree(s), PathState::Tree(d)) => {
            if trees_verify(s, d) {
                Ok(())
            } else {
                Err(RelocationError::VerificationMismatch)
            }
        },
        _ => Err(RelocationError::VerificationMismatch),
    }
}

/// Replaces the source tree by a symbolic link to the destination; its
/// precondition admits only a site whose verification would succeed, so a
/// swap can never run before the digests have matched.
pub fn swap_step(site: &mut RelocationSite) -> (r: Result<(), RelocationError>)
    requires
        old(site).source matches PathState::Tree(s) && old(site).destination matches PathState::Tree(d)
            && top_digests(s).to_multiset() == top_digests(d).to_multiset(),
    ensures
        r is Ok,
        final(site).destination == old(site).destination,
        final(site).destination_path == old(site).destination_path,
        final(site).source matches PathState::Link(p) && p@ == old(site).destination_path@,
    {
    let link_target = site.destination_path.clone();
    site.source = PathState::Link(link_target);
    Ok(())
}

/// Resolves what a reader of the original path sees: the tree standing
/// there, or the destination's tree through the link.
pub open spec fn resolves_to(site: RelocationSite, t: FsTree) -> bool {
    match site.source {
        PathState::Tree(s) => s == t,
        PathState::Link(p) => p@ == site.destination_path@ && (site.destination
            matches PathState::Tree(d) && d == t),
        PathState::Absent => false,
    }
}

/// Runs the whole relocation on the modeled site: copy, verify, swap. On
/// success the original path is no longer a real directory but resolves,
/// through the link, to a byte-for-byte copy of what stood there.
pub fn perform_relocation(site: &mut RelocationSite) -> (r: Result<
    RelocationStage,
    RelocationError,
>)
    ensures
        match old(site).source {
            PathState::Tree(t) => {
                &&& r == Result::<RelocationStage, RelocationError>::Ok(RelocationStage::Done)
                &&& final(site).source matches PathState::Link(p) && p@ == old(site).destination_path@
                &&& (final(site).destination matches PathState::Tree(c) && same_tree(t, c)
                    && resolves_to(*final(site), c))
                &&& !(final(site).source is Tree)
                &&& (final(site).destination matches PathState::Tree(c) && top_digests(
                    t,
                ).to_multiset() == top_digests(c).to_multiset())
            },
            _ => r == Result::<RelocationStage, RelocationError>::Err(RelocationError::Io)
                && *final(site) == *old(site),
        },
{
    let ghost t0 = site.source;
    match copy_step(site) {
        Err(e) => Err(e),
        Ok(()) => {
            proof {
                let d1 = site.destination;
                match (t0, d1) {
                    (PathState::Tree(t), PathState::Tree(c)) => {
                        assert(same_tree(t, c));
                        match (t, c) {
                            (FsTree::Dir { entries: se }, FsTree::Dir { entries: de }) => {
                                assert(entries_match(se@, de@));
                                lemma_same_tree_file_datas(se@, de@);
                            },
                            _ => {},
                        }
                    },
                    _ => {},
                }
            }
            match verify_step(site) {
                Err(e) => Err(e),
                Ok(()) => {
                    match swap_step(site) {
                        Err(e) => Err(e),
                        Ok(()) => Ok(RelocationStage::Done),
                    }
                },
            }
        },
    }
}

} // verus!
