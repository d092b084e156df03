//! The lazy tree of browsable items. Each node's children are populated
//! on demand by driving the async cache with a directory-listing or
//! archive-indexing producer; nodes move strictly forward through
//! `Unloaded`, `Loading`, and then `Loaded` or `Failed`, which are
//! terminal.

use vstd::prelude::*;

use crate::cache::{AsyncCache, CellState, PollStatus};
use crate::error::DataError;
use crate::location::{display_key, display_key_of, loc_eq, spec_extension, ItemInfo, ItemInfoV};
use crate::natural::{natural_cmp, natural_compare, natural_le};

verus! {

/// How a node is classified; only directories and archive files expand.
#[derive(Clone, Copy, Debug, Eq, Hash, PartialEq, Structural)]
pub enum NodeKind {
    FsDirectory,
    FsFile,
    FsOther,
    ArchivedFile,
}

/// Which producer fills an expandable node's children.
#[derive(Clone, Copy, Debug, Eq, PartialEq, Structural)]
pub enum ExpandHandler {
    /// List the directory the node names.
    Directory,
    /// Build an archive index over the file the node names.
    PakArchive,
}

/// A node's children, moving strictly forward through these states.
pub enum TreeChildren {
    Unloaded,
    Loading,
    Loaded(Vec<TreeNode>),
    Failed(String),
}

/// One node of the browsing tree. A node owns its children outright;
/// there are no back-references.
pub struct TreeNode {
    pub location: ItemInfo,
    pub kind: NodeKind,
    pub children: TreeChildren,
}

/// The listing a producer hands back: one location and classification
/// per child.
pub type ChildListing = Vec<(ItemInfo, NodeKind)>;

/// The mathematical value of a listing entry.
pub open spec fn entry_view(e: (ItemInfo, NodeKind)) -> (ItemInfoV, NodeKind) {
    (e.0@, e.1)
}

/// The mathematical values of a whole listing.
pub open spec fn entry_views(s: Seq<(ItemInfo, NodeKind)>) -> Seq<(ItemInfoV, NodeKind)> {
    s.map_values(|e: (ItemInfo, NodeKind)| entry_view(e))
}

/// Adjacent listing entries are ordered by the natural order of their
/// display keys.
pub open spec fn entries_sorted(s: Seq<(ItemInfoV, NodeKind)>) -> bool {
    forall|p: int|
        0 <= p < s.len() - 1 ==> natural_le(
            display_key_of((#[trigger] s[p]).0),
            display_key_of(s[p + 1].0),
        )
}

/// Adjacent ordering carries to every pair: in a sorted listing each
/// entry's display key orders naturally before every later entry's.
pub proof fn lemma_entries_sorted_pairwise(s: Seq<(ItemInfoV, NodeKind)>, p: int, q: int)
    requires
        entries_sorted(s),
        0 <= p <= q < s.len(),
    ensures
        natural_le(display_key_of(s[p].0), display_key_of(s[q].0)),
    decreases q - p,
{
    if p == q {
        crate::natural::lemma_natural_cmp_flip(
            display_key_of(s[p].0),
            display_key_of(s[p].0),
            0,
            0,
        );
    } else {
        lemma_entries_sorted_pairwise(s, p, q - 1);
        crate::natural::lemma_natural_le_trans(
            display_key_of(s[p].0),
            display_key_of(s[q - 1].0),
            display_key_of(s[q].0),
        );
    }
}

/// The extension bytes that mark a file as an archive.
pub open spec fn archive_extension() -> Seq<u8> {
    seq![112u8, 97u8, 107u8]
}

/// The producer an expansion of this node needs, if it can expand at
/// all: directories list their entries; files with the archive extension
/// index their archive; nothing else expands, archive entries included.
pub open spec fn spec_expand_handler(kind: NodeKind, loc: ItemInfo) -> Option<ExpandHandler> {
    match kind {
        NodeKind::FsDirectory => Some(ExpandHandler::Directory),
        NodeKind::FsFile => if spec_extension(loc) == Some(archive_extension()) {
            Some(ExpandHandler::PakArchive)
        } else {
            None
        },
        _ => None,
    }
}

/// Inserting into a sequence adds the element to its multiset.
proof fn lemma_to_multiset_insert<T>(s: Seq<T>, p: int, x: T)
    requires
        0 <= p <= s.len(),
    ensures
        s.insert(p, x).to_multiset() == s.to_multiset().insert(x),
{
    broadcast use vstd::seq_lib::group_to_multiset_ensures;

    let t = s.insert(p, x);
    t.to_multiset_ensures();
    assert(t.remove(p) =~= s);
    assert(t[p] == x);
    assert(s.to_multiset() == t.to_multiset().remove(x));
    assert(t.to_multiset().count(x) > 0) by {
        assert(t.contains(x));
    }
    assert(t.to_multiset() =~= s.to_multiset().insert(x)) by {
        assert forall|y: T|
            t.to_multiset().count(y) == #[trigger] s.to_multiset().insert(x).count(y) by {
            if y == x {
                assert(s.to_multiset().count(x) == t.to_multiset().count(x) - 1);
            } else {
                assert(s.to_multiset().count(y) == t.to_multiset().count(y));
            }
        }
    }
}

/// Removing the last element removes it from the multiset.
proof fn lemma_to_multiset_pop<T>(s: Seq<T>)
    requires
        s.len() > 0,
    ensures
        s.subrange(0, s.len() - 1).to_multiset() == s.to_multiset().remove(s[s.len() - 1]),
{
    s.to_multiset_ensures();
    assert(s.remove(s.len() - 1) =~= s.subrange(0, s.len() - 1));
}

/// `r` rearranges `input` by `perm` stably: `perm` maps output to
/// source positions one to one, and entries whose display keys compare
/// equal keep their source order.
pub open spec fn is_stable_arrangement(
    r: Seq<(ItemInfo, NodeKind)>,
    input: Seq<(ItemInfo, NodeKind)>,
    perm: Seq<int>,
) -> bool {
    &&& perm.len() == r.len()
    &&& r.len() == input.len()
    &&& (forall|i: int| 0 <= i < perm.len() ==> 0 <= #[trigger] perm[i] < input.len())
    &&& (forall|i: int, j: int| 0 <= i < j < perm.len() ==> #[trigger] perm[i] != #[trigger] perm[j])
    &&& (forall|i: int| 0 <= i < r.len() ==> #[trigger] r[i] == input[perm[i]])
    &&& (forall|i: int, j: int|
        0 <= i < j < r.len() && natural_cmp(
            display_key((#[trigger] r[i]).0),
            display_key((#[trigger] r[j]).0),
        ) == 0 ==> perm[i] < perm[j])
}

/// Sorts listing entries by the natural order of their display keys:
/// a stable rearrangement of exactly the entries given, with every
/// adjacent pair of keys naturally ordered.
pub fn sort_entries(input: ChildListing) -> (r: ChildListing)
    ensures
        entry_views(r@).to_multiset() == entry_views(input@).to_multiset(),
        entries_sorted(entry_views(r@)),
        r@.len() == input@.len(),
        exists|perm: Seq<int>| is_stable_arrangement(r@, input@, perm),
{
    let ghost ginput = input@;
    let ghost orig = entry_views(input@);
    let mut rest = input;
    let mut out: ChildListing = Vec::new();
    let ghost mut perm: Seq<int> = Seq::empty();
    proof {
        broadcast use vstd::multiset::group_multiset_axioms;

        orig.to_multiset_ensures();
        let e = entry_views(out@);
        e.to_multiset_ensures();
        assert(e =~= Seq::<(ItemInfoV, NodeKind)>::empty());
        assert(e.to_multiset().len() == 0);
        vstd::multiset::lemma_multiset_empty_len(e.to_multiset());
        assert(entry_views(out@).to_multiset().add(entry_views(rest@).to_multiset())
            =~= orig.to_multiset());
        assert(rest@ =~= ginput.subrange(0, rest@.len() as int));
    }
    while rest.len() > 0
        invariant
            entries_sorted(entry_views(out@)),
            entry_views(out@).to_multiset().add(entry_views(rest@).to_multiset())
                == orig.to_multiset(),
            out@.len() + rest@.len() == orig.len(),
            orig.len() == ginput.len(),
            rest@ == ginput.subrange(0, rest@.len() as int),
            perm.len() == out@.len(),
            forall|i: int| 0 <= i < perm.len() ==> rest@.len() <= #[trigger] perm[i] < ginput.len(),
            forall|i: int, j: int| 0 <= i < j < perm.len() ==> #[trigger] perm[i] != #[trigger] perm[j],
            forall|i: int| 0 <= i < out@.len() ==> #[trigger] out@[i] == ginput[perm[i]],
            forall|i: int, j: int|
                0 <= i < j < out@.len() && natural_cmp(
                    display_key((#[trigger] out@[i]).0),
                    display_key((#[trigger] out@[j]).0),
                ) == 0 ==> perm[i] < perm[j],
        decreases rest@.len(),
    {
        let ghost rest0 = rest@;
        let x = match rest.pop() {
            Some(x) => x,
            None => {
                assert(false);
                continue ;
            },
        };
        let ghost source = rest@.len() as int;
        proof {
            assert(rest@ =~= ginput.subrange(0, rest@.len() as int));
            assert(x == ginput[source]);
            assert(entry_views(rest@) =~= entry_views(rest0).subrange(
                0,
                entry_views(rest0).len() - 1,
            ));
            lemma_to_multiset_pop(entry_views(rest0));
            entry_views(rest0).to_multiset_ensures();
            assert(entry_views(rest0)[rest0.len() - 1] == entry_view(x));
        }
        let xkey = x.0.display_key_bytes();
        let mut p = out.len();
        while p > 0
            invariant
                p <= out@.len(),
                xkey@ == display_key(x.0),
                entries_sorted(entry_views(out@)),
                forall|k: int|
                    p <= k < out@.len() ==> natural_le(
                        display_key(x.0),
                        display_key_of(entry_views(out@)[k].0),
                    ),
            ensures
                p <= out@.len(),
                p == 0 || natural_cmp(
                    display_key_of(entry_views(out@)[p - 1].0),
                    display_key(x.0),
                ) < 0,
                forall|k: int|
                    p <= k < out@.len() ==> natural_le(
                        display_key(x.0),
                        display_key_of(entry_views(out@)[k].0),
                    ),
            decreases p,
        {
            let okey = out[p - 1].0.display_key_bytes();
            let c = natural_compare(okey.as_slice(), xkey.as_slice());
            if c < 0 {
                break ;
            }
            proof {
                crate::natural::lemma_natural_cmp_flip(
                    display_key_of(entry_views(out@)[p - 1].0),
                    display_key(x.0),
                    0,
                    0,
                );
            }
            p = p - 1;
        }
        let ghost out0 = out@;
        let ghost perm0 = perm;
        out.insert(p, x);
        proof {
            perm = perm.insert(p as int, source);
            out0.insert_ensures(p as int, x);
            perm0.insert_ensures(p as int, source);
            assert(entry_views(out@) =~= entry_views(out0).insert(p as int, entry_view(x)));
            entry_views(out0).insert_ensures(p as int, entry_view(x));
            lemma_to_multiset_insert(entry_views(out0), p as int, entry_view(x));
            assert(entries_sorted(entry_views(out@))) by {
                let t = entry_views(out@);
                let t0 = entry_views(out0);
                assert forall|q: int| 0 <= q < t.len() - 1 implies natural_le(
                    display_key_of((#[trigger] t[q]).0),
                    display_key_of(t[q + 1].0),
                ) by {
                    if q + 1 < p {
                        assert(t[q] == t0[q] && t[q + 1] == t0[q + 1]);
                    } else if q + 1 == p {
                        assert(t[q] == t0[q] && t[q + 1] == entry_view(x));
                        crate::natural::lemma_natural_cmp_flip(
                            display_key_of(t0[p - 1].0),
                            display_key(x.0),
                            0,
                            0,
                        );
                    } else if q == p {
                        assert(t[q] == entry_view(x) && t[q + 1] == t0[q]);
                    } else {
                        assert(t[q] == t0[q - 1] && t[q + 1] == t0[q]);
                    }
                }
            }
            assert(entry_views(out@).to_multiset().add(entry_views(rest@).to_multiset())
                =~= orig.to_multiset()) by {
                assert(entry_views(out@).to_multiset() == entry_views(out0).to_multiset().insert(
                    entry_view(x),
                ));
                assert(entry_views(rest0).to_multiset() == entry_views(
                    rest@,
                ).to_multiset().insert(entry_view(x)));
            }
            // Stability: nothing before the insertion point carries an
            // equal key, because the scan stopped at a strictly smaller
            // one and sortedness chains strictly through it.
            assert forall|i: int, j: int|
                0 <= i < j < out@.len() && natural_cmp(
                    display_key((#[trigger] out@[i]).0),
                    display_key((#[trigger] out@[j]).0),
                ) == 0 implies perm[i] < perm[j] by {
                if i < p && j == p {
                    lemma_entries_sorted_pairwise(entry_views(out0), i, p - 1);
                    crate::natural::lemma_natural_le_lt_trans(
                        display_key(out0[i].0),
                        display_key(out0[p - 1].0),
                        display_key(x.0),
                    );
                } else if i == p && j > p {
                    assert(perm[i] == source && perm[j] == perm0[j - 1]);
                } else if i < p && j > p {
                    assert(out@[i] == out0[i] && out@[j] == out0[j - 1]);
                    assert(perm[i] == perm0[i] && perm[j] == perm0[j - 1]);
                } else if j < p {
                    assert(out@[i] == out0[i] && out@[j] == out0[j]);
                    assert(perm[i] == perm0[i] && perm[j] == perm0[j]);
                } else {
                    assert(i > p);
                    assert(out@[i] == out0[i - 1] && out@[j] == out0[j - 1]);
                    assert(perm[i] == perm0[i - 1] && perm[j] == perm0[j - 1]);
                }
            }
        }
    }
    proof {
        broadcast use vstd::multiset::group_multiset_axioms;

        let e = entry_views(rest@);
        e.to_multiset_ensures();
        assert(e =~= Seq::<(ItemInfoV, NodeKind)>::empty());
        assert(e.to_multiset().len() == 0);
        vstd::multiset::lemma_multiset_empty_len(e.to_multiset());
        assert(entry_views(out@).to_multiset().add(entry_views(rest@).to_multiset())
            =~= entry_views(out@).to_multiset());
        entry_views(out@).to_multiset_ensures();
        orig.to_multiset_ensures();
        assert(is_stable_arrangement(out@, ginput, perm));
    }
    out
}

/// The values a sequence of child nodes holds.
pub open spec fn child_views(children: Seq<TreeNode>) -> Seq<(ItemInfoV, NodeKind)> {
    children.map_values(|n: TreeNode| (n.location@, n.kind))
}

/// The children hold exactly the listing's values rearranged by `perm`:
/// one fresh unloaded child per listing entry, ordered naturally by
/// display key, with equal keys keeping the listing's order.
pub open spec fn children_arranged(
    children: Seq<TreeNode>,
    pairs: Seq<(ItemInfoV, NodeKind)>,
    perm: Seq<int>,
) -> bool {
    &&& children.len() == pairs.len()
    &&& perm.len() == children.len()
    &&& (forall|i: int| 0 <= i < perm.len() ==> 0 <= #[trigger] perm[i] < pairs.len())
    &&& (forall|i: int, j: int|
        0 <= i < j < perm.len() ==> #[trigger] perm[i] != #[trigger] perm[j])
    &&& (forall|i: int|
        0 <= i < children.len() ==> ((#[trigger] children[i]).location@, children[i].kind)
            == pairs[perm[i]] && (children[i].children is Unloaded))
    &&& entries_sorted(child_views(children))
    &&& (forall|i: int, j: int|
        0 <= i < j < children.len() && natural_cmp(
            display_key((#[trigger] children[i]).location),
            display_key((#[trigger] children[j]).location),
        ) == 0 ==> perm[i] < perm[j])
}

/// The children a loaded node must hold for a producer listing: the
/// listing stably rearranged into natural display-key order, each child
/// created unloaded.
pub open spec fn children_match(children: Seq<TreeNode>, pairs: Seq<(ItemInfoV, NodeKind)>) -> bool {
    exists|perm: Seq<int>| children_arranged(children, pairs, perm)
}

/// Copies a listing's values.
fn clone_listing(v: &ChildListing) -> (r: ChildListing)
    ensures
        entry_views(r@) == entry_views(v@),
        r@.len() == v@.len(),
{
    let n = v.len();
    let mut r: ChildListing = Vec::new();
    let mut i: usize = 0;
    while i < n
        invariant
            i <= n,
            n == v@.len(),
            r@.len() == i,
            entry_views(r@) =~= entry_views(v@).subrange(0, i as int),
        decreases n - i,
    {
        let loc = v[i].0.duplicate();
        let kind = v[i].1;
        r.push((loc, kind));
        assert(entry_views(r@) =~= entry_views(v@).subrange(0, i + 1));
        i = i + 1;
    }
    proof {
        assert(entry_views(v@).subrange(0, n as int) =~= entry_views(v@));
    }
    r
}

impl TreeNode {
    /// A fresh node: created unloaded when its parent's listing is
    /// materialized.
    pub fn new(location: ItemInfo, kind: NodeKind) -> (r: TreeNode)
        ensures
            r.location == location,
            r.kind == kind,
            r.children is Unloaded,
    {
        TreeNode { location, kind, children: TreeChildren::Unloaded }
    }

    /// The producer an expansion of this node needs, if any.
    pub fn expand_handler(&self) -> (r: Option<ExpandHandler>)
        ensures
            r == spec_expand_handler(self.kind, self.location),
    {
        match self.kind {
            NodeKind::FsDirectory => Some(ExpandHandler::Directory),
            NodeKind::FsFile => {
                match self.location.extension() {
                    Some(e) => {
                        let pak: [u8; 3] = [112, 97, 107];
                        if crate::util_binary::bytes_eq(e.as_slice(), pak.as_slice()) {
                            proof {
                                assert(pak@ =~= archive_extension());
                            }
                            Some(ExpandHandler::PakArchive)
                        } else {
                            proof {
                                assert(pak@ =~= archive_extension());
                            }
                            None
                        }
                    },
                    None => None,
                }
            },
            _ => None,
        }
    }

    /// The loaded children, when this node has finished loading.
    pub fn children_snapshot(&self) -> (r: Option<&Vec<TreeNode>>)
        ensures
            self.children matches TreeChildren::Loaded(c) ==> (r matches Some(v) && *v == c),
            !(self.children matches TreeChildren::Loaded(_)) ==> r is None,
    {
        match &self.children {
            TreeChildren::Loaded(c) => Some(c),
            _ => None,
        }
    }

    /// Drives one expansion step against the cache. A node that cannot
    /// expand, or has already loaded or failed, is left untouched and
    /// never retries. Otherwise the node polls the cell keyed by its
    /// location: on the poll that creates the cell the caller is told
    /// which producer to start; while the production runs the node stays
    /// loading; a stored success becomes sorted, unloaded children and a
    /// stored failure becomes the failed state with the error's message.
    pub fn handle_load(&mut self, cache: &mut AsyncCache<ChildListing>) -> (start: Option<
        ExpandHandler,
    >)
        requires
            old(cache).wf(),
        ensures
            final(cache).wf(),
            final(self).location == old(self).location,
            final(self).kind == old(self).kind,
            forall|k: ItemInfo|
                !loc_eq(k, old(self).location) ==> #[trigger] final(cache).spec_cell(k) == old(cache).spec_cell(k) && final(cache).spec_retain(k) == old(cache).spec_retain(k),
            spec_expand_handler(old(self).kind, old(self).location) is None ==> *final(self)
                == *old(self) && *final(cache) == *old(cache) && start is None,
            spec_expand_handler(old(self).kind, old(self).location) matches Some(h) ==> match old(
                self,
            ).children {
                TreeChildren::Loaded(_) => *final(self) == *old(self) && *final(cache) == *old(cache) && start is None,
                TreeChildren::Failed(_) => *final(self) == *old(self) && *final(cache) == *old(cache) && start is None,
                _ => match old(cache).spec_cell(old(self).location) {
                    None => start == Some(h) && (final(self).children is Loading) && final(cache).spec_cell(old(self).location) == Some(CellState::<ChildListing>::Pending),
                    Some(CellState::Idle) => start == Some(h) && (final(self).children is Loading)
                        && final(cache).spec_cell(old(self).location) == Some(
                        CellState::<ChildListing>::Pending,
                    ),
                    Some(CellState::Pending) => start is None && (final(self).children is Loading)
                        && *final(cache) == *old(cache),
                    Some(CellState::Ready(res)) => start is None && *final(cache) == *old(cache)
                        && match res {
                        Ok(pairs) => final(self).children matches TreeChildren::Loaded(children)
                            && children_match(children@, entry_views(pairs@)),
                        Err(e) => final(self).children matches TreeChildren::Failed(m) && m@
                            == e.spec_message(),
                    },
                },
            },
    {
        let handler = self.expand_handler();
        let h = match handler {
            Some(h) => h,
            None => { return None },
        };
        match &self.children {
            TreeChildren::Loaded(_) => None,
            TreeChildren::Failed(_) => None,
            _ => {
                self.children = TreeChildren::Loading;
                match cache.read_or_request(&self.location, true) {
                    PollStatus::Start => Some(h),
                    PollStatus::Pending => None,
                    PollStatus::Ready => {
                        let outcome = match cache.get(&self.location) {
                            Some(res) => res,
                            None => {
                                assert(false);
                                return None;
                            },
                        };
                        match outcome {
                            Ok(pairs) => {
                                let ghost pv = entry_views(pairs@);
                                let cloned = clone_listing(pairs);
                                let ghost gcloned = cloned@;
                                let sorted = sort_entries(cloned);
                                let ghost gsorted = sorted@;
                                let ghost sortedv = entry_views(sorted@);
                                let ghost perm = choose|perm: Seq<int>|
                                    is_stable_arrangement(gsorted, gcloned, perm);
                                let mut rest = sorted;
                                let mut children: Vec<TreeNode> = Vec::new();
                                while rest.len() > 0
                                    invariant
                                        children@.len() + rest@.len() == sortedv.len(),
                                        entry_views(rest@) =~= sortedv.subrange(
                                            children@.len() as int,
                                            sortedv.len() as int,
                                        ),
                                        forall|c: int|
                                            0 <= c < children@.len() ==> ((
                                            #[trigger] children@[c]).location@,
                                            children@[c].kind) == sortedv[c] && (
                                            children@[c].children is Unloaded),
                                    decreases rest@.len(),
                                {
                                    let ghost restv0 = entry_views(rest@);
                                    let e = rest.remove(0);
                                    proof {
                                        assert(entry_views(rest@) =~= restv0.subrange(
                                            1,
                                            restv0.len() as int,
                                        ));
                                        assert(restv0[0] == sortedv[children@.len() as int]);
                                    }
                                    children.push(
                                        TreeNode {
                                            location: e.0,
                                            kind: e.1,
                                            children: TreeChildren::Unloaded,
                                        },
                                    );
                                }
                                proof {
                                    assert(is_stable_arrangement(gsorted, gcloned, perm));
                                    assert(children_match(children@, pv)) by {
                                        assert(child_views(children@) =~= sortedv);
                                        assert forall|i: int|
                                            0 <= i < children@.len() implies ((
                                        #[trigger] children@[i]).location@, children@[i].kind)
                                            == pv[perm[i]] by {
                                            assert(gsorted[i] == gcloned[perm[i]]);
                                            assert(entry_view(gcloned[perm[i]]) == entry_views(
                                                gcloned,
                                            )[perm[i]]);
                                            assert(entry_views(gcloned) == pv);
                                        }
                                        assert forall|i: int, j: int|
                                            0 <= i < j < children@.len() && natural_cmp(
                                                display_key((#[trigger] children@[i]).location),
                                                display_key((#[trigger] children@[j]).location),
                                            ) == 0 implies perm[i] < perm[j] by {
                                            assert(children@[i].location@ == gsorted[i].0@
                                                && children@[j].location@ == gsorted[j].0@);
                                        }
                                        assert(children_arranged(children@, pv, perm));
                                    }
                                }
                                self.children = TreeChildren::Loaded(children);
                                None
                            },
                            Err(e) => {
                                let message = e.message();
                                self.children = TreeChildren::Failed(message);
                                None
                            },
                        }
                    },
                }
            },
        }
    }
}

/// The whole browsing tree: at most one root node.
pub struct FileTree {
    pub root: Option<TreeNode>,
}

impl Default for FileTree {
    /// An empty tree with no root.
    fn default() -> (r: Self)
        ensures
            r.root is None,
    {
        FileTree { root: None }
    }
}

impl FileTree {
    /// Replaces the root with a fresh unloaded directory node for `path`.
    pub fn set_root_from_path(&mut self, path: String)
        ensures
            final(self).root matches Some(n) && n == (TreeNode {
                location: ItemInfo::Fs { path: path, kind: crate::location::FsItemKind::Directory },
                kind: NodeKind::FsDirectory,
                children: TreeChildren::Unloaded,
            }),
    {
        let location = ItemInfo::Fs { path, kind: crate::location::FsItemKind::Directory };
        self.root = Some(TreeNode::new(location, NodeKind::FsDirectory));
    }

    /// Replaces the root only when `path` differs from the current
    /// root's filesystem path, so an unchanged path keeps the loaded
    /// tree.
    pub fn set_root_from_path_if_different(&mut self, path: String)
        ensures
            match old(self).root {
                Some(n) => match n.location {
                    ItemInfo::Fs { path: p, kind } => if p@ == path@ {
                        *final(self) == *old(self)
                    } else {
                        final(self).root matches Some(m) && m == (TreeNode {
                            location: ItemInfo::Fs {
                                path: path,
                                kind: crate::location::FsItemKind::Directory,
                            },
                            kind: NodeKind::FsDirectory,
                            children: TreeChildren::Unloaded,
                        })
                    },
                    ItemInfo::Pak { .. } => final(self).root matches Some(m) && m == (TreeNode {
                        location: ItemInfo::Fs {
                            path: path,
                            kind: crate::location::FsItemKind::Directory,
                        },
                        kind: NodeKind::FsDirectory,
                        children: TreeChildren::Unloaded,
                    }),
                },
                None => final(self).root matches Some(m) && m == (TreeNode {
                    location: ItemInfo::Fs {
                        path: path,
                        kind: crate::location::FsItemKind::Directory,
                    },
                    kind: NodeKind::FsDirectory,
                    children: TreeChildren::Unloaded,
                }),
            },
    {
        let is_same_path = match &self.root {
            Some(root) => match &root.location {
                ItemInfo::Fs { path: location_path, .. } => location_path.eq(&path),
                _ => false,
            },
            None => false,
        };
        if !is_same_path {
            self.set_root_from_path(path);
        }
    }
}

} // verus!
