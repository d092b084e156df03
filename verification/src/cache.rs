//! A keyed map of single-flight memoized load cells. Producers run
//! outside this crate; the cache only decides, per poll, whether a
//! production must be started, is still in flight, or has a stored
//! result. At most one production is ever in flight per key, and once a
//! result is stored it is returned unchanged by every further poll until
//! the cell is explicitly discarded.

use vstd::prelude::*;

use crate::error::DataError;
use crate::location::{loc_eq, item_info_eq, ItemInfo};

verus! {

/// One cell's lifecycle. Transitions: `Idle` (or absent) to `Pending`
/// when a poll starts a production; `Pending` to `Ready` when the
/// producer's outcome is handed back; `Ready` to `Idle` only by an
/// explicit discard of a cell that does not retain its result.
pub enum CellState<V> {
    Idle,
    Pending,
    Ready(Result<V, DataError>),
}

/// What a poll tells the caller.
#[derive(Clone, Copy, Debug, Eq, PartialEq, Structural)]
pub enum PollStatus {
    /// The cell just became pending and its production must be started,
    /// exactly once.
    Start,
    /// A production is already in flight; nothing to do but poll again.
    Pending,
    /// The stored result is available through `get`.
    Ready,
}

/// The keyed cache. One slot per key; keys are never duplicated.
pub struct AsyncCache<V> {
    keys: Vec<ItemInfo>,
    retains: Vec<bool>,
    states: Vec<CellState<V>>,
}

/// Location equality only compares contents, so it is symmetric.
proof fn lemma_loc_eq_sym(a: ItemInfo, b: ItemInfo)
    ensures
        loc_eq(a, b) == loc_eq(b, a),
{
}

/// Location equality only compares contents, so it is transitive.
proof fn lemma_loc_eq_trans(a: ItemInfo, b: ItemInfo, c: ItemInfo)
    requires
        loc_eq(a, b),
        loc_eq(b, c),
    ensures
        loc_eq(a, c),
{
}

/// The first index at or after `i` whose key equals `key`.
spec fn first_match(keys: Seq<ItemInfo>, key: ItemInfo, i: int) -> Option<int>
    decreases keys.len() - i,
{
    if i < 0 || i >= keys.len() {
        None
    } else if loc_eq(keys[i], key) {
        Some(i)
    } else {
        first_match(keys, key, i + 1)
    }
}

/// A scan may skip any matchless prefix.
proof fn lemma_first_match_advance(keys: Seq<ItemInfo>, key: ItemInfo, i: int, m: int)
    requires
        0 <= i <= m <= keys.len(),
        forall|j: int| i <= j < m ==> !loc_eq(#[trigger] keys[j], key),
    ensures
        first_match(keys, key, i) == first_match(keys, key, m),
    decreases m - i,
{
    if i < m {
        lemma_first_match_advance(keys, key, i + 1, m);
    }
}

/// A found index lies in range, matches, and nothing before it matches.
proof fn lemma_first_match_some(keys: Seq<ItemInfo>, key: ItemInfo, i: int, j: int)
    requires
        0 <= i <= keys.len(),
        first_match(keys, key, i) == Some(j),
    ensures
        i <= j < keys.len(),
        loc_eq(keys[j], key),
        forall|k: int| i <= k < j ==> !loc_eq(#[trigger] keys[k], key),
    decreases keys.len() - i,
{
    if !loc_eq(keys[i], key) {
        lemma_first_match_some(keys, key, i + 1, j);
    }
}

/// When no index is found, no key matches.
proof fn lemma_first_match_none(keys: Seq<ItemInfo>, key: ItemInfo, i: int)
    requires
        0 <= i <= keys.len(),
        first_match(keys, key, i) is None,
    ensures
        forall|j: int| i <= j < keys.len() ==> !loc_eq(#[trigger] keys[j], key),
    decreases keys.len() - i,
{
    if i < keys.len() {
        lemma_first_match_none(keys, key, i + 1);
    }
}

/// Appending a slot leaves earlier matches alone and can only add a
/// match at the end.
proof fn lemma_first_match_push(keys: Seq<ItemInfo>, nk: ItemInfo, key: ItemInfo, i: int)
    requires
        0 <= i <= keys.len(),
    ensures
        first_match(keys.push(nk), key, i) == match first_match(keys, key, i) {
            Some(j) => Some(j),
            None => if loc_eq(nk, key) {
                Some(keys.len() as int)
            } else {
                None
            },
        },
    decreases keys.len() - i,
{
    assert(keys.push(nk)[keys.len() as int] == nk);
    if i < keys.len() {
        assert(keys.push(nk)[i] == keys[i]);
        lemma_first_match_push(keys, nk, key, i + 1);
    }
}

impl<V> AsyncCache<V> {
    /// The cache's slots are consistent: one state and one retain flag
    /// per key, and no key occurs twice.
    pub closed spec fn wf(&self) -> bool {
        &&& self.keys@.len() == self.retains@.len()
        &&& self.keys@.len() == self.states@.len()
        &&& forall|i: int, j: int|
            0 <= i < j < self.keys@.len() ==> !loc_eq(
                #[trigger] self.keys@[i],
                #[trigger] self.keys@[j],
            )
    }

    /// The state of the cell stored under `key`, if any.
    pub closed spec fn spec_cell(&self, key: ItemInfo) -> Option<CellState<V>> {
        match first_match(self.keys@, key, 0) {
            Some(i) => Some(self.states@[i]),
            None => None,
        }
    }

    /// The retain flag of the cell stored under `key`, if any.
    pub closed spec fn spec_retain(&self, key: ItemInfo) -> Option<bool> {
        match first_match(self.keys@, key, 0) {
            Some(i) => Some(self.retains@[i]),
            None => None,
        }
    }

    /// An empty cache.
    pub fn new() -> (r: Self)
        ensures
            r.wf(),
            forall|k: ItemInfo| #[trigger] r.spec_cell(k) is None,
    {
        AsyncCache { keys: Vec::new(), retains: Vec::new(), states: Vec::new() }
    }

    /// Finds the slot index for `key`, if one exists.
    fn find_slot(&self, key: &ItemInfo) -> (r: Option<usize>)
        ensures
            match r {
                Some(i) => first_match(self.keys@, *key, 0) == Some(i as int) && i
                    < self.keys@.len(),
                None => first_match(self.keys@, *key, 0) is None,
            },
    {
        let n = self.keys.len();
        let mut i: usize = 0;
        while i < n
            invariant
                i <= n,
                n == self.keys@.len(),
                forall|j: int| 0 <= j < i ==> !loc_eq(#[trigger] self.keys@[j], *key),
            decreases n - i,
        {
            if item_info_eq(&self.keys[i], key) {
                proof {
                    lemma_first_match_advance(self.keys@, *key, 0, i as int);
                }
                return Some(i);
            }
            i = i + 1;
        }
        proof {
            lemma_first_match_advance(self.keys@, *key, 0, n as int);
        }
        None
    }

    /// Other keys see the same slot before and after a change that
    /// leaves `keys` unchanged and rewrites only slot `i`, which holds
    /// `key`.
    proof fn lemma_frame_same_keys(pre: &Self, post: &Self, key: ItemInfo, i: int)
        requires
            pre.wf(),
            post.keys@ == pre.keys@,
            post.retains@.len() == pre.retains@.len(),
            post.states@.len() == pre.states@.len(),
            0 <= i < pre.keys@.len(),
            loc_eq(pre.keys@[i], key),
            forall|j: int|
                0 <= j < pre.states@.len() && j != i ==> post.states@[j] == pre.states@[j]
                    && post.retains@[j] == pre.retains@[j],
        ensures
            forall|k: ItemInfo|
                !loc_eq(k, key) ==> #[trigger] post.spec_cell(k) == pre.spec_cell(k)
                    && post.spec_retain(k) == pre.spec_retain(k),
    {
        assert forall|k: ItemInfo| !loc_eq(k, key) implies #[trigger] post.spec_cell(k)
            == pre.spec_cell(k) && post.spec_retain(k) == pre.spec_retain(k) by {
            if first_match(pre.keys@, k, 0) is Some {
                let j = first_match(pre.keys@, k, 0).unwrap();
                lemma_first_match_some(pre.keys@, k, 0, j);
                if j == i {
                    lemma_loc_eq_sym(pre.keys@[i], k);
                    lemma_loc_eq_trans(k, pre.keys@[i], key);
                }
            }
        }
    }

    /// Polls the cell under `key`, creating it if absent. Exactly when
    /// the cell is new or idle the caller is told to start its
    /// production; a pending or ready cell never starts another, however
    /// often it is polled. `retain` is recorded only when a new cycle
    /// begins.
    pub fn read_or_request(&mut self, key: &ItemInfo, retain: bool) -> (r: PollStatus)
        requires
            old(self).wf(),
        ensures
            final(self).wf(),
            forall|k: ItemInfo|
                !loc_eq(k, *key) ==> #[trigger] final(self).spec_cell(k) == old(self).spec_cell(k)
                    && final(self).spec_retain(k) == old(self).spec_retain(k),
            match old(self).spec_cell(*key) {
                None => r == PollStatus::Start && final(self).spec_cell(*key) == Some(
                    CellState::<V>::Pending,
                ) && final(self).spec_retain(*key) == Some(retain),
                Some(CellState::Idle) => r == PollStatus::Start && final(self).spec_cell(*key)
                    == Some(CellState::<V>::Pending) && final(self).spec_retain(*key) == Some(
                    retain,
                ),
                Some(CellState::Pending) => r == PollStatus::Pending && *final(self) == *old(self),
                Some(CellState::Ready(_)) => r == PollStatus::Ready && *final(self) == *old(self),
            },
    {
        match self.find_slot(key) {
            Some(i) => {
                proof {
                    lemma_first_match_some(self.keys@, *key, 0, i as int);
                }
                match &self.states[i] {
                    CellState::Idle => {
                        self.states[i] = CellState::Pending;
                        self.retains[i] = retain;
                        proof {
                            Self::lemma_frame_same_keys(old(self), self, *key, i as int);
                        }
                        PollStatus::Start
                    },
                    CellState::Pending => PollStatus::Pending,
                    CellState::Ready(_) => PollStatus::Ready,
                }
            },
            None => {
                let ghost pre = *self;
                let nk = key.duplicate();
                let ghost nkg = nk;
                self.keys.push(nk);
                self.retains.push(retain);
                self.states.push(CellState::Pending);
                proof {
                    lemma_first_match_none(pre.keys@, *key, 0);
                    assert forall|k: ItemInfo| #[trigger] first_match(self.keys@, k, 0) == (
                        match first_match(pre.keys@, k, 0) {
                            Some(j) => Some(j),
                            None => if loc_eq(nkg, k) {
                                Some(pre.keys@.len() as int)
                            } else {
                                None
                            },
                        }) by {
                        lemma_first_match_push(pre.keys@, nkg, k, 0);
                    }
                    assert(self.wf()) by {
                        assert forall|i: int, j: int|
                            0 <= i < j < self.keys@.len() implies !loc_eq(
                            #[trigger] self.keys@[i],
                            #[trigger] self.keys@[j],
                        ) by {
                            if j == self.keys@.len() - 1 {
                                lemma_loc_eq_sym(pre.keys@[i], nkg);
                                if loc_eq(self.keys@[i], self.keys@[j]) {
                                    lemma_loc_eq_trans(pre.keys@[i], nkg, *key);
                                }
                            }
                        }
                    }
                    assert forall|k: ItemInfo| !loc_eq(k, *key) implies #[trigger] self.spec_cell(
                        k,
                    ) == pre.spec_cell(k) && self.spec_retain(k) == pre.spec_retain(k) by {
                        lemma_loc_eq_sym(nkg, k);
                        if loc_eq(nkg, k) {
                            lemma_loc_eq_sym(nkg, *key);
                            lemma_loc_eq_trans(k, nkg, *key);
                        }
                        if first_match(pre.keys@, k, 0) is Some {
                            let j = first_match(pre.keys@, k, 0).unwrap();
                            lemma_first_match_some(pre.keys@, k, 0, j);
                        }
                    }
                    assert(loc_eq(nkg, *key) && first_match(self.keys@, *key, 0) == Some(
                        pre.keys@.len() as int,
                    ));
                }
                PollStatus::Start
            },
        }
    }

    /// Hands a finished production's outcome to its cell: a pending cell
    /// stores it; any other cell, or no cell, is left untouched, so a
    /// stored result is never overwritten.
    pub fn fulfill(&mut self, key: &ItemInfo, result: Result<V, DataError>)
        requires
            old(self).wf(),
        ensures
            final(self).wf(),
            forall|k: ItemInfo|
                !loc_eq(k, *key) ==> #[trigger] final(self).spec_cell(k) == old(self).spec_cell(k)
                    && final(self).spec_retain(k) == old(self).spec_retain(k),
            old(self).spec_cell(*key) matches Some(CellState::Pending) ==> final(self).spec_cell(
                *key,
            ) == Some(CellState::<V>::Ready(result)) && final(self).spec_retain(*key) == old(
                self,
            ).spec_retain(*key),
            !(old(self).spec_cell(*key) matches Some(CellState::Pending)) ==> *final(self) == *old(
                self,
            ),
    {
        match self.find_slot(key) {
            Some(i) => {
                proof {
                    lemma_first_match_some(self.keys@, *key, 0, i as int);
                }
                match &self.states[i] {
                    CellState::Pending => {
                        self.states[i] = CellState::Ready(result);
                        proof {
                            Self::lemma_frame_same_keys(old(self), self, *key, i as int);
                        }
                    },
                    _ => {},
                }
            },
            None => {},
        }
    }

    /// The stored result under `key`, when its cell is ready.
    pub fn get(&self, key: &ItemInfo) -> (r: Option<&Result<V, DataError>>)
        requires
            self.wf(),
        ensures
            match self.spec_cell(*key) {
                Some(CellState::Ready(res)) => r matches Some(v) && *v == res,
                _ => r is None,
            },
    {
        match self.find_slot(key) {
            Some(i) => {
                match &self.states[i] {
                    CellState::Ready(res) => Some(res),
                    _ => None,
                }
            },
            None => None,
        }
    }

    /// Releases the cell under `key` after its owning node is discarded:
    /// a cell that does not retain its result returns to `Idle`,
    /// dropping the stored result; a retaining cell keeps it for instant
    /// reuse.
    pub fn discard(&mut self, key: &ItemInfo)
        requires
            old(self).wf(),
        ensures
            final(self).wf(),
            forall|k: ItemInfo|
                !loc_eq(k, *key) ==> #[trigger] final(self).spec_cell(k) == old(self).spec_cell(k)
                    && final(self).spec_retain(k) == old(self).spec_retain(k),
            old(self).spec_retain(*key) == Some(false) ==> final(self).spec_cell(*key) == Some(
                CellState::<V>::Idle,
            ),
            old(self).spec_retain(*key) != Some(false) ==> *final(self) == *old(self),
    {
        match self.find_slot(key) {
            Some(i) => {
                proof {
                    lemma_first_match_some(self.keys@, *key, 0, i as int);
                }
                if !self.retains[i] {
                    self.states[i] = CellState::Idle;
                    proof {
                        Self::lemma_frame_same_keys(old(self), self, *key, i as int);
                    }
                }
            },
            None => {},
        }
    }
}

} // verus!
