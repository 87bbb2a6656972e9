//! Children loaded on demand: what has arrived for each tree path, and which paths wait.
use vstd::prelude::*;

use super::ast::{lemma_same_tree_reflexive, reversed, same_tree, AstNode};

verus! {

broadcast use vstd::std_specs::vec::group_vec_axioms;

/// The children loaded so far for each tree path, and the paths with a request in flight.
pub struct LazyLoadState {
    /// Loaded children by tree path; no path occurs twice.
    pub loaded_nodes: Vec<(Vec<usize>, Vec<AstNode>)>,
    pending_requests: Vec<Vec<usize>>,
}

/// The absolute start of a request, and the MDX track it reads from.
pub struct ResolvedLazyRequest {
    pub absolute_start: usize,
    pub mdx_track: Option<usize>,
}

/// A placeholder for a child that has not arrived while later ones have.
pub open spec fn is_placeholder(node: AstNode) -> bool {
    &&& node.title@ == "<placeholder>"@
    &&& node.detail@ == ""@
    &&& node.children@.len() == 0
    &&& node.lazy_count is None
    &&& node.byte_range is None
}

/// The children of a path after `nodes` arrive for positions `start..`: they replace what was
/// there, extend the list, and placeholders fill any gap before `start`.
pub open spec fn spliced(entry: Seq<AstNode>, start: int, nodes: Seq<AstNode>, result: Seq<AstNode>) -> bool {
    &&& result.len() == (if entry.len() > start + nodes.len() {
        entry.len() as int
    } else {
        start + nodes.len()
    })
    &&& forall|i: int|
        0 <= i < result.len() ==> (if start <= i < start + nodes.len() {
            #[trigger] result[i] == nodes[i - start]
        } else if i < entry.len() {
            result[i] == entry[i]
        } else {
            is_placeholder(result[i])
        })
}

impl LazyLoadState {
    /// The paths whose children have arrived, each with its children.
    pub closed spec fn loaded_view(&self) -> Map<Seq<usize>, Seq<AstNode>> {
        Map::new(
            |path: Seq<usize>| exists|i: int| 0 <= i < self.loaded_nodes@.len() && self.loaded_nodes@[i].0@ == path,
            |path: Seq<usize>| {
                let i = choose|i: int| 0 <= i < self.loaded_nodes@.len() && self.loaded_nodes@[i].0@ == path;
                self.loaded_nodes@[i].1@
            },
        )
    }

    /// The paths with a request in flight.
    pub closed spec fn pending_view(&self) -> Set<Seq<usize>> {
        Set::new(|path: Seq<usize>| exists|i: int| 0 <= i < self.pending_requests@.len() && self.pending_requests@[i]@ == path)
    }

    /// No path occurs twice, among the loaded ones or among those in flight.
    pub closed spec fn wf(&self) -> bool {
        &&& forall|a: int, b: int|
            0 <= a < b < self.loaded_nodes@.len() ==> (#[trigger] self.loaded_nodes@[a]).0@
                != (#[trigger] self.loaded_nodes@[b]).0@
        &&& forall|a: int, b: int|
            0 <= a < b < self.pending_requests@.len() ==> (#[trigger] self.pending_requests@[a])@
                != (#[trigger] self.pending_requests@[b])@
    }

    /// Nothing loaded and nothing in flight.
    pub fn new() -> (state: Self)
        ensures
            state.wf(),
            state.loaded_view() == Map::<Seq<usize>, Seq<AstNode>>::empty(),
            state.pending_view() == Set::<Seq<usize>>::empty(),
    {
        let state = LazyLoadState { loaded_nodes: Vec::new(), pending_requests: Vec::new() };
        proof {
            assert(state.loaded_view() =~= Map::<Seq<usize>, Seq<AstNode>>::empty());
            assert(state.pending_view() =~= Set::<Seq<usize>>::empty());
        }
        state
    }

    /// Forget every loaded child and every request.
    pub fn clear(&mut self)
        ensures
            final(self).wf(),
            final(self).loaded_view() == Map::<Seq<usize>, Seq<AstNode>>::empty(),
            final(self).pending_view() == Set::<Seq<usize>>::empty(),
    {
        self.loaded_nodes = Vec::new();
        self.pending_requests = Vec::new();
        proof {
            assert(self.loaded_view() =~= Map::<Seq<usize>, Seq<AstNode>>::empty());
            assert(self.pending_view() =~= Set::<Seq<usize>>::empty());
        }
    }

    fn pending_index(&self, path: &[usize]) -> (r: Option<usize>)
        ensures
            r matches Some(i) ==> i < self.pending_requests@.len()
                && self.pending_requests@[i as int]@ == path@,
            r is None ==> !self.pending_view().contains(path@),
    {
        let mut index: usize = 0;
        while index < self.pending_requests.len()
            invariant
                index <= self.pending_requests@.len(),
                forall|i: int| 0 <= i < index ==> self.pending_requests@[i]@ != path@,
            decreases self.pending_requests@.len() - index,
        {
            if same_path(self.pending_requests[index].as_slice(), path) {
                return Some(index);
            }
            index += 1;
        }
        None
    }

    /// Whether a request for `path` is in flight.
    pub fn is_pending(&self, path: &[usize]) -> (r: bool)
        ensures
            r == self.pending_view().contains(path@),
    {
        self.pending_index(path).is_some()
    }

    /// Start a request for `path` unless one is in flight; whether it was started.
    pub fn begin_request(&mut self, path: &[usize]) -> (started: bool)
        ensures
            started == !old(self).pending_view().contains(path@),
            final(self).pending_view() == old(self).pending_view().insert(path@),
            final(self).loaded_view() == old(self).loaded_view(),
            old(self).wf() ==> final(self).wf(),
    {
        if self.is_pending(path) {
            proof {
                assert(self.pending_view() =~= self.pending_view().insert(path@));
            }
            return false;
        }
        let ghost before = *self;
        self.pending_requests.push(vstd::slice::slice_to_vec(path));
        proof {
            assert(self.pending_view() =~= before.pending_view().insert(path@)) by {
                assert forall|p: Seq<usize>| self.pending_view().contains(p) implies before.pending_view().insert(path@).contains(p) by {
                    let i = choose|i: int| 0 <= i < self.pending_requests@.len() && self.pending_requests@[i]@ == p;
                    if i < before.pending_requests@.len() {
                        assert(self.pending_requests@[i] == before.pending_requests@[i]);
                    }
                }
                assert forall|p: Seq<usize>| before.pending_view().insert(path@).contains(p) implies self.pending_view().contains(p) by {
                    if p == path@ {
                        assert(self.pending_requests@[self.pending_requests@.len() - 1]@ == p);
                    } else {
                        let i = choose|i: int| 0 <= i < before.pending_requests@.len() && before.pending_requests@[i]@ == p;
                        assert(self.pending_requests@[i] == before.pending_requests@[i]);
                    }
                }
            }
            assert(self.loaded_view() =~= before.loaded_view());
            if before.wf() {
                assert forall|a: int, b: int|
                    0 <= a < b < self.pending_requests@.len() implies (
                    #[trigger] self.pending_requests@[a])@ != (#[trigger] self.pending_requests@[b])@ by {
                    assert(self.pending_requests@[a] == before.pending_requests@[a]);
                    if b < before.pending_requests@.len() {
                        assert(self.pending_requests@[b] == before.pending_requests@[b]);
                    } else {
                        assert(!before.pending_view().contains(path@));
                    }
                }
            }
        }
        true
    }

    /// Mark the request for `path` as answered.
    pub fn complete_request(&mut self, path: &[usize])
        requires
            old(self).wf(),
        ensures
            final(self).pending_view() == old(self).pending_view().remove(path@),
            final(self).loaded_view() == old(self).loaded_view(),
            final(self).wf(),
    {
        let ghost before = *self;
        match self.pending_index(path) {
            None => {
                proof {
                    assert(self.pending_view() =~= self.pending_view().remove(path@));
                }
            },
            Some(index) => {
                self.pending_requests.remove(index);
                proof {
                    let old_list = before.pending_requests@;
                    let new_list = self.pending_requests@;
                    assert(new_list =~= old_list.remove(index as int));
                    assert forall|p: Seq<usize>| self.pending_view().contains(p) <==> before.pending_view().remove(path@).contains(p) by {
                        if self.pending_view().contains(p) {
                            let k = choose|k: int| 0 <= k < new_list.len() && new_list[k]@ == p;
                            if k < index {
                                assert(new_list[k] == old_list[k]);
                            } else {
                                assert(new_list[k] == old_list[k + 1]);
                            }
                            assert(p != path@);
                        }
                        if before.pending_view().remove(path@).contains(p) {
                            let k = choose|k: int| 0 <= k < old_list.len() && old_list[k]@ == p;
                            assert(k != index);
                            if k < index {
                                assert(new_list[k] == old_list[k]);
                            } else {
                                assert(new_list[k - 1] == old_list[k]);
                            }
                        }
                    }
                    assert(self.pending_view() =~= before.pending_view().remove(path@));
                    assert(self.loaded_view() =~= before.loaded_view());
                    assert forall|a: int, b: int|
                        0 <= a < b < new_list.len() implies (#[trigger] new_list[a])@ != (#[trigger] new_list[b])@ by {
                        let oa = if a < index { a } else { a + 1 };
                        let ob = if b < index { b } else { b + 1 };
                        assert(new_list[a] == old_list[oa]);
                        assert(new_list[b] == old_list[ob]);
                    }
                }
            },
        }
    }
}

impl LazyLoadState {
    proof fn lemma_loaded_entry(&self, i: int)
        requires
            self.wf(),
            0 <= i < self.loaded_nodes@.len(),
        ensures
            self.loaded_view().contains_key(self.loaded_nodes@[i].0@),
            self.loaded_view()[self.loaded_nodes@[i].0@] == self.loaded_nodes@[i].1@,
    {
        let path = self.loaded_nodes@[i].0@;
        let j = choose|j: int| 0 <= j < self.loaded_nodes@.len() && self.loaded_nodes@[j].0@ == path;
        if j != i {
            if j < i {
                assert(self.loaded_nodes@[j].0@ != self.loaded_nodes@[i].0@);
            } else {
                assert(self.loaded_nodes@[i].0@ != self.loaded_nodes@[j].0@);
            }
        }
    }

    fn loaded_index(&self, path: &[usize]) -> (r: Option<usize>)
        ensures
            r matches Some(i) ==> i < self.loaded_nodes@.len() && self.loaded_nodes@[i as int].0@
                == path@,
            r is None ==> !self.loaded_view().contains_key(path@),
    {
        let mut index: usize = 0;
        while index < self.loaded_nodes.len()
            invariant
                index <= self.loaded_nodes@.len(),
                forall|i: int| 0 <= i < index ==> self.loaded_nodes@[i].0@ != path@,
            decreases self.loaded_nodes@.len() - index,
        {
            if same_path(self.loaded_nodes[index].0.as_slice(), path) {
                return Some(index);
            }
            index += 1;
        }
        None
    }

    /// A copy of the children loaded for `path`; none when nothing has arrived.
    pub fn loaded(&self, path: &[usize]) -> (nodes: Vec<AstNode>)
        requires
            self.wf(),
        ensures
            nodes@.len() == (if self.loaded_view().contains_key(path@) {
                self.loaded_view()[path@].len()
            } else {
                0
            }),
            forall|i: int|
                0 <= i < nodes@.len() ==> same_tree(#[trigger] nodes@[i], self.loaded_view()[path@][i]),
    {
        match self.loaded_index(path) {
            Some(index) => {
                proof {
                    self.lemma_loaded_entry(index as int);
                }
                let copy = self.loaded_nodes[index].1.clone();
                proof {
                    let entry = self.loaded_nodes@[index as int].1@;
                    assert forall|i: int| 0 <= i < copy@.len() implies same_tree(
                        #[trigger] copy@[i],
                        entry[i],
                    ) by {
                        if copy@[i] == entry[i] {
                            lemma_same_tree_reflexive(entry[i]);
                        }
                    }
                }
                copy
            },
            None => Vec::new(),
        }
    }

    /// Store `nodes` as the children of `path` from position `start` on, mark the request for
    /// `path` answered, and return how many children `path` now has.
    pub fn apply_partial(&mut self, path: &[usize], start: usize, nodes: Vec<AstNode>) -> (length:
        usize)
        requires
            old(self).wf(),
            start + nodes@.len() <= usize::MAX,
        ensures
            final(self).wf(),
            final(self).loaded_view().dom() == old(self).loaded_view().dom().insert(path@),
            forall|p: Seq<usize>|
                p != path@ && #[trigger] old(self).loaded_view().contains_key(p) ==> final(self).loaded_view()[p] == old(self).loaded_view()[p],
            spliced(
                if old(self).loaded_view().contains_key(path@) {
                    old(self).loaded_view()[path@]
                } else {
                    Seq::<AstNode>::empty()
                },
                start as int,
                nodes@,
                final(self).loaded_view()[path@],
            ),
            length == final(self).loaded_view()[path@].len(),
            final(self).pending_view() == old(self).pending_view().remove(path@),
    {
        let ghost before = *self;
        let length = match self.loaded_index(path) {
            Some(index) => {
                proof {
                    self.lemma_loaded_entry(index as int);
                }
                let (key, entry) = self.loaded_nodes.remove(index);
                let result = splice_nodes(entry, start, nodes);
                let length = result.len();
                let ghost spliced_nodes = result@;
                self.loaded_nodes.insert(index, (key, result));
                proof {
                    let old_list = before.loaded_nodes@;
                    let new_list = self.loaded_nodes@;
                    assert(new_list =~= old_list.update(index as int, (key, new_list[index as int].1)));
                    assert(self.wf()) by {
                        assert forall|a: int, b: int|
                            0 <= a < b < new_list.len() implies (#[trigger] new_list[a]).0@
                            != (#[trigger] new_list[b]).0@ by {
                            assert(new_list[a].0@ == old_list[a].0@);
                            assert(new_list[b].0@ == old_list[b].0@);
                        }
                    }
                    self.lemma_loaded_entry(index as int);
                    assert forall|p: Seq<usize>| #[trigger] self.loaded_view().contains_key(p) <==> before.loaded_view().contains_key(p) by {
                        if self.loaded_view().contains_key(p) {
                            let j = choose|j: int| 0 <= j < new_list.len() && new_list[j].0@ == p;
                            assert(old_list[j].0@ == p);
                        }
                        if before.loaded_view().contains_key(p) {
                            let j = choose|j: int| 0 <= j < old_list.len() && old_list[j].0@ == p;
                            assert(new_list[j].0@ == p);
                        }
                    }
                    assert(self.loaded_view().dom() =~= before.loaded_view().dom().insert(path@));
                    assert forall|p: Seq<usize>|
                        p != path@ && #[trigger] before.loaded_view().contains_key(p) implies self.loaded_view()[p]
                        == before.loaded_view()[p] by {
                        let j = choose|j: int| 0 <= j < old_list.len() && old_list[j].0@ == p;
                        before.lemma_loaded_entry(j);
                        self.lemma_loaded_entry(j);
                        assert(j != index);
                        assert(new_list[j] == old_list[j]);
                    }
                }
                length
            },
            None => {
                let result = splice_nodes(Vec::new(), start, nodes);
                let length = result.len();
                self.loaded_nodes.push((vstd::slice::slice_to_vec(path), result));
                proof {
                    let old_list = before.loaded_nodes@;
                    let new_list = self.loaded_nodes@;
                    let last = new_list.len() - 1;
                    assert forall|j: int| 0 <= j < old_list.len() implies (#[trigger] old_list[j]).0@ != path@ by {
                        before.lemma_loaded_entry(j);
                    }
                    assert(self.wf()) by {
                        assert forall|a: int, b: int|
                            0 <= a < b < new_list.len() implies (#[trigger] new_list[a]).0@
                            != (#[trigger] new_list[b]).0@ by {
                            assert(new_list[a] == old_list[a]);
                            if b < old_list.len() {
                                assert(new_list[b] == old_list[b]);
                            }
                        }
                    }
                    self.lemma_loaded_entry(last);
                    assert forall|p: Seq<usize>| #[trigger] self.loaded_view().contains_key(p) <==> (before.loaded_view().contains_key(p) || p == path@) by {
                        if self.loaded_view().contains_key(p) {
                            let j = choose|j: int| 0 <= j < new_list.len() && new_list[j].0@ == p;
                            if j < old_list.len() {
                                assert(new_list[j] == old_list[j]);
                            }
                        }
                        if before.loaded_view().contains_key(p) {
                            let j = choose|j: int| 0 <= j < old_list.len() && old_list[j].0@ == p;
                            assert(new_list[j] == old_list[j]);
                        }
                    }
                    assert(self.loaded_view().dom() =~= before.loaded_view().dom().insert(path@));
                    assert forall|p: Seq<usize>|
                        p != path@ && #[trigger] before.loaded_view().contains_key(p) implies self.loaded_view()[p]
                        == before.loaded_view()[p] by {
                        let j = choose|j: int| 0 <= j < old_list.len() && old_list[j].0@ == p;
                        before.lemma_loaded_entry(j);
                        assert(new_list[j] == old_list[j]);
                        self.lemma_loaded_entry(j);
                    }
                }
                length
            },
        };
        self.complete_request(path);
        length
    }
}

/// `entry` with `nodes` written from position `start` on, placeholders filling any gap.
fn splice_nodes(entry: Vec<AstNode>, start: usize, nodes: Vec<AstNode>) -> (result: Vec<AstNode>)
    requires
        start + nodes@.len() <= usize::MAX,
    ensures
        spliced(entry@, start as int, nodes@, result@),
{
    let ghost old_entry = entry@;
    let mut entry = entry;
    while entry.len() < start
        invariant
            entry@.len() <= start || entry@.len() == old_entry.len(),
            old_entry.len() <= entry@.len(),
            forall|i: int| 0 <= i < entry@.len() ==> (if i < old_entry.len() {
                #[trigger] entry@[i] == old_entry[i]
            } else {
                is_placeholder(entry@[i])
            }),
        decreases start - entry@.len(),
    {
        entry.push(AstNode::new("<placeholder>", ""));
    }
    let padded: usize = entry.len();
    let count = nodes.len();
    let ghost arriving = nodes@;
    let mut pending = reversed(nodes);
    let mut k: usize = 0;
    while k < count
        invariant
            k <= count == arriving.len(),
            start + count <= usize::MAX,
            padded >= start,
            padded == (if old_entry.len() > start {
                old_entry.len() as int
            } else {
                start as int
            }),
            pending@.len() == count - k,
            forall|j: int| 0 <= j < pending@.len() ==> pending@[j] == arriving[count - 1 - j],
            entry@.len() == (if padded > start + k {
                padded as int
            } else {
                start + k
            }),
            forall|i: int|
                0 <= i < entry@.len() ==> (if start <= i < start + k {
                    #[trigger] entry@[i] == arriving[i - start]
                } else if i < old_entry.len() {
                    entry@[i] == old_entry[i]
                } else {
                    is_placeholder(entry@[i])
                }),
        decreases count - k,
    {
        let node = pending.pop().unwrap();
        let at = start + k;
        if at < entry.len() {
            entry.set(at, node);
        } else {
            entry.push(node);
        }
        k += 1;
    }
    entry
}

/// Walking `path` down from `nodes`: the last lazy start and lazy track met on the way
/// (`base` and `track` until one is met). The walk stops early at an index past the children.
pub open spec fn resolve_walk(path: Seq<usize>, nodes: Seq<AstNode>, base: usize, track: Option<
    usize,
>) -> (usize, Option<usize>)
    decreases path.len(),
{
    if path.len() == 0 || path[0] >= nodes.len() {
        (base, track)
    } else {
        let node = nodes[path[0] as int];
        resolve_walk(
            path.drop_first(),
            node.children@,
            match node.lazy_start {
                Some(start) => start,
                None => base,
            },
            match node.lazy_track {
                Some(t) => Some(t),
                None => track,
            },
        )
    }
}

/// Where a request for children of the node at `path` starts in absolute terms, and which MDX
/// track it reads: the innermost lazy start and lazy track along the path.
pub fn resolve_request(path: &[usize], start: usize, roots: &[AstNode]) -> (r: ResolvedLazyRequest)
    ensures
        ({
            let (base, track) = resolve_walk(path@, roots@, 0, None);
            r.absolute_start == (if base + start > usize::MAX {
                usize::MAX as int
            } else {
                base + start
            }) && r.mdx_track == track
        }),
{
    let mut base_start: usize = 0;
    let mut mdx_track: Option<usize> = None;
    let mut nodes: &[AstNode] = roots;
    let mut index: usize = 0;
    proof {
        assert(path@.skip(0) =~= path@);
    }
    while index < path.len() && path[index] < nodes.len()
        invariant
            index <= path@.len(),
            resolve_walk(path@, roots@, 0, None) == resolve_walk(
                path@.skip(index as int),
                nodes@,
                base_start,
                mdx_track,
            ),
        decreases path@.len() - index,
    {
        let position = path[index];
        proof {
            assert(path@.skip(index as int).drop_first() =~= path@.skip(index + 1));
            assert(path@.skip(index as int)[0] == position);
        }
        let node = &nodes[position];
        match node.lazy_start {
            Some(lazy_start) => {
                base_start = lazy_start;
            },
            None => {},
        }
        match node.lazy_track {
            Some(track) => {
                mdx_track = Some(track);
            },
            None => {},
        }
        nodes = node.children.as_slice();
        index += 1;
    }
    proof {
        if index == path@.len() {
            assert(path@.skip(index as int) =~= Seq::<usize>::empty());
        } else {
            assert(path@.skip(index as int)[0] == path@[index as int]);
        }
    }
    ResolvedLazyRequest { absolute_start: base_start.saturating_add(start), mdx_track }
}

/// Whether two paths are equal.
pub(crate) fn same_path(a: &[usize], b: &[usize]) -> (r: bool)
    ensures
        r == (a@ == b@),
{
    if a.len() != b.len() {
        return false;
    }
    let mut index: usize = 0;
    while index < a.len()
        invariant
            a@.len() == b@.len(),
            index <= a@.len(),
            forall|i: int| 0 <= i < index ==> a@[i] == b@[i],
        decreases a@.len() - index,
    {
        if a[index] != b[index] {
            return false;
        }
        index += 1;
    }
    proof {
        assert(a@ =~= b@);
    }
    true
}

} // verus!
