//! The viewer's document state apart from its window: the tree, the bytes, the children
//! loaded on demand, and how the messages of background workers change them.
use vstd::prelude::*;

use super::ast::{AstBuildMessage, AstNode};
use super::lazy::{resolve_request, resolve_walk, spliced, LazyLoadState};
use crate::text::{push_decimal, push_str, decimal};
use crate::viewer::hex::{fresh_view, with_diffs, HexViewState, HexViewer};

verus! {

/// The document shown by the viewer: its tree, bytes, selection, hex view and lazy loads.
pub struct UiState {
    pub ast_root: Vec<AstNode>,
    pub bytes: Vec<u8>,
    pub selected_ast: Option<Vec<usize>>,
    /// The path that should receive focus when the tree is next drawn.
    pub pending_focus: Option<Vec<usize>>,
    pub hex_viewer: HexViewer,
    /// The bytes rebuilt from the parsed document, to compare with `bytes`.
    pub rebuilt_bytes: Option<Vec<u8>>,
    /// Whether an initial parse is in progress.
    pub ast_building: bool,
    /// Names the byte source now loaded; messages about another one are stale.
    pub parse_generation: u64,
    pub lazy: LazyLoadState,
    /// How many children one request for more asks for.
    pub lazy_chunk_size: usize,
    /// Loads gathered while the tree is drawn: path, relative start, count.
    pub deferred_loads: Vec<(Vec<usize>, usize, usize)>,
}

/// A request for children that a background worker is to answer: for the document of
/// `generation`, `count` children of the node at `path` from `relative_start` within it,
/// which is `absolute_start` in the input, read from `mdx_track` where that is given.
pub struct ChildRequest {
    pub generation: u64,
    pub path: Vec<usize>,
    pub relative_start: usize,
    pub absolute_start: usize,
    pub count: usize,
    pub mdx_track: Option<usize>,
}

/// The state of the document as values.
pub struct UiView {
    pub ast_root: Seq<AstNode>,
    pub bytes: Seq<u8>,
    pub selected_ast: Option<Seq<usize>>,
    pub pending_focus: Option<Seq<usize>>,
    pub hex: HexViewState,
    pub rebuilt_bytes: Option<Seq<u8>>,
    pub ast_building: bool,
    pub parse_generation: u64,
    pub loaded: Map<Seq<usize>, Seq<AstNode>>,
    pub pending: Set<Seq<usize>>,
    pub lazy_chunk_size: usize,
    pub deferred_loads: Seq<(Vec<usize>, usize, usize)>,
}

/// A path as values.
pub open spec fn path_view(path: Option<Vec<usize>>) -> Option<Seq<usize>> {
    match path {
        Some(p) => Some(p@),
        None => None,
    }
}

/// Bytes as values.
pub open spec fn owned_bytes_view(bytes: Option<Vec<u8>>) -> Option<Seq<u8>> {
    match bytes {
        Some(b) => Some(b@),
        None => None,
    }
}

impl View for UiState {
    type V = UiView;

    open spec fn view(&self) -> UiView {
        UiView {
            ast_root: self.ast_root@,
            bytes: self.bytes@,
            selected_ast: path_view(self.selected_ast),
            pending_focus: path_view(self.pending_focus),
            hex: self.hex_viewer@,
            rebuilt_bytes: owned_bytes_view(self.rebuilt_bytes),
            ast_building: self.ast_building,
            parse_generation: self.parse_generation,
            loaded: self.lazy.loaded_view(),
            pending: self.lazy.pending_view(),
            lazy_chunk_size: self.lazy_chunk_size,
            deferred_loads: self.deferred_loads@,
        }
    }
}

/// The generation a message was produced for.
pub open spec fn message_generation(message: AstBuildMessage) -> u64 {
    match message {
        AstBuildMessage::Full { generation, .. } => generation,
        AstBuildMessage::Partial { generation, .. } => generation,
        AstBuildMessage::Diff { generation, .. } => generation,
        AstBuildMessage::Error { generation, .. } => generation,
    }
}

/// The children a message for `path` is spliced into: those loaded so far, or none.
pub open spec fn loaded_or_empty(loaded: Map<Seq<usize>, Seq<AstNode>>, path: Seq<usize>) -> Seq<
    AstNode,
> {
    if loaded.contains_key(path) {
        loaded[path]
    } else {
        Seq::empty()
    }
}

/// The document after a message of the generation it has loaded: a full tree replaces the
/// tree and forgets lazy loads; children are spliced in at their path and answer its request;
/// differences go to the hex view with the rebuilt bytes; an error becomes the only node.
/// Every part a message does not name stays as it was.
pub open spec fn message_applied(before: UiView, message: AstBuildMessage, after: UiView) -> bool {
    match message {
        AstBuildMessage::Full { nodes, .. } => after == UiView {
            ast_root: nodes@,
            loaded: Map::empty(),
            pending: Set::empty(),
            ast_building: false,
            ..before
        },
        AstBuildMessage::Partial { path, start, nodes, .. } => {
            &&& after == UiView { loaded: after.loaded, pending: before.pending.remove(path@), ..before }
            &&& after.loaded.dom() == before.loaded.dom().insert(path@)
            &&& forall|p: Seq<usize>|
                p != path@ && #[trigger] before.loaded.contains_key(p) ==> after.loaded[p]
                    == before.loaded[p]
            &&& spliced(loaded_or_empty(before.loaded, path@), start as int, nodes@, after.loaded[path@])
        },
        AstBuildMessage::Diff { diffs, rebuilt_bytes, .. } => after == UiView {
            hex: HexViewState {
                rebuilt_bytes: Some(rebuilt_bytes@),
                ..with_diffs(before.hex, diffs@)
            },
            rebuilt_bytes: Some(rebuilt_bytes@),
            ..before
        },
        AstBuildMessage::Error { message, .. } => {
            &&& after == UiView {
                ast_root: after.ast_root,
                loaded: Map::empty(),
                pending: Set::empty(),
                ast_building: false,
                ..before
            }
            &&& after.ast_root.len() == 1
            &&& after.ast_root[0].title@ == "Parse Error"@
            &&& after.ast_root[0].detail == message
            &&& after.ast_root[0].children@.len() == 0
            &&& after.ast_root[0].lazy_count is None
            &&& after.ast_root[0].byte_range is None
        },
    }
}

impl UiState {
    /// An empty document: no tree, no bytes, nothing selected or loaded, a fresh hex view,
    /// and requests of 200 children.
    pub fn new_empty() -> (state: Self)
        ensures
            state.lazy.wf(),
            state@ == UiState::new_empty_view(),
    {
        let state = UiState {
            ast_root: Vec::new(),
            bytes: Vec::new(),
            selected_ast: None,
            pending_focus: None,
            hex_viewer: HexViewer::new(),
            rebuilt_bytes: None,
            ast_building: false,
            parse_generation: 0,
            lazy: LazyLoadState::new(),
            lazy_chunk_size: 200,
            deferred_loads: Vec::new(),
        };
        proof {
            assert(state@.ast_root =~= seq![]);
            assert(state@.bytes =~= seq![]);
            assert(state@.deferred_loads =~= seq![]);
        }
        state
    }

    /// A document to show before any input: a `VGM Header` node with `Ident` and `Version`
    /// leaves, an empty `Commands` node loaded on demand, and the bytes 0 to 255.
    pub fn new_with_placeholders() -> (state: Self)
        ensures
            state.lazy.wf(),
            state@ == (UiView {
                ast_root: state@.ast_root,
                bytes: Seq::new(256, |i: int| i as u8),
                ..UiState::new_empty_view()
            }),
            state@.ast_root.len() == 2,
            state@.ast_root[0].title@ == "VGM Header"@,
            state@.ast_root[0].detail@ == "Header fields and metadata"@,
            state@.ast_root[0].children@.len() == 2,
            state@.ast_root[0].children@[0].title@ == "Ident"@,
            state@.ast_root[0].children@[0].detail@ == "VgmIdent: 'Vgm '"@,
            state@.ast_root[0].children@[1].title@ == "Version"@,
            state@.ast_root[0].children@[1].detail@ == "0x00000150"@,
            state@.ast_root[1].title@ == "Commands"@,
            state@.ast_root[1].detail@ == "No commands loaded"@,
            state@.ast_root[1].lazy_count == Some(0usize),
    {
        let mut leaves: Vec<AstNode> = Vec::new();
        leaves.push(AstNode::new("Ident", "VgmIdent: 'Vgm '"));
        leaves.push(AstNode::new("Version", "0x00000150"));
        let mut ast_root: Vec<AstNode> = Vec::new();
        ast_root.push(AstNode::new("VGM Header", "Header fields and metadata").with_children(leaves));
        ast_root.push(AstNode::new("Commands", "No commands loaded").with_lazy(0));
        let mut bytes: Vec<u8> = Vec::new();
        let mut value: u16 = 0;
        while value < 256
            invariant
                value <= 256,
                bytes@ == Seq::new(value as nat, |i: int| i as u8),
            decreases 256 - value,
        {
            bytes.push(value as u8);
            value += 1;
            proof {
                assert(bytes@ =~= Seq::new(value as nat, |i: int| i as u8));
            }
        }
        let mut state = UiState::new_empty();
        state.ast_root = ast_root;
        state.bytes = bytes;
        state
    }

    /// The view of `new_empty`.
    pub open spec fn new_empty_view() -> UiView {
        UiView {
            ast_root: seq![],
            bytes: seq![],
            selected_ast: None,
            pending_focus: None,
            hex: fresh_view(),
            rebuilt_bytes: None,
            ast_building: false,
            parse_generation: 0,
            loaded: Map::empty(),
            pending: Set::empty(),
            lazy_chunk_size: 200,
            deferred_loads: seq![],
        }
    }

    /// Ask for `count` children of the node at `path` from `start` on: nothing happens while
    /// a request for `path` is in flight or there are no bytes; otherwise the request is
    /// marked in flight and returned for a worker to answer.
    pub fn request_children(&mut self, path: Vec<usize>, start: usize, count: usize) -> (request:
        Option<ChildRequest>)
        requires
            old(self).lazy.wf(),
        ensures
            final(self).lazy.wf(),
            request is None <==> (old(self)@.pending.contains(path@) || old(self)@.bytes.len()
                == 0),
            request is None ==> final(self)@ == old(self)@,
            request matches Some(r) ==> {
                let (base, track) = resolve_walk(path@, old(self)@.ast_root, 0, None);
                &&& final(self)@ == UiView { pending: old(self)@.pending.insert(path@), ..old(self)@ }
                &&& r.generation == old(self).parse_generation
                &&& r.path@ == path@
                &&& r.relative_start == start
                &&& r.count == count
                &&& r.absolute_start == (if base + start > usize::MAX {
                    usize::MAX as int
                } else {
                    base + start
                })
                &&& r.mdx_track == track
            },
    {
        if self.lazy.is_pending(path.as_slice()) {
            return None;
        }
        if self.bytes.len() == 0 {
            return None;
        }
        self.lazy.begin_request(path.as_slice());
        let resolved = resolve_request(path.as_slice(), start, self.ast_root.as_slice());
        Some(
            ChildRequest {
                generation: self.parse_generation,
                path,
                relative_start: start,
                absolute_start: resolved.absolute_start,
                count,
                mdx_track: resolved.mdx_track,
            },
        )
    }
}

/// Apply a background worker's message: one for another generation than the document's is
/// stale and changes nothing; otherwise the document changes as `message_applied` says.
pub fn apply_message(state: &mut UiState, message: AstBuildMessage)
    requires
        old(state).lazy.wf(),
        message matches AstBuildMessage::Partial { start, nodes, .. } ==> start + nodes@.len()
            <= usize::MAX,
    ensures
        final(state).lazy.wf(),
        message_generation(message) != old(state).parse_generation ==> final(state)@ == old(
            state,
        )@,
        message_generation(message) == old(state).parse_generation ==> message_applied(
            old(state)@,
            message,
            final(state)@,
        ),
{
    match message {
        AstBuildMessage::Full { generation, nodes } => {
            if generation != state.parse_generation {
                return;
            }
            state.ast_root = nodes;
            state.lazy.clear();
            state.ast_building = false;
        },
        AstBuildMessage::Partial { generation, path, start, nodes } => {
            if generation != state.parse_generation {
                return;
            }
            state.lazy.apply_partial(path.as_slice(), start, nodes);
        },
        AstBuildMessage::Diff { generation, diffs, rebuilt_bytes } => {
            if generation != state.parse_generation {
                return;
            }
            state.hex_viewer.set_diff_ranges(diffs);
            state.hex_viewer.set_rebuilt_bytes(Some(rebuilt_bytes.clone()));
            state.rebuilt_bytes = Some(rebuilt_bytes);
        },
        AstBuildMessage::Error { generation, message } => {
            if generation != state.parse_generation {
                return;
            }
            let mut nodes: Vec<AstNode> = Vec::new();
            nodes.push(AstNode::from_strings("Parse Error".to_string(), message));
            state.ast_root = nodes;
            state.ast_building = false;
            state.lazy.clear();
        },
    }
}

/// Whether a load for `path` is already waiting among `loads`.
pub open spec fn load_waiting(loads: Seq<(Vec<usize>, usize, usize)>, path: Seq<usize>) -> bool {
    exists|i: int| 0 <= i < loads.len() && (#[trigger] loads[i]).0@ == path
}

/// The document after a load of `count` children of `path` from `start` is queued: with a
/// load for `path` already waiting, as it was; otherwise with the load added last.
pub open spec fn load_queued(
    before: UiView,
    path: Seq<usize>,
    start: usize,
    count: usize,
    after: UiView,
) -> bool {
    if load_waiting(before.deferred_loads, path) {
        after == before
    } else {
        &&& after == UiView { deferred_loads: after.deferred_loads, ..before }
        &&& after.deferred_loads.len() == before.deferred_loads.len() + 1
        &&& after.deferred_loads.take(before.deferred_loads.len() as int) == before.deferred_loads
        &&& after.deferred_loads.last().0@ == path
        &&& after.deferred_loads.last().1 == start
        &&& after.deferred_loads.last().2 == count
    }
}

/// How many children of `path` have arrived.
pub open spec fn loaded_count(state: UiView, path: Seq<usize>) -> int {
    loaded_or_empty(state.loaded, path).len() as int
}

impl UiState {
    /// Queue a load of `count` children of `path` from `start`, to be requested once the tree
    /// is drawn; one load per path waits at a time.
    pub fn queue_load(&mut self, path: &[usize], start: usize, count: usize)
        ensures
            load_queued(old(self)@, path@, start, count, final(self)@),
            final(self).lazy == old(self).lazy,
    {
        let mut index: usize = 0;
        while index < self.deferred_loads.len()
            invariant
                index <= self.deferred_loads@.len(),
                forall|i: int| 0 <= i < index ==> (#[trigger] self.deferred_loads@[i]).0@ != path@,
            decreases self.deferred_loads@.len() - index,
        {
            if crate::debugger::lazy::same_path(self.deferred_loads[index].0.as_slice(), path) {
                return;
            }
            index += 1;
        }
        let ghost before = self.deferred_loads@;
        self.deferred_loads.push((vstd::slice::slice_to_vec(path), start, count));
        proof {
            assert(self.deferred_loads@.take(before.len() as int) =~= before);
        }
    }

    /// A node whose children load on demand is opened: with none arrived and none in
    /// flight, all `total` are queued from the first.
    pub fn load_on_open(&mut self, path: &[usize], total: usize)
        requires
            old(self).lazy.wf(),
        ensures
            final(self).lazy == old(self).lazy,
            if loaded_count(old(self)@, path@) == 0 && !old(self)@.pending.contains(path@) {
                load_queued(old(self)@, path@, 0, total, final(self)@)
            } else {
                final(self)@ == old(self)@
            },
    {
        if self.lazy.loaded(path).len() == 0 && !self.lazy.is_pending(path) {
            self.queue_load(path, 0, total);
        }
    }

    /// "Show more" is pressed on a node with `total` children loaded on demand: while fewer
    /// have arrived and none are in flight, the next `lazy_chunk_size` are queued.
    pub fn load_more(&mut self, path: &[usize], total: usize)
        requires
            old(self).lazy.wf(),
        ensures
            final(self).lazy == old(self).lazy,
            if loaded_count(old(self)@, path@) < total && !old(self)@.pending.contains(path@) {
                load_queued(
                    old(self)@,
                    path@,
                    loaded_count(old(self)@, path@) as usize,
                    old(self).lazy_chunk_size,
                    final(self)@,
                )
            } else {
                final(self)@ == old(self)@
            },
    {
        let loaded = self.lazy.loaded(path).len();
        if loaded < total && !self.lazy.is_pending(path) {
            let chunk = self.lazy_chunk_size;
            self.queue_load(path, loaded, chunk);
        }
    }

    /// The queued loads, in order, which are no longer queued.
    pub fn take_deferred_loads(&mut self) -> (loads: Vec<(Vec<usize>, usize, usize)>)
        ensures
            loads@ == old(self)@.deferred_loads,
            final(self)@ == (UiView { deferred_loads: seq![], ..old(self)@ }),
            final(self).lazy == old(self).lazy,
    {
        let mut loads: Vec<(Vec<usize>, usize, usize)> = Vec::new();
        std::mem::swap(&mut loads, &mut self.deferred_loads);
        proof {
            assert(self.deferred_loads@ =~= seq![]);
        }
        loads
    }
}

/// The label of the button that loads more children: `Show more (loaded/total)`.
pub fn show_more_label(loaded: usize, total: usize) -> (label: String)
    ensures
        label@ == "Show more ("@ + decimal(loaded as nat) + "/"@ + decimal(total as nat) + ")"@,
{
    let mut label = String::new();
    push_str(&mut label, "Show more (");
    push_decimal(&mut label, loaded as u64);
    push_str(&mut label, "/");
    push_decimal(&mut label, total as u64);
    push_str(&mut label, ")");
    label
}

} // verus!
