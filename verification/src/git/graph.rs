//! Lane layout of the commit graph.
//!
//! Commits arrive newest first. Each commit takes a column (a lane); its first
//! parent continues the lane below it, further parents get lanes of their own
//! near the merge. Column 0 is kept for the first-parent chain of `HEAD`.
//! Stashes are laid out like commits whose only parent is their base commit;
//! their connecting lines are dashed.
use vstd::prelude::*;
use vstd::hash_map::StringHashMap;

use crate::error::TrunkError;
use crate::git::read_model::{prefix7, short_oid};
use crate::git::repo::{
    RefRecord, StashRecord, commit_time_name, git_failure, time_by_id,
    author_by_id, body_by_id, commit_author_name, commit_body_name, commit_summary_name, head_branch_name,
    head_target, is_oid_hex, opt_view, parents_by_id, summary_by_id, next_oid, next_reference, peeled_commit,
    push_glob, reference_record, references, revwalk, sort_topological_by_time, stash_list,
};
use crate::git::types::{
    EdgeRow, EdgeType, GraphCommit, GraphEdge, GraphResult, LabelView, RefLabel, RefType,
    edge_views, label_views, string_views,
};

verus! {

/// A lane: the commit it is waiting for, and whether its line is dashed.
pub type SlotView = Option<(Seq<char>, bool)>;

pub open spec fn slot_views(v: Seq<Option<(String, bool)>>) -> Seq<SlotView> {
    v.map_values(
        |s: Option<(String, bool)>|
            match s {
                Some((o, d)) => Some((o@, d)),
                None => None,
            },
    )
}

/// The commit an open lane waits for.
pub open spec fn slot_oid(x: SlotView) -> Seq<char> {
    match x {
        Some((o, _)) => o,
        None => Seq::empty(),
    }
}

/// Whether an open lane's line is dashed.
pub open spec fn slot_dashed(x: SlotView) -> bool {
    match x {
        Some((_, d)) => d,
        None => false,
    }
}

/// Whether column `c` holds no lane.
pub open spec fn is_free(slots: Seq<SlotView>, c: int) -> bool {
    c >= slots.len() || slots[c] is None
}

/// The spiral search `target + delta, target - delta, target + delta + 1, ...`
/// for a free column; a column past the end is always free.
pub open spec fn spiral(slots: Seq<SlotView>, target: int, min_col: int, delta: int) -> int
    decreases slots.len() - target - delta,
{
    let right = target + delta;
    if right >= slots.len() || slots[right] is None {
        right
    } else if delta <= target && target - delta >= min_col && slots[target - delta] is None {
        target - delta
    } else if delta >= 1 {
        spiral(slots, target, min_col, delta + 1)
    } else {
        right
    }
}

/// The free column nearest to `target`, not below `min_col` (the target
/// itself first, then outward, right before left).
pub open spec fn free_near(slots: Seq<SlotView>, target: int, min_col: int) -> int {
    if target >= min_col && is_free(slots, target) {
        target
    } else {
        spiral(slots, target, min_col, 1)
    }
}

pub proof fn lemma_spiral(slots: Seq<SlotView>, target: int, min_col: int, delta: int)
    requires
        0 <= target,
        0 <= min_col,
        1 <= delta,
        target + delta <= slots.len(),
    ensures
        ({
            let c = spiral(slots, target, min_col, delta);
            &&& 0 <= c <= slots.len()
            &&& is_free(slots, c)
            &&& c >= min_col || c > target
        }),
    decreases slots.len() - target - delta,
{
    let right = target + delta;
    if !(right >= slots.len() || slots[right] is None) && !(delta <= target && target - delta
        >= min_col && slots[target - delta] is None) {
        lemma_spiral(slots, target, min_col, delta + 1);
    }
}

pub proof fn lemma_free_near(slots: Seq<SlotView>, target: int, min_col: int)
    requires
        0 <= min_col <= target,
        target < slots.len() || is_free(slots, target),
    ensures
        0 <= free_near(slots, target, min_col) <= (if target < slots.len() { slots.len() as int } else { target }),
        is_free(slots, free_near(slots, target, min_col)),
        free_near(slots, target, min_col) >= min_col,
{
    if !(target >= min_col && is_free(slots, target)) {
        lemma_spiral(slots, target, min_col, 1);
    }
}

/// `v` extended with `None` so that index `c` exists.
pub open spec fn grow<T>(v: Seq<Option<T>>, c: int) -> Seq<Option<T>> {
    if c < v.len() {
        v
    } else {
        v + Seq::new((c + 1 - v.len()) as nat, |i: int| None)
    }
}

fn grow_to<T>(v: &mut Vec<Option<T>>, c: usize)
    requires
        c < usize::MAX,
    ensures
        final(v)@ == grow(old(v)@, c as int),
{
    if c < v.len() {
        return;
    }
    let ghost start = v@;
    while v.len() <= c
        invariant
            start.len() <= v@.len() <= c + 1,
            c < usize::MAX,
            v@ == start + Seq::new((v@.len() - start.len()) as nat, |i: int| None::<T>),
        decreases c + 1 - v@.len(),
    {
        v.push(None);
        assert(v@ =~= start + Seq::new((v@.len() - start.len()) as nat, |i: int| None::<T>));
    }
}

/// The free column nearest to `target`, searching outward (`+1`, `-1`,
/// `+2`, ...) and never below `min_col`; the lanes grow when the search runs
/// past them, and the colour table grows with them.
fn find_free_column_near(
    lanes: &mut Vec<Option<(String, bool)>>,
    colors: &mut Vec<Option<usize>>,
    target: usize,
    min_col: usize,
) -> (c: usize)
    requires
        min_col <= target,
        old(lanes)@.len() == old(colors)@.len(),
        old(lanes)@.len() < usize::MAX - 1,
        target < usize::MAX - 1,
    ensures
        c as int == free_near(slot_views(old(lanes)@), target as int, min_col as int),
        slot_views(final(lanes)@) == grow(slot_views(old(lanes)@), c as int),
        final(colors)@ == grow(old(colors)@, c as int),
        c < final(lanes)@.len(),
        final(lanes)@.len() == final(colors)@.len(),
        min_col <= c,
{
    let ghost sv = slot_views(lanes@);
    proof {
        lemma_free_near(sv, target as int, min_col as int);
    }
    if target >= min_col {
        proof {
            if target < lanes@.len() {
                assert(sv[target as int] is None <==> lanes@[target as int] is None);
            }
        }
        if target >= lanes.len() || lanes[target].is_none() {
            grow_to(lanes, target);
            grow_to(colors, target);
            assert(slot_views(lanes@) =~= grow(sv, target as int));
            return target;
        }
    }
    let mut delta: usize = 1;
    while true
        invariant
            1 <= delta,
            min_col <= target,
            target + delta <= lanes@.len() + 1,
            lanes@.len() < usize::MAX - 1,
            target < usize::MAX - 1,
            lanes@.len() == colors@.len(),
            sv == slot_views(lanes@),
            sv.len() == lanes@.len(),
            lanes@ == old(lanes)@,
            colors@ == old(colors)@,
            spiral(sv, target as int, min_col as int, delta as int) == spiral(sv, target as int, min_col as int, 1),
            free_near(sv, target as int, min_col as int) == spiral(sv, target as int, min_col as int, 1),
        decreases lanes@.len() + 1 - target - delta,
    {
        let right = target + delta;
        proof {
            if right < lanes@.len() {
                assert(sv[right as int] is None <==> lanes@[right as int] is None);
            }
            if delta <= target {
                assert(sv[target - delta] is None <==> lanes@[target - delta] is None);
            }
        }
        if right >= lanes.len() || lanes[right].is_none() {
            grow_to(lanes, right);
            grow_to(colors, right);
            assert(slot_views(lanes@) =~= grow(sv, right as int));
            return right;
        }
        if delta <= target {
            let left = target - delta;
            if left >= min_col && lanes[left].is_none() {
                assert(grow(sv, left as int) == sv);
                assert(grow(colors@, left as int) == colors@);
                return left;
            }
        }
        delta = delta + 1;
    }
    0
}


// ---------------------------------------------------------------------------
// The layout, one commit at a time
// ---------------------------------------------------------------------------

/// What the layout needs to know of one commit: its id, the ids of all its
/// parents in order, and whether it is a stash.
#[derive(Debug, Clone)]
pub struct WalkNode {
    pub oid: String,
    pub parents: Vec<String>,
    pub is_stash: bool,
}

pub struct NodeView {
    pub oid: Seq<char>,
    pub parents: Seq<Seq<char>>,
    pub is_stash: bool,
}

impl View for WalkNode {
    type V = NodeView;

    open spec fn view(&self) -> NodeView {
        NodeView {
            oid: self.oid@,
            parents: self.parents@.map_values(|p: String| p@),
            is_stash: self.is_stash,
        }
    }
}

pub open spec fn node_views(v: Seq<WalkNode>) -> Seq<NodeView> {
    v.map_values(|n: WalkNode| n@)
}

/// What holds for the whole walk: the first-parent chain of `HEAD` (whose
/// commits keep column 0), the commit `HEAD` points at, and the commits
/// reachable from the references.
pub struct WalkContext {
    pub head_chain: Set<Seq<char>>,
    pub reserve_head: bool,
    pub head_tip: Option<Seq<char>>,
    pub base: Set<Seq<char>>,
}

/// The parents that get lanes: a stash follows only its base commit (its
/// other parents hold the index and untracked files).
pub open spec fn lane_parents(n: NodeView) -> Seq<Seq<char>> {
    if n.is_stash && n.parents.len() > 1 {
        n.parents.take(1)
    } else {
        n.parents
    }
}

/// A merge: a commit (not a stash) with two parents or more.
pub open spec fn is_merge_node(n: NodeView) -> bool {
    !n.is_stash && n.parents.len() >= 2
}

pub open spec fn min_column(ctx: WalkContext) -> int {
    if ctx.reserve_head {
        1
    } else {
        0
    }
}

/// The colour recorded for column `c`, or `d` when there is none.
pub open spec fn color_or(colors: Seq<Option<usize>>, c: int, d: usize) -> usize {
    if 0 <= c < colors.len() && colors[c] is Some {
        colors[c]->0
    } else {
        d
    }
}

pub struct LaneState {
    pub slots: Seq<SlotView>,
    pub colors: Seq<Option<usize>>,
    pub pending: Map<Seq<char>, usize>,
    pub next_color: nat,
    pub max: nat,
}

pub open spec fn max_of(a: nat, b: nat) -> nat {
    if a >= b {
        a
    } else {
        b
    }
}

/// The state before the first commit: column 0 reserved (with colour 0) for
/// every commit of the `HEAD` chain, when there is one.
pub open spec fn initial_state(ctx: WalkContext) -> LaneState {
    if ctx.reserve_head {
        LaneState {
            slots: seq![None],
            colors: seq![Some(0usize)],
            pending: Map::new(|k: Seq<char>| ctx.head_chain.contains(k), |k: Seq<char>| 0usize),
            next_color: 1,
            max: 1,
        }
    } else {
        LaneState {
            slots: Seq::empty(),
            colors: Seq::empty(),
            pending: Map::empty(),
            next_color: 1,
            max: 0,
        }
    }
}

/// The column of a commit: the one a child reserved for it; for a stash
/// whose base commit has a free reserved column, that column; otherwise a
/// new lane near its first parent's column, with a new colour.
pub open spec fn activate(s: LaneState, n: NodeView, ctx: WalkContext) -> (LaneState, int) {
    if s.pending.contains_key(n.oid) {
        let c = s.pending[n.oid] as int;
        (
            LaneState {
                slots: grow(s.slots, c),
                colors: grow(s.colors, c),
                pending: s.pending.remove(n.oid),
                ..s
            },
            c,
        )
    } else {
        let min_col = min_column(ctx);
        let has_parent = n.parents.len() > 0;
        let parent_col: Option<int> = if has_parent && s.pending.contains_key(n.parents[0]) {
            Some(s.pending[n.parents[0]] as int)
        } else {
            None
        };
        let can_inline = n.is_stash && parent_col is Some && has_parent && (
        !ctx.head_chain.contains(n.parents[0]) || ctx.head_tip == Some(n.parents[0])) && is_free(
            s.slots,
            parent_col->0,
        );
        if can_inline {
            let c = parent_col->0;
            (LaneState { slots: grow(s.slots, c), colors: grow(s.colors, c), ..s }, c)
        } else {
            let pc = match parent_col {
                Some(x) => x,
                None => 0,
            };
            let target = if pc >= min_col {
                pc
            } else {
                min_col
            };
            let c = free_near(s.slots, target, min_col);
            (
                LaneState {
                    slots: grow(s.slots, c),
                    colors: grow(s.colors, c).update(c, Some(s.next_color as usize)),
                    next_color: s.next_color + 1,
                    ..s
                },
                c,
            )
        }
    }
}

/// Whether column `o` is a lane that a child kept open for `oid` (a branch
/// that forked off this commit).
pub open spec fn is_fork_in(slots: Seq<SlotView>, col: int, oid: Seq<char>, o: int) -> bool {
    o != col && slots[o] is Some && slot_oid(slots[o]) == oid
}

/// The edges through the other open lanes, left to right: a fork-out edge
/// for a lane that was waiting for this commit, a straight one otherwise.
pub open spec fn crossing_edges(
    slots: Seq<SlotView>,
    colors: Seq<Option<usize>>,
    col: int,
    oid: Seq<char>,
    k: int,
) -> Seq<EdgeRow>
    decreases k,
{
    if k <= 0 {
        Seq::empty()
    } else {
        let prev = crossing_edges(slots, colors, col, oid, k - 1);
        let o = k - 1;
        if o != col && slots[o] is Some {
            let dashed = slot_dashed(slots[o]);
            if slot_oid(slots[o]) == oid {
                prev.push(
                    (
                        col as usize,
                        o as usize,
                        if o < col {
                            EdgeType::ForkLeft
                        } else {
                            EdgeType::ForkRight
                        },
                        color_or(colors, o, o as usize),
                        dashed,
                    ),
                )
            } else {
                prev.push((o as usize, o as usize, EdgeType::Straight, color_or(colors, o, o as usize), dashed))
            }
        } else {
            prev
        }
    }
}

/// Closes the lanes that forked off this commit, and its own lane.
pub open spec fn close_lanes(s: LaneState, col: int, oid: Seq<char>) -> LaneState {
    LaneState {
        slots: Seq::new(
            s.slots.len(),
            |o: int|
                if o == col || is_fork_in(s.slots, col, oid, o) {
                    None
                } else {
                    s.slots[o]
                },
        ),
        colors: Seq::new(
            s.colors.len(),
            |o: int|
                if o < s.slots.len() && is_fork_in(s.slots, col, oid, o) {
                    None
                } else {
                    s.colors[o]
                },
        ),
        ..s
    }
}

pub open spec fn parent_kind(merge: bool, pcol: int, col: int) -> EdgeType {
    if pcol < col {
        if merge {
            EdgeType::MergeLeft
        } else {
            EdgeType::ForkLeft
        }
    } else if pcol > col {
        if merge {
            EdgeType::MergeRight
        } else {
            EdgeType::ForkRight
        }
    } else {
        EdgeType::Straight
    }
}

/// One parent: the first continues this commit's lane (unless it is an
/// orphan stash base); the others get their own lanes and a merge or fork
/// edge. The flag says whether this commit's column was taken again.
pub open spec fn parent_step(
    s: LaneState,
    edges: Seq<EdgeRow>,
    reoccupied: bool,
    col: int,
    n: NodeView,
    ctx: WalkContext,
    idx: int,
    p: Seq<char>,
) -> (LaneState, Seq<EdgeRow>, bool) {
    if idx == 0 {
        if s.pending.contains_key(p) {
            let ex = s.pending[p] as int;
            let color = if ex == col {
                color_or(s.colors, ex, ex as usize)
            } else {
                color_or(s.colors, col, col as usize)
            };
            (
                LaneState { slots: s.slots.update(col, Some((p, n.is_stash))), ..s },
                edges.push((col as usize, col as usize, EdgeType::Straight, color, n.is_stash)),
                true,
            )
        } else if n.is_stash && !ctx.base.contains(p) {
            (s, edges, reoccupied)
        } else {
            (
                LaneState {
                    slots: grow(s.slots, col).update(col, Some((p, n.is_stash))),
                    colors: grow(s.colors, col),
                    pending: s.pending.insert(p, col as usize),
                    ..s
                },
                edges.push(
                    (
                        col as usize,
                        col as usize,
                        EdgeType::Straight,
                        color_or(s.colors, col, col as usize),
                        n.is_stash,
                    ),
                ),
                true,
            )
        }
    } else {
        let (s2, pcol) = if s.pending.contains_key(p) {
            (s, s.pending[p] as int)
        } else {
            let min_col = min_column(ctx);
            let target = if col >= min_col {
                col
            } else {
                min_col
            };
            let c = free_near(s.slots, target, min_col);
            let slots2 = grow(s.slots, c).update(c, Some((p, false)));
            (
                LaneState {
                    slots: slots2,
                    colors: grow(s.colors, c).update(c, Some(s.next_color as usize)),
                    pending: s.pending.insert(p, c as usize),
                    next_color: s.next_color + 1,
                    max: max_of(s.max, slots2.len()),
                },
                c,
            )
        };
        (
            s2,
            edges.push(
                (
                    col as usize,
                    pcol as usize,
                    parent_kind(is_merge_node(n), pcol, col),
                    color_or(s2.colors, pcol, pcol as usize),
                    false,
                ),
            ),
            reoccupied,
        )
    }
}

/// The parent steps for the first `k` lane parents.
pub open spec fn parent_steps(
    s: LaneState,
    edges: Seq<EdgeRow>,
    col: int,
    n: NodeView,
    ctx: WalkContext,
    k: int,
) -> (LaneState, Seq<EdgeRow>, bool)
    decreases k,
{
    if k <= 0 {
        (s, edges, false)
    } else {
        let (s1, e1, r1) = parent_steps(s, edges, col, n, ctx, k - 1);
        parent_step(s1, e1, r1, col, n, ctx, k - 1, lane_parents(n)[k - 1])
    }
}

/// Where one commit lands: its column, its edges, its colour, and whether it
/// is a branch tip (no child continued its lane, or it has no parent).
pub struct Placement {
    pub column: int,
    pub edges: Seq<EdgeRow>,
    pub color: usize,
    pub tip: bool,
}

/// The layout step for one commit.
pub open spec fn commit_step(s: LaneState, n: NodeView, ctx: WalkContext) -> (LaneState, Placement) {
    let (a, col) = activate(s, n, ctx);
    let a1 = LaneState { max: max_of(a.max, a.slots.len()), ..a };
    let tip = n.parents.len() == 0 || is_free(a1.slots, col);
    let color = color_or(a1.colors, col, 0);
    let cross = crossing_edges(a1.slots, a1.colors, col, n.oid, a1.slots.len() as int);
    let closed = close_lanes(a1, col, n.oid);
    let ps = lane_parents(n);
    let (b, edges, reocc) = parent_steps(closed, cross, col, n, ctx, ps.len() as int);
    let colors_end = if ps.len() == 0 && !reocc {
        b.colors.update(col, None)
    } else {
        b.colors
    };
    let end = LaneState { colors: colors_end, max: max_of(b.max, b.slots.len()), ..b };
    (end, Placement { column: col, edges, color, tip })
}

/// The layout of the first `k` commits: the state after them, and where each
/// landed.
pub open spec fn walk_layout(nodes: Seq<NodeView>, ctx: WalkContext, k: int) -> (LaneState, Seq<Placement>)
    decreases k,
{
    if k <= 0 {
        (initial_state(ctx), Seq::empty())
    } else {
        let (s, ps) = walk_layout(nodes, ctx, k - 1);
        let (s2, p) = commit_step(s, nodes[k - 1], ctx);
        (s2, ps.push(p))
    }
}


// ---------------------------------------------------------------------------
// The HEAD chain keeps column 0
// ---------------------------------------------------------------------------

/// Every reservation held before survives, with its column.
pub open spec fn keeps_reservations(before: Map<Seq<char>, usize>, after: Map<Seq<char>, usize>) -> bool {
    forall|h: Seq<char>| #[trigger] before.contains_key(h) ==> after.contains_key(h) && after[h] == before[h]
}

proof fn lemma_parent_steps_keep(
    s: LaneState,
    edges: Seq<EdgeRow>,
    col: int,
    n: NodeView,
    ctx: WalkContext,
    k: int,
)
    ensures
        keeps_reservations(s.pending, parent_steps(s, edges, col, n, ctx, k).0.pending),
    decreases k,
{
    if k > 0 {
        lemma_parent_steps_keep(s, edges, col, n, ctx, k - 1);
        let (s1, e1, r1) = parent_steps(s, edges, col, n, ctx, k - 1);
        let s2 = parent_step(s1, e1, r1, col, n, ctx, k - 1, lane_parents(n)[k - 1]).0;
        assert(keeps_reservations(s1.pending, s2.pending));
    }
}

/// Whether `h` is the id of one of the first `k` commits.
pub open spec fn met_before(nodes: Seq<NodeView>, k: int, h: Seq<char>) -> bool {
    exists|j: int| 0 <= j < k && #[trigger] nodes[j].oid == h
}

proof fn lemma_head_reserved(nodes: Seq<NodeView>, ctx: WalkContext, k: int)
    requires
        ctx.reserve_head,
        0 <= k <= nodes.len(),
    ensures
        forall|h: Seq<char>|
            ctx.head_chain.contains(h) && !met_before(nodes, k, h) ==> #[trigger] walk_layout(
                nodes,
                ctx,
                k,
            ).0.pending.contains_key(h) && walk_layout(nodes, ctx, k).0.pending[h] == 0,
    decreases k,
{
    if k > 0 {
        lemma_head_reserved(nodes, ctx, k - 1);
        let s = walk_layout(nodes, ctx, k - 1).0;
        let n = nodes[k - 1];
        let (a, col) = activate(s, n, ctx);
        let a1 = LaneState { max: max_of(a.max, a.slots.len()), ..a };
        let closed = close_lanes(a1, col, n.oid);
        let cross = crossing_edges(a1.slots, a1.colors, col, n.oid, a1.slots.len() as int);
        lemma_parent_steps_keep(closed, cross, col, n, ctx, lane_parents(n).len() as int);
        assert forall|h: Seq<char>| ctx.head_chain.contains(h) && !met_before(nodes, k, h) implies #[trigger] walk_layout(
            nodes,
            ctx,
            k,
        ).0.pending.contains_key(h) && walk_layout(nodes, ctx, k).0.pending[h] == 0 by {
            assert(!met_before(nodes, k - 1, h)) by {
                if met_before(nodes, k - 1, h) {
                    let j = choose|j: int| 0 <= j < k - 1 && #[trigger] nodes[j].oid == h;
                    assert(nodes[j].oid == h);
                }
            }
            assert(nodes[k - 1].oid != h) by {
                if nodes[k - 1].oid == h {
                    assert(met_before(nodes, k, h));
                }
            }
            assert(s.pending.contains_key(h));
            assert(a.pending.contains_key(h) && a.pending[h] == 0);
            assert(closed.pending == a.pending);
        }
    }
}

/// When `HEAD` has a first-parent chain, each commit of that chain is placed
/// in column 0 the first time it is met, whatever was laid out before it.
pub proof fn lemma_head_chain_in_column_zero(nodes: Seq<NodeView>, ctx: WalkContext, i: int)
    requires
        ctx.reserve_head,
        0 <= i < nodes.len(),
        ctx.head_chain.contains(nodes[i].oid),
        forall|j: int| 0 <= j < i ==> nodes[j].oid != nodes[i].oid,
    ensures
        walk_layout(nodes, ctx, i + 1).1[i].column == 0,
        walk_layout(nodes, ctx, nodes.len() as int).1[i].column == 0,
{
    lemma_layout_prefix(nodes, ctx, i, nodes.len() as int);
    let h = nodes[i].oid;
    lemma_head_reserved(nodes, ctx, i);
    assert(!met_before(nodes, i, h)) by {
        if met_before(nodes, i, h) {
            let j = choose|j: int| 0 <= j < i && #[trigger] nodes[j].oid == h;
            assert(nodes[j].oid != h);
        }
    }
    let s = walk_layout(nodes, ctx, i).0;
    assert(s.pending.contains_key(h) && s.pending[h] == 0);
    assert(walk_layout(nodes, ctx, i + 1).1[i] == commit_step(s, nodes[i], ctx).1) by {
        assert(walk_layout(nodes, ctx, i).1.len() == i) by {
            lemma_layout_placements(nodes, ctx, i);
        }
    }
}

proof fn lemma_layout_prefix(nodes: Seq<NodeView>, ctx: WalkContext, i: int, k: int)
    requires
        0 <= i < k,
    ensures
        walk_layout(nodes, ctx, k).1[i] == walk_layout(nodes, ctx, i + 1).1[i],
    decreases k,
{
    if k > i + 1 {
        lemma_layout_prefix(nodes, ctx, i, k - 1);
        lemma_layout_placements(nodes, ctx, k - 1);
    }
}

proof fn lemma_layout_placements(nodes: Seq<NodeView>, ctx: WalkContext, k: int)
    requires
        0 <= k,
    ensures
        walk_layout(nodes, ctx, k).1.len() == k,
    decreases k,
{
    if k > 0 {
        lemma_layout_placements(nodes, ctx, k - 1);
    }
}

// ---------------------------------------------------------------------------
// Column 0 belongs to the HEAD chain
// ---------------------------------------------------------------------------

/// A free column searched from at or above `min_col` is at or above it.
proof fn lemma_free_near_min(slots: Seq<SlotView>, target: int, min_col: int)
    requires
        0 <= min_col <= target,
    ensures
        free_near(slots, target, min_col) >= min_col,
{
    if !(target >= min_col && is_free(slots, target)) {
        assert(target < slots.len());
        lemma_spiral(slots, target, min_col, 1);
    }
}

/// Column 0 keeps colour 0 whenever it has one; and, for a chain that holds
/// the first parents of its commits (`closed`), it is reserved only for
/// commits of the chain.
pub open spec fn zero_lane_kept(s: LaneState, ctx: WalkContext, closed: bool) -> bool {
    &&& closed ==> forall|h: Seq<char>| #[trigger] s.pending.contains_key(h) && s.pending[h] == 0 ==> ctx.head_chain.contains(h)
    &&& s.colors.len() >= 1
    &&& (s.colors[0] is None || s.colors[0] == Some(0usize))
}

/// The `HEAD` chain holds the first parent of each of its commits that is
/// walked and has one.
pub open spec fn chain_closed(nodes: Seq<NodeView>, ctx: WalkContext) -> bool {
    forall|i: int|
        0 <= i < nodes.len() && ctx.head_chain.contains(#[trigger] nodes[i].oid) && nodes[i].parents.len() > 0
            ==> ctx.head_chain.contains(nodes[i].parents[0])
}

/// A commit placed in column 0 has colour 0, and, for a closed chain, is on
/// the chain unless it is a stash.
pub open spec fn zero_lane_placement(p: Placement, n: NodeView, ctx: WalkContext, closed: bool) -> bool {
    &&& p.column == 0 ==> p.color == 0
    &&& (closed && p.column == 0 && !n.is_stash) ==> ctx.head_chain.contains(n.oid)
}

proof fn lemma_zero_parent_steps(
    s: LaneState,
    edges: Seq<EdgeRow>,
    col: int,
    n: NodeView,
    ctx: WalkContext,
    k: int,
    closed: bool,
)
    requires
        ctx.reserve_head,
        zero_lane_kept(s, ctx, closed),
        s.slots.len() == s.colors.len(),
        forall|q: Seq<char>| #[trigger] s.pending.contains_key(q) ==> s.pending[q] < s.slots.len(),
        0 <= col < s.slots.len(),
        edges_within(edges, s.slots.len()),
        0 <= k <= lane_parents(n).len(),
        s.slots.len() + k < usize::MAX,
        closed && col == 0 && lane_parents(n).len() > 0 ==> ctx.head_chain.contains(lane_parents(n)[0])
            || s.pending.contains_key(lane_parents(n)[0]),
    ensures
        zero_lane_kept(parent_steps(s, edges, col, n, ctx, k).0, ctx, closed),
    decreases k,
{
    if k > 0 {
        lemma_zero_parent_steps(s, edges, col, n, ctx, k - 1, closed);
        lemma_parent_steps_within(s, edges, col, n, ctx, k - 1);
        let (s1, e1, r1) = parent_steps(s, edges, col, n, ctx, k - 1);
        let p = lane_parents(n)[k - 1];
        let s2 = parent_step(s1, e1, r1, col, n, ctx, k - 1, p).0;
        if k - 1 == 0 {
            assert(s1 == s);
            if !s.pending.contains_key(p) && !(n.is_stash && !ctx.base.contains(p)) {
                assert(grow(s.colors, col) == s.colors);
                if closed {
                    assert forall|h: Seq<char>| #[trigger] s2.pending.contains_key(h) && s2.pending[h] == 0 implies ctx.head_chain.contains(h) by {
                        if h != p {
                            assert(s.pending.contains_key(h));
                        } else {
                            assert(col == 0);
                        }
                    }
                }
            }
        } else if !s1.pending.contains_key(p) {
            let target = if col >= 1 { col } else { 1 };
            assert(target <= s1.slots.len());
            lemma_free_near_min(s1.slots, target, 1);
            lemma_free_near(s1.slots, target, 1);
            let c = free_near(s1.slots, target, min_column(ctx));
            assert(1 <= c <= s1.slots.len());
            assert(grow(s1.colors, c).update(c, Some(s1.next_color as usize))[0] == s1.colors[0]);
            if closed {
                assert forall|h: Seq<char>| #[trigger] s2.pending.contains_key(h) && s2.pending[h] == 0 implies ctx.head_chain.contains(h) by {
                    if h != p {
                        assert(s1.pending.contains_key(h));
                    }
                }
            }
        }
    }
}

proof fn lemma_zero_step(s: LaneState, n: NodeView, ctx: WalkContext, closed: bool)
    requires
        ctx.reserve_head,
        zero_lane_kept(s, ctx, closed),
        state_ok(s),
        s.slots.len() + 2 + n.parents.len() < usize::MAX,
        closed && ctx.head_chain.contains(n.oid) && n.parents.len() > 0 ==> ctx.head_chain.contains(n.parents[0]),
    ensures
        zero_lane_kept(commit_step(s, n, ctx).0, ctx, closed),
        zero_lane_placement(commit_step(s, n, ctx).1, n, ctx, closed),
{
    let (a, col) = activate(s, n, ctx);
    let a1 = LaneState { max: max_of(a.max, a.slots.len()), ..a };
    let ps = lane_parents(n);
    if s.pending.contains_key(n.oid) {
        assert(grow(s.colors, col)[0] == s.colors[0]);
        if closed {
            assert forall|h: Seq<char>| #[trigger] a.pending.contains_key(h) && a.pending[h] == 0 implies ctx.head_chain.contains(h) by {
                assert(s.pending.contains_key(h));
            }
        }
        assert forall|q: Seq<char>| #[trigger] a.pending.contains_key(q) implies a.pending[q] < a.slots.len() by {
            assert(s.pending.contains_key(q));
        }
    } else {
        let has_parent = n.parents.len() > 0;
        let parent_col: Option<int> = if has_parent && s.pending.contains_key(n.parents[0]) {
            Some(s.pending[n.parents[0]] as int)
        } else {
            None
        };
        let can_inline = n.is_stash && parent_col is Some && has_parent && (
        !ctx.head_chain.contains(n.parents[0]) || ctx.head_tip == Some(n.parents[0])) && is_free(
            s.slots,
            parent_col->0,
        );
        if can_inline {
            assert(grow(s.colors, col)[0] == s.colors[0]);
            assert(a.pending == s.pending);
        } else {
            let pc = match parent_col {
                Some(x) => x,
                None => 0,
            };
            let target = if pc >= 1 { pc } else { 1 };
            lemma_free_near_min(s.slots, target, 1);
            lemma_free_near(s.slots, target, 1);
            assert(col >= 1);
            assert(grow(s.colors, col).update(col, Some(s.next_color as usize))[0] == s.colors[0]);
            assert(a.pending == s.pending);
        }
    }
    assert(zero_lane_kept(a1, ctx, closed));
    assert(0 <= col < a1.slots.len());
    assert(a1.slots.len() <= s.slots.len() + 1);
    assert(a1.slots.len() == a1.colors.len());
    let cross = crossing_edges(a1.slots, a1.colors, col, n.oid, a1.slots.len() as int);
    lemma_crossing_within(a1.slots, a1.colors, col, n.oid, a1.slots.len() as int);
    let closed_state = close_lanes(a1, col, n.oid);
    assert(closed_state.colors[0] == a1.colors[0] || closed_state.colors[0] is None);
    assert(closed_state.pending == a1.pending);
    assert(zero_lane_kept(closed_state, ctx, closed));
    if closed && col == 0 && ps.len() > 0 {
        if s.pending.contains_key(n.oid) {
            assert(ctx.head_chain.contains(n.oid));
            assert(ps[0] == n.parents[0]);
        } else {
            assert(n.is_stash);
            assert(s.pending.contains_key(n.parents[0]));
            assert(ps[0] == n.parents[0]);
        }
    }
    lemma_zero_parent_steps(closed_state, cross, col, n, ctx, ps.len() as int, closed);
    lemma_parent_steps_within(closed_state, cross, col, n, ctx, ps.len() as int);
}

/// When `HEAD` has a chain, every commit placed in column 0 has colour 0;
/// and when the chain holds the first parent of each of its walked commits
/// (`closed`), every commit placed there is on the chain unless it is a stash.
pub proof fn lemma_zero_lane(nodes: Seq<NodeView>, ctx: WalkContext, k: int, closed: bool)
    requires
        ctx.reserve_head,
        closed ==> chain_closed(nodes, ctx),
        0 <= k <= nodes.len(),
        walk_budget(nodes, nodes.len() as int) + 3 < usize::MAX,
    ensures
        zero_lane_kept(walk_layout(nodes, ctx, k).0, ctx, closed),
        walk_layout(nodes, ctx, k).1.len() == k,
        forall|i: int|
            0 <= i < k ==> zero_lane_placement(#[trigger] walk_layout(nodes, ctx, k).1[i], nodes[i], ctx, closed),
    decreases k,
{
    if k == 0 {
        let s = initial_state(ctx);
        assert(s.colors[0] == Some(0usize));
    } else {
        lemma_zero_lane(nodes, ctx, k - 1, closed);
        lemma_walk_within(nodes, ctx, k - 1);
        lemma_walk_budget_mono(nodes, k, nodes.len() as int);
        let s = walk_layout(nodes, ctx, k - 1).0;
        let n = nodes[k - 1];
        assert(closed && ctx.head_chain.contains(n.oid) && n.parents.len() > 0 ==> ctx.head_chain.contains(
            n.parents[0],
        ));
        lemma_zero_step(s, n, ctx, closed);
        let ps = walk_layout(nodes, ctx, k).1;
        assert forall|i: int| 0 <= i < k implies zero_lane_placement(#[trigger] ps[i], nodes[i], ctx, closed) by {
            if i < k - 1 {
                assert(ps[i] == walk_layout(nodes, ctx, k - 1).1[i]);
            }
        }
    }
}

// ---------------------------------------------------------------------------
// Executable layout
// ---------------------------------------------------------------------------

struct Lanes {
    slots: Vec<Option<(String, bool)>>,
    colors: Vec<Option<usize>>,
    pending: StringHashMap<usize>,
    next_color: usize,
    max: usize,
}

spec fn lane_state(l: &Lanes) -> LaneState {
    LaneState {
        slots: slot_views(l.slots@),
        colors: l.colors@,
        pending: l.pending@,
        next_color: l.next_color as nat,
        max: l.max as nat,
    }
}

/// The lane table is consistent, and `room` more colours fit in a `usize`.
spec fn lanes_wf(l: &Lanes, room: nat) -> bool {
    &&& l.slots@.len() == l.colors@.len()
    &&& forall|k: Seq<char>| #[trigger] l.pending@.contains_key(k) ==> l.pending@[k] < l.slots@.len()
    &&& l.slots@.len() <= l.next_color
    &&& l.max <= l.next_color
    &&& l.next_color + room + 2 < usize::MAX
}

struct WalkSetup {
    head: StringHashMap<()>,
    reserve_head: bool,
    head_tip: Option<String>,
    base: StringHashMap<()>,
}

spec fn setup_view(w: &WalkSetup) -> WalkContext {
    WalkContext {
        head_chain: w.head@.dom(),
        reserve_head: w.reserve_head,
        head_tip: match w.head_tip {
            Some(t) => Some(t@),
            None => None,
        },
        base: w.base@.dom(),
    }
}

fn activate_exec(l: &mut Lanes, n: &WalkNode, w: &WalkSetup, Ghost(room): Ghost<nat>) -> (c: usize)
    requires
        lanes_wf(old(l), room + 1),
        w.reserve_head ==> old(l).slots@.len() >= 1,
    ensures
        (lane_state(final(l)), c as int) == activate(lane_state(old(l)), n@, setup_view(w)),
        c < final(l).slots@.len(),
        lanes_wf(final(l), room),
        final(l).slots@.len() >= old(l).slots@.len(),
{
    let ghost s0 = lane_state(l);
    let ghost ctx = setup_view(w);
    let ghost nv = n@;
    match l.pending.get(n.oid.as_str()) {
        Some(cr) => {
            let c = *cr;
            l.pending.remove(n.oid.as_str());
            proof {
                assert(grow(s0.slots, c as int) == s0.slots);
                assert(grow(s0.colors, c as int) == s0.colors);
            }
            return c;
        },
        None => {},
    }
    let min_col: usize = if w.reserve_head { 1 } else { 0 };
    let has_parent = n.parents.len() > 0;
    let parent_col: Option<usize> = if has_parent {
        match l.pending.get(n.parents[0].as_str()) {
            Some(pc) => Some(*pc),
            None => None,
        }
    } else {
        None
    };
    proof {
        if has_parent {
            assert(nv.parents[0] == n.parents@[0]@);
        }
    }
    let mut can_inline = false;
    if n.is_stash && has_parent {
        match parent_col {
            Some(pc) => {
                let p0 = n.parents[0].as_str();
                let on_chain = w.head.contains_key(p0);
                let is_tip = match &w.head_tip {
                    Some(t) => t.eq(&n.parents[0]),
                    None => false,
                };
                if (!on_chain || is_tip) && (pc >= l.slots.len() || l.slots[pc].is_none()) {
                    can_inline = true;
                }
            },
            None => {},
        }
    }
    if can_inline {
        let c = parent_col.unwrap();
        proof {
            assert(grow(s0.slots, c as int) == s0.slots);
            assert(grow(s0.colors, c as int) == s0.colors);
        }
        return c;
    }
    let pc: usize = match parent_col {
        Some(x) => x,
        None => 0,
    };
    let target = if pc >= min_col { pc } else { min_col };
    proof {
        assert(target <= l.slots@.len());
        lemma_free_near(slot_views(l.slots@), target as int, min_col as int);
    }
    let ghost len0 = l.slots@.len();
    let c = find_free_column_near(&mut l.slots, &mut l.colors, target, min_col);
    assert(l.slots@.len() == slot_views(l.slots@).len());
    assert(l.slots@.len() <= len0 + 1);
    assert(l.slots@.len() >= len0);
    l.colors.set(c, Some(l.next_color));
    l.next_color = l.next_color + 1;
    c
}


fn cross_and_close(l: &mut Lanes, col: usize, oid: &String, Ghost(room): Ghost<nat>) -> (edges: Vec<GraphEdge>)
    requires
        lanes_wf(old(l), room),
        col < old(l).slots@.len(),
    ensures
        edge_views(edges@) == crossing_edges(
            slot_views(old(l).slots@),
            old(l).colors@,
            col as int,
            oid@,
            old(l).slots@.len() as int,
        ),
        lane_state(final(l)) == close_lanes(lane_state(old(l)), col as int, oid@),
        lanes_wf(final(l), room),
        final(l).next_color == old(l).next_color,
        final(l).slots@.len() == old(l).slots@.len(),
{
    let ghost s0 = lane_state(l);
    let ghost sv = slot_views(l.slots@);
    let n = l.slots.len();
    let mut edges: Vec<GraphEdge> = Vec::new();
    for o in 0..n
        invariant
            n == l.slots@.len(),
            sv == slot_views(l.slots@),
            sv.len() == n,
            l.slots@.len() == l.colors@.len(),
            col < n,
            edge_views(edges@) == crossing_edges(sv, l.colors@, col as int, oid@, o as int),
    {
        let ghost before = edge_views(edges@);
        if o != col {
            match &l.slots[o] {
                Some((occ, dashed)) => {
                    assert(sv[o as int] == Some((occ@, *dashed)));
                    let color = match l.colors[o] {
                        Some(x) => x,
                        None => o,
                    };
                    if occ.eq(oid) {
                        let kind = if o < col {
                            EdgeType::ForkLeft
                        } else {
                            EdgeType::ForkRight
                        };
                        edges.push(
                            GraphEdge {
                                from_column: col,
                                to_column: o,
                                edge_type: kind,
                                color_index: color,
                                dashed: *dashed,
                            },
                        );
                    } else {
                        edges.push(
                            GraphEdge {
                                from_column: o,
                                to_column: o,
                                edge_type: EdgeType::Straight,
                                color_index: color,
                                dashed: *dashed,
                            },
                        );
                    }
                    assert(edge_views(edges@) =~= crossing_edges(sv, l.colors@, col as int, oid@, o + 1));
                },
                None => {
                    assert(sv[o as int] is None);
                    assert(edge_views(edges@) =~= crossing_edges(sv, l.colors@, col as int, oid@, o + 1));
                },
            }
        } else {
            assert(edge_views(edges@) =~= crossing_edges(sv, l.colors@, col as int, oid@, o + 1));
        }
    }
    let ghost target = close_lanes(s0, col as int, oid@);
    for o in 0..n
        invariant
            n == l.slots@.len(),
            n == l.colors@.len(),
            sv.len() == n,
            col < n,
            s0 == lane_state(old(l)),
            sv == s0.slots,
            s0.colors.len() == n,
            target == close_lanes(s0, col as int, oid@),
            l.pending@ == s0.pending,
            l.next_color == s0.next_color,
            l.max == s0.max,
            forall|q: int| 0 <= q < o ==> #[trigger] slot_views(l.slots@)[q] == (if is_fork_in(sv, col as int, oid@, q) { None } else { sv[q] }),
            forall|q: int| o <= q < n ==> #[trigger] slot_views(l.slots@)[q] == sv[q],
            forall|q: int| 0 <= q < o ==> #[trigger] l.colors@[q] == target.colors[q],
            forall|q: int| o <= q < n ==> #[trigger] l.colors@[q] == s0.colors[q],
    {
        let fork = o != col && match &l.slots[o] {
            Some((occ, _)) => occ.eq(oid),
            None => false,
        };
        assert(slot_views(l.slots@)[o as int] == sv[o as int]);
        assert(fork == is_fork_in(sv, col as int, oid@, o as int));
        let ghost before = l.slots@;
        let ghost cbefore = l.colors@;
        if fork {
            l.slots.set(o, None);
            l.colors.set(o, None);
            assert(slot_views(l.slots@) =~= slot_views(before).update(o as int, None));
        }
        assert(target.colors[o as int] == (if fork { None } else { s0.colors[o as int] }));
        assert(slot_views(l.slots@)[o as int] == (if fork { None } else { sv[o as int] }));
    }
    let ghost before = l.slots@;
    l.slots.set(col, None);
    assert(slot_views(l.slots@) =~= slot_views(before).update(col as int, None));
    assert(slot_views(l.slots@) =~= target.slots);
    assert(l.colors@ =~= target.colors);
    edges
}


fn color_at(colors: &Vec<Option<usize>>, c: usize, d: usize) -> (r: usize)
    ensures
        r == color_or(colors@, c as int, d),
{
    if c < colors.len() {
        match colors[c] {
            Some(x) => x,
            None => d,
        }
    } else {
        d
    }
}

fn kind_for(merge: bool, pcol: usize, col: usize) -> (r: EdgeType)
    ensures
        r == parent_kind(merge, pcol as int, col as int),
{
    if pcol < col {
        if merge {
            EdgeType::MergeLeft
        } else {
            EdgeType::ForkLeft
        }
    } else if pcol > col {
        if merge {
            EdgeType::MergeRight
        } else {
            EdgeType::ForkRight
        }
    } else {
        EdgeType::Straight
    }
}

fn parent_step_exec(
    l: &mut Lanes,
    edges: &mut Vec<GraphEdge>,
    reoccupied: bool,
    col: usize,
    n: &WalkNode,
    w: &WalkSetup,
    idx: usize,
    p: &String,
    Ghost(room): Ghost<nat>,
) -> (r: bool)
    requires
        lanes_wf(old(l), room + 1),
        col < old(l).slots@.len(),
        w.reserve_head ==> old(l).slots@.len() >= 1,
        p@ == lane_parents(n@)[idx as int],
        idx < lane_parents(n@).len(),
    ensures
        (lane_state(final(l)), edge_views(final(edges)@), r) == parent_step(
            lane_state(old(l)),
            edge_views(old(edges)@),
            reoccupied,
            col as int,
            n@,
            setup_view(w),
            idx as int,
            p@,
        ),
        lanes_wf(final(l), room),
        final(l).slots@.len() >= old(l).slots@.len(),
{
    let ghost s0 = lane_state(l);
    let ghost e0 = edge_views(edges@);
    if idx == 0 {
        match l.pending.get(p.as_str()) {
            Some(exr) => {
                let ex = *exr;
                let color = if ex == col {
                    color_at(&l.colors, ex, ex)
                } else {
                    color_at(&l.colors, col, col)
                };
                let ghost before = l.slots@;
                l.slots.set(col, Some((p.clone(), n.is_stash)));
                assert(slot_views(l.slots@) =~= slot_views(before).update(col as int, Some((p@, n.is_stash))));
                edges.push(
                    GraphEdge {
                        from_column: col,
                        to_column: col,
                        edge_type: EdgeType::Straight,
                        color_index: color,
                        dashed: n.is_stash,
                    },
                );
                assert(edge_views(edges@) =~= e0.push((col, col, EdgeType::Straight, color, n.is_stash)));
                return true;
            },
            None => {},
        }
        if n.is_stash && !w.base.contains_key(p.as_str()) {
            return reoccupied;
        }
        let color = color_at(&l.colors, col, col);
        proof {
            assert(grow(s0.slots, col as int) == s0.slots);
            assert(grow(s0.colors, col as int) == s0.colors);
        }
        let ghost before = l.slots@;
        l.slots.set(col, Some((p.clone(), n.is_stash)));
        assert(slot_views(l.slots@) =~= slot_views(before).update(col as int, Some((p@, n.is_stash))));
        l.pending.insert(p.clone(), col);
        edges.push(
            GraphEdge {
                from_column: col,
                to_column: col,
                edge_type: EdgeType::Straight,
                color_index: color,
                dashed: n.is_stash,
            },
        );
        assert(edge_views(edges@) =~= e0.push((col, col, EdgeType::Straight, color, n.is_stash)));
        return true;
    }
    let pcol: usize = match l.pending.get(p.as_str()) {
        Some(c) => *c,
        None => {
            let min_col: usize = if w.reserve_head { 1 } else { 0 };
            let target = if col >= min_col { col } else { min_col };
            proof {
                lemma_free_near(slot_views(l.slots@), target as int, min_col as int);
            }
            let ghost len0 = l.slots@.len();
            let c = find_free_column_near(&mut l.slots, &mut l.colors, target, min_col);
            assert(l.slots@.len() == slot_views(l.slots@).len());
            assert(l.slots@.len() <= len0 + 1);
            let ghost before = l.slots@;
            l.slots.set(c, Some((p.clone(), false)));
            assert(slot_views(l.slots@) =~= slot_views(before).update(c as int, Some((p@, false))));
            l.colors.set(c, Some(l.next_color));
            l.pending.insert(p.clone(), c);
            l.next_color = l.next_color + 1;
            if l.slots.len() > l.max {
                l.max = l.slots.len();
            }
            c
        },
    };
    let color = color_at(&l.colors, pcol, pcol);
    let merge = !n.is_stash && n.parents.len() >= 2;
    let kind = kind_for(merge, pcol, col);
    edges.push(
        GraphEdge {
            from_column: col,
            to_column: pcol,
            edge_type: kind,
            color_index: color,
            dashed: false,
        },
    );
    assert(edge_views(edges@) =~= e0.push((col, pcol, kind, color, false)));
    reoccupied
}


/// Where one commit landed in the layout.
#[derive(Debug, Clone)]
pub struct PlacedCommit {
    pub column: usize,
    pub edges: Vec<GraphEdge>,
    pub color_index: usize,
    pub is_branch_tip: bool,
}

impl View for PlacedCommit {
    type V = Placement;

    open spec fn view(&self) -> Placement {
        Placement {
            column: self.column as int,
            edges: edge_views(self.edges@),
            color: self.color_index,
            tip: self.is_branch_tip,
        }
    }
}

#[verifier::rlimit(40)]
fn place_commit(l: &mut Lanes, n: &WalkNode, w: &WalkSetup, Ghost(room): Ghost<nat>) -> (pc: PlacedCommit)
    requires
        lanes_wf(old(l), room + 1 + n.parents@.len()),
        w.reserve_head ==> old(l).slots@.len() >= 1,
    ensures
        (lane_state(final(l)), pc@) == commit_step(lane_state(old(l)), n@, setup_view(w)),
        lanes_wf(final(l), room),
        final(l).slots@.len() >= old(l).slots@.len(),
{
    let ghost np_total = n.parents@.len();
    let ghost len0 = l.slots@.len();
    let ghost s0 = lane_state(l);
    let col = activate_exec(l, n, w, Ghost(room + np_total));
    let ghost act = (lane_state(l), col as int);
    if l.slots.len() > l.max {
        l.max = l.slots.len();
    }
    let ghost a1 = lane_state(l);
    assert(a1.slots.len() == l.slots@.len());
    let tip = n.parents.len() == 0 || l.slots[col].is_none();
    assert(tip == (n@.parents.len() == 0 || is_free(a1.slots, col as int)));
    let color = color_at(&l.colors, col, 0);
    let mut edges = cross_and_close(l, col, &n.oid, Ghost(room + np_total));
    let ghost closed = lane_state(l);
    let ghost cross = edge_views(edges@);
    let np: usize = if n.is_stash && n.parents.len() > 1 {
        1
    } else {
        n.parents.len()
    };
    assert(np == lane_parents(n@).len());
    let mut reocc = false;
    for idx in 0..np
        invariant
            np == lane_parents(n@).len(),
            np <= n.parents@.len(),
            np_total == n.parents@.len(),
            (lane_state(l), edge_views(edges@), reocc) == parent_steps(
                closed,
                cross,
                col as int,
                n@,
                setup_view(w),
                idx as int,
            ),
            lanes_wf(l, (room + (np_total - idx)) as nat),
            col < l.slots@.len(),
            l.slots@.len() >= len0,
            w.reserve_head ==> l.slots@.len() >= 1,
    {
        assert(lane_parents(n@)[idx as int] == n.parents@[idx as int]@);
        reocc = parent_step_exec(
            l,
            &mut edges,
            reocc,
            col,
            n,
            w,
            idx,
            &n.parents[idx],
            Ghost((room + (np_total - idx) - 1) as nat),
        );
    }
    if np == 0 && !reocc {
        l.colors.set(col, None);
    }
    if l.slots.len() > l.max {
        l.max = l.slots.len();
    }
    let pc = PlacedCommit { column: col, edges, color_index: color, is_branch_tip: tip };
    proof {
        assert(act == activate(s0, n@, setup_view(w)));
        let (end, place) = commit_step(s0, n@, setup_view(w));
        assert(place == pc@);
        assert(end == lane_state(l));
    }
    pc
}


/// The colours a walk may hand out: one per commit and one per parent.
pub open spec fn walk_budget(nodes: Seq<NodeView>, k: int) -> nat
    decreases k,
{
    if k <= 0 {
        0
    } else {
        walk_budget(nodes, k - 1) + 1 + nodes[k - 1].parents.len()
    }
}

pub proof fn lemma_walk_budget_mono(nodes: Seq<NodeView>, i: int, k: int)
    requires
        0 <= i <= k,
    ensures
        walk_budget(nodes, i) <= walk_budget(nodes, k),
    decreases k - i,
{
    if i < k {
        lemma_walk_budget_mono(nodes, i, k - 1);
    }
}

/// The walk context of a `HEAD` chain, the `HEAD` commit and the commits
/// reachable from the references.
pub open spec fn walk_context(head_chain: Seq<String>, head_tip: Option<String>, base: Seq<String>) -> WalkContext {
    WalkContext {
        head_chain: head_chain.map_values(|s: String| s@).to_set(),
        reserve_head: head_chain.len() > 0,
        head_tip: match head_tip {
            Some(t) => Some(t@),
            None => None,
        },
        base: base.map_values(|s: String| s@).to_set(),
    }
}

fn string_set(v: &Vec<String>) -> (m: StringHashMap<()>)
    ensures
        m@.dom() == v@.map_values(|s: String| s@).to_set(),
{
    let mut m: StringHashMap<()> = StringHashMap::new();
    let ghost vs = v@.map_values(|s: String| s@);
    for i in 0..v.len()
        invariant
            vs == v@.map_values(|s: String| s@),
            m@.dom() == vs.take(i as int).to_set(),
    {
        m.insert(v[i].clone(), ());
        assert(vs.take(i + 1) =~= vs.take(i as int).push(v@[i as int]@));
        proof {
            vs.take(i as int).lemma_push_to_set_commute(v@[i as int]@);
        }
        assert(m@.dom() =~= vs.take(i + 1).to_set());
    }
    assert(vs.take(v@.len() as int) =~= vs);
    m
}

/// Whether the colours of a walk over `nodes` fit in a `usize`.
pub fn walk_fits(nodes: &Vec<WalkNode>) -> (r: bool)
    ensures
        r == (walk_budget(node_views(nodes@), nodes@.len() as int) + 3 < usize::MAX),
{
    let ghost nv = node_views(nodes@);
    let mut total: usize = 0;
    for i in 0..nodes.len()
        invariant
            nv == node_views(nodes@),
            nv.len() == nodes@.len(),
            total == walk_budget(nv, i as int),
            total + 3 < usize::MAX,
    {
        assert(nv[i as int].parents.len() == nodes@[i as int].parents@.len());
        let step = nodes[i].parents.len();
        if step >= usize::MAX - 4 - total {
            proof {
                lemma_walk_budget_mono(nv, i + 1, nv.len() as int);
            }
            return false;
        }
        total = total + 1 + step;
    }
    true
}

/// The lane layout of a walk over `nodes` (newest first): where each commit
/// lands, and the widest the graph gets.
pub fn lay_out_walk(
    nodes: &Vec<WalkNode>,
    head_chain: &Vec<String>,
    head_tip: &Option<String>,
    base: &Vec<String>,
) -> (r: (Vec<PlacedCommit>, usize))
    requires
        walk_budget(node_views(nodes@), nodes@.len() as int) + 3 < usize::MAX,
    ensures
        ({
            let (st, ps) = walk_layout(
                node_views(nodes@),
                walk_context(head_chain@, *head_tip, base@),
                nodes@.len() as int,
            );
            &&& r.0@.map_values(|p: PlacedCommit| p@) == ps
            &&& r.1 == st.max
        }),
        r.0@.len() == nodes@.len(),
        forall|i: int| 0 <= i < r.0@.len() ==> placement_within(#[trigger] r.0@[i]@, r.1 as nat),
{
    proof {
        lemma_walk_within(
            node_views(nodes@),
            walk_context(head_chain@, *head_tip, base@),
            nodes@.len() as int,
        );
    }
    let ghost nv = node_views(nodes@);
    let ghost ctx = walk_context(head_chain@, *head_tip, base@);
    let ghost total = walk_budget(nv, nv.len() as int);
    let w = WalkSetup {
        head: string_set(head_chain),
        reserve_head: head_chain.len() > 0,
        head_tip: head_tip.clone(),
        base: string_set(base),
    };
    assert(setup_view(&w) == ctx);
    let mut l = Lanes {
        slots: Vec::new(),
        colors: Vec::new(),
        pending: StringHashMap::new(),
        next_color: 1,
        max: 0,
    };
    if head_chain.len() > 0 {
        l.slots.push(None);
        l.colors.push(Some(0));
        l.max = 1;
        assert(slot_views(l.slots@) =~= seq![None]);
        let ghost hv = head_chain@.map_values(|s: String| s@);
        for i in 0..head_chain.len()
            invariant
                hv == head_chain@.map_values(|s: String| s@),
                slot_views(l.slots@) =~= seq![None],
                l.colors@ =~= seq![Some(0usize)],
                l.max == 1,
                l.next_color == 1,
                l.pending@ == Map::new(|k: Seq<char>| hv.take(i as int).to_set().contains(k), |k: Seq<char>| 0usize),
        {
            l.pending.insert(head_chain[i].clone(), 0);
            assert(hv.take(i + 1) =~= hv.take(i as int).push(head_chain@[i as int]@));
            proof {
                hv.take(i as int).lemma_push_to_set_commute(head_chain@[i as int]@);
            }
            assert(l.pending@ =~= Map::new(|k: Seq<char>| hv.take(i + 1).to_set().contains(k), |k: Seq<char>| 0usize));
        }
        assert(hv.take(head_chain@.len() as int) =~= hv);
    }
    assert(slot_views(l.slots@) =~= initial_state(ctx).slots);
    assert(l.colors@ =~= initial_state(ctx).colors);
    assert(lane_state(&l).pending =~= initial_state(ctx).pending);
    assert(lane_state(&l) == initial_state(ctx));
    let mut out: Vec<PlacedCommit> = Vec::new();
    for i in 0..nodes.len()
        invariant
            nv == node_views(nodes@),
            nv.len() == nodes@.len(),
            ctx == setup_view(&w),
            ctx.reserve_head == (head_chain@.len() > 0),
            total == walk_budget(nv, nv.len() as int),
            total + 3 < usize::MAX,
            (lane_state(&l), out@.map_values(|p: PlacedCommit| p@)) == walk_layout(nv, ctx, i as int),
            lanes_wf(&l, (total - walk_budget(nv, i as int)) as nat),
            walk_budget(nv, i as int) <= total,
            w.reserve_head ==> l.slots@.len() >= 1,
    {
        proof {
            lemma_walk_budget_mono(nv, i + 1, nv.len() as int);
            assert(nv[i as int] == nodes@[i as int]@);
        }
        let pc = place_commit(&mut l, &nodes[i], &w, Ghost((total - walk_budget(nv, i + 1)) as nat));
        let ghost before = out@;
        out.push(pc);
        assert(out@.map_values(|p: PlacedCommit| p@) =~= before.map_values(|p: PlacedCommit| p@).push(pc@));
    }
    assert forall|i: int| 0 <= i < out@.len() implies placement_within(#[trigger] out@[i]@, l.max as nat) by {
        assert(out@.map_values(|p: PlacedCommit| p@)[i] == out@[i]@);
    }
    (out, l.max)
}


// ---------------------------------------------------------------------------
// Every column the layout names lies within the reported width
// ---------------------------------------------------------------------------

/// The lane table is consistent: one colour slot per lane, reserved columns
/// are lanes, and the width covers every lane.
pub open spec fn state_ok(s: LaneState) -> bool {
    &&& s.slots.len() == s.colors.len()
    &&& forall|k: Seq<char>| #[trigger] s.pending.contains_key(k) ==> s.pending[k] < s.slots.len()
    &&& s.slots.len() <= s.max
}

/// Edges whose two ends are columns below `m`.
pub open spec fn edges_within(es: Seq<EdgeRow>, m: nat) -> bool {
    forall|j: int| 0 <= j < es.len() ==> (#[trigger] es[j]).0 < m && es[j].1 < m
}

/// A placement whose column and edge ends lie below `m`.
pub open spec fn placement_within(p: Placement, m: nat) -> bool {
    0 <= p.column < m && edges_within(p.edges, m)
}

proof fn lemma_crossing_within(slots: Seq<SlotView>, colors: Seq<Option<usize>>, col: int, oid: Seq<char>, k: int)
    requires
        0 <= col < slots.len(),
        k <= slots.len(),
        slots.len() < usize::MAX,
    ensures
        edges_within(crossing_edges(slots, colors, col, oid, k), slots.len()),
    decreases k,
{
    if k > 0 {
        lemma_crossing_within(slots, colors, col, oid, k - 1);
    }
}

proof fn lemma_parent_steps_within(
    s: LaneState,
    edges: Seq<EdgeRow>,
    col: int,
    n: NodeView,
    ctx: WalkContext,
    k: int,
)
    requires
        s.slots.len() == s.colors.len(),
        forall|q: Seq<char>| #[trigger] s.pending.contains_key(q) ==> s.pending[q] < s.slots.len(),
        0 <= col < s.slots.len(),
        ctx.reserve_head ==> s.slots.len() >= 1,
        edges_within(edges, s.slots.len()),
        0 <= k <= lane_parents(n).len(),
        s.slots.len() + k < usize::MAX,
    ensures
        ({
            let (b, es, _r) = parent_steps(s, edges, col, n, ctx, k);
            &&& b.slots.len() == b.colors.len()
            &&& forall|q: Seq<char>| #[trigger] b.pending.contains_key(q) ==> b.pending[q] < b.slots.len()
            &&& s.slots.len() <= b.slots.len() <= s.slots.len() + k
            &&& b.max >= s.max
            &&& edges_within(es, b.slots.len())
        }),
    decreases k,
{
    if k > 0 {
        lemma_parent_steps_within(s, edges, col, n, ctx, k - 1);
        let (s1, e1, r1) = parent_steps(s, edges, col, n, ctx, k - 1);
        let p = lane_parents(n)[k - 1];
        let idx = k - 1;
        assert(grow(s1.slots, col) == s1.slots);
        assert(grow(s1.colors, col) == s1.colors);
        if idx != 0 && !s1.pending.contains_key(p) {
            let min_col = min_column(ctx);
            let target = if col >= min_col {
                col
            } else {
                min_col
            };
            lemma_free_near(s1.slots, target, min_col);
            let c = free_near(s1.slots, target, min_col);
            assert(target <= s1.slots.len());
            assert(c <= s1.slots.len());
            assert(grow(s1.slots, c).len() <= s1.slots.len() + 1);
        }
        let (b, es, _r) = parent_steps(s, edges, col, n, ctx, k);
        assert((b, es, _r) == parent_step(s1, e1, r1, col, n, ctx, idx, p));
        assert(b.slots.len() >= s1.slots.len());
        assert forall|q: Seq<char>| #[trigger] b.pending.contains_key(q) implies b.pending[q] < b.slots.len() by {
            if q != p {
                assert(s1.pending.contains_key(q));
            }
        }
        assert(es.len() >= e1.len());
        assert forall|j: int| 0 <= j < es.len() implies (#[trigger] es[j]).0 < b.slots.len() && es[j].1
            < b.slots.len() by {
            if j < e1.len() {
                assert(es[j] == e1[j]);
            }
        }
    }
}

/// One layout step keeps the table consistent and places the commit, and all
/// of its edges, within the new width; the width never shrinks.
pub proof fn lemma_step_within(s: LaneState, n: NodeView, ctx: WalkContext)
    requires
        state_ok(s),
        ctx.reserve_head ==> s.slots.len() >= 1,
        s.slots.len() + 2 + n.parents.len() < usize::MAX,
    ensures
        ({
            let (end, place) = commit_step(s, n, ctx);
            &&& state_ok(end)
            &&& end.max >= s.max
            &&& end.slots.len() >= s.slots.len()
            &&& end.slots.len() <= s.slots.len() + 1 + n.parents.len()
            &&& placement_within(place, end.max)
        }),
{
    let (a, col) = activate(s, n, ctx);
    if !s.pending.contains_key(n.oid) {
        let min_col = min_column(ctx);
        let has_parent = n.parents.len() > 0;
        let parent_col: Option<int> = if has_parent && s.pending.contains_key(n.parents[0]) {
            Some(s.pending[n.parents[0]] as int)
        } else {
            None
        };
        let pc = match parent_col {
            Some(x) => x,
            None => 0,
        };
        let target = if pc >= min_col {
            pc
        } else {
            min_col
        };
        lemma_free_near(s.slots, target, min_col);
    }
    assert(col < a.slots.len());
    assert forall|q: Seq<char>| #[trigger] a.pending.contains_key(q) implies a.pending[q] < a.slots.len() by {
        assert(s.pending.contains_key(q));
    }
    let a1 = LaneState { max: max_of(a.max, a.slots.len()), ..a };
    let cross = crossing_edges(a1.slots, a1.colors, col, n.oid, a1.slots.len() as int);
    lemma_crossing_within(a1.slots, a1.colors, col, n.oid, a1.slots.len() as int);
    let closed = close_lanes(a1, col, n.oid);
    assert(closed.slots.len() == a1.slots.len());
    let ps = lane_parents(n);
    lemma_parent_steps_within(closed, cross, col, n, ctx, ps.len() as int);
}

/// The layout of a walk places every commit, and every edge, within the
/// width it reports.
pub proof fn lemma_walk_within(nodes: Seq<NodeView>, ctx: WalkContext, k: int)
    requires
        0 <= k <= nodes.len(),
        walk_budget(nodes, nodes.len() as int) + 3 < usize::MAX,
    ensures
        ({
            let (st, ps) = walk_layout(nodes, ctx, k);
            &&& state_ok(st)
            &&& ps.len() == k
            &&& st.slots.len() <= 1 + walk_budget(nodes, k)
            &&& (ctx.reserve_head ==> st.slots.len() >= 1)
            &&& forall|i: int| 0 <= i < k ==> placement_within(#[trigger] ps[i], st.max)
        }),
    decreases k,
{
    if k > 0 {
        lemma_walk_within(nodes, ctx, k - 1);
        lemma_walk_budget_mono(nodes, k, nodes.len() as int);
        let (s, ps) = walk_layout(nodes, ctx, k - 1);
        lemma_step_within(s, nodes[k - 1], ctx);
        let (s2, p) = commit_step(s, nodes[k - 1], ctx);
        let ps2 = ps.push(p);
        assert forall|i: int| 0 <= i < k implies placement_within(#[trigger] ps2[i], s2.max) by {
            if i < k - 1 {
                assert(ps2[i] == ps[i]);
                assert(placement_within(ps[i], s.max));
            }
        }
    } else {
        assert(state_ok(initial_state(ctx)));
    }
}


// ---------------------------------------------------------------------------
// Ref labels by commit
// ---------------------------------------------------------------------------

/// The kind of a reference: local branch, remote branch or tag; other
/// references (notes, the stash ref) get no label.
pub open spec fn ref_kind(r: RefRecord) -> Option<RefType> {
    if r.is_branch && !r.is_remote {
        Some(RefType::LocalBranch)
    } else if r.is_remote {
        Some(RefType::RemoteBranch)
    } else if r.is_tag {
        Some(RefType::Tag)
    } else {
        None
    }
}

/// The label a reference puts on a commit, and that commit: a tag labels
/// the commit it peels to (its own target when it peels to none); a local
/// branch is the head branch when its full name is `head`'s.
pub open spec fn ref_entry(r: RefRecord, peeled: Option<String>, head: Option<String>) -> Option<(Seq<char>, LabelView)> {
    match (r.target, ref_kind(r)) {
        (Some(t), Some(kind)) => {
            let oid = if kind == RefType::Tag {
                match peeled {
                    Some(p) => p@,
                    None => t@,
                }
            } else {
                t@
            };
            let name = match r.name {
                Some(n) => n@,
                None => Seq::empty(),
            };
            let short = match r.shorthand {
                Some(n) => n@,
                None => name,
            };
            let is_head = kind == RefType::LocalBranch && opt_view(head) == Some(name);
            Some((oid, (name, short, kind, is_head, 0usize)))
        },
        _ => None,
    }
}

/// The label a stash entry puts on its commit.
pub open spec fn stash_entry(s: StashRecord) -> (Seq<char>, LabelView) {
    (s.oid@, (s.name@, "stash"@, RefType::Stash, false, 0usize))
}

pub open spec fn add_label(m: Map<Seq<char>, Seq<LabelView>>, k: Seq<char>, l: LabelView) -> Map<Seq<char>, Seq<LabelView>> {
    m.insert(
        k,
        (if m.contains_key(k) {
            m[k]
        } else {
            Seq::empty()
        }).push(l),
    )
}

/// Labels of the first `k` references, by commit, in reference order.
pub open spec fn ref_labels(refs: Seq<(RefRecord, Option<String>)>, head: Option<String>, k: int) -> Map<Seq<char>, Seq<LabelView>>
    decreases k,
{
    if k <= 0 {
        Map::empty()
    } else {
        let m = ref_labels(refs, head, k - 1);
        match ref_entry(refs[k - 1].0, refs[k - 1].1, head) {
            Some((oid, l)) => add_label(m, oid, l),
            None => m,
        }
    }
}

/// `m` with the labels of the first `k` stash entries added.
pub open spec fn stash_labels(m: Map<Seq<char>, Seq<LabelView>>, stashes: Seq<StashRecord>, k: int) -> Map<Seq<char>, Seq<LabelView>>
    decreases k,
{
    if k <= 0 {
        m
    } else {
        let (oid, l) = stash_entry(stashes[k - 1]);
        add_label(stash_labels(m, stashes, k - 1), oid, l)
    }
}

/// Every label of the repository by commit: references first, then stashes.
pub open spec fn label_map(refs: Seq<(RefRecord, Option<String>)>, stashes: Seq<StashRecord>, head: Option<String>) -> Map<Seq<char>, Seq<LabelView>> {
    stash_labels(ref_labels(refs, head, refs.len() as int), stashes, stashes.len() as int)
}

proof fn lemma_add_label_keeps(
    m: Map<Seq<char>, Seq<LabelView>>,
    k: Seq<char>,
    l: LabelView,
    k2: Seq<char>,
    l2: LabelView,
)
    requires
        m.contains_key(k),
        m[k].contains(l),
    ensures
        add_label(m, k2, l2).contains_key(k),
        add_label(m, k2, l2)[k].contains(l),
{
    let j = choose|j: int| 0 <= j < m[k].len() && m[k][j] == l;
    assert(add_label(m, k2, l2)[k][j] == l);
}

proof fn lemma_add_label_has(m: Map<Seq<char>, Seq<LabelView>>, k: Seq<char>, l: LabelView)
    ensures
        add_label(m, k, l).contains_key(k),
        add_label(m, k, l)[k].contains(l),
{
    let v = add_label(m, k, l)[k];
    assert(v[v.len() - 1] == l);
}

proof fn lemma_ref_labels_keep(
    refs: Seq<(RefRecord, Option<String>)>,
    head: Option<String>,
    i: int,
    j: int,
    key: Seq<char>,
    l: LabelView,
)
    requires
        0 <= i < j <= refs.len(),
        ref_entry(refs[i].0, refs[i].1, head) == Some((key, l)),
    ensures
        ref_labels(refs, head, j).contains_key(key),
        ref_labels(refs, head, j)[key].contains(l),
    decreases j,
{
    if j == i + 1 {
        lemma_add_label_has(ref_labels(refs, head, i), key, l);
    } else {
        lemma_ref_labels_keep(refs, head, i, j - 1, key, l);
        match ref_entry(refs[j - 1].0, refs[j - 1].1, head) {
            Some((k2, l2)) => lemma_add_label_keeps(ref_labels(refs, head, j - 1), key, l, k2, l2),
            None => {},
        }
    }
}

proof fn lemma_stash_labels_keep(
    m: Map<Seq<char>, Seq<LabelView>>,
    stashes: Seq<StashRecord>,
    k: int,
    key: Seq<char>,
    l: LabelView,
)
    requires
        m.contains_key(key),
        m[key].contains(l),
    ensures
        stash_labels(m, stashes, k).contains_key(key),
        stash_labels(m, stashes, k)[key].contains(l),
    decreases k,
{
    if k > 0 {
        lemma_stash_labels_keep(m, stashes, k - 1, key, l);
        let (k2, l2) = stash_entry(stashes[k - 1]);
        lemma_add_label_keeps(stash_labels(m, stashes, k - 1), key, l, k2, l2);
    }
}

/// The commit a tag reference read with its peeled commit names: the commit
/// it peels to, else its own target.
pub open spec fn tag_commit(r: RefRecord, peeled: Option<String>) -> Seq<char> {
    match peeled {
        Some(p) => p@,
        None => r.target->0@,
    }
}

/// A reference's full name, empty when it has none.
pub open spec fn full_name(r: RefRecord) -> Seq<char> {
    match r.name {
        Some(n) => n@,
        None => Seq::empty(),
    }
}

/// A tag's label sits on the commit the tag peels to: an annotated tag is
/// its own object, so its label is filed under the commit it finally names
/// whenever it names one, and under its own target only when it peels to
/// none. The label carries the tag's full name and the tag kind.
pub proof fn lemma_tag_on_peeled_commit(
    refs: Seq<(RefRecord, Option<String>)>,
    stashes: Seq<StashRecord>,
    head: Option<String>,
    i: int,
)
    requires
        0 <= i < refs.len(),
        refs[i].0.target is Some,
        refs[i].0.is_tag,
        !refs[i].0.is_branch,
        !refs[i].0.is_remote,
    ensures
        label_map(refs, stashes, head).contains_key(tag_commit(refs[i].0, refs[i].1)),
        exists|j: int|
            0 <= j < label_map(refs, stashes, head)[tag_commit(refs[i].0, refs[i].1)].len() && (#[trigger] label_map(
                refs,
                stashes,
                head,
            )[tag_commit(refs[i].0, refs[i].1)][j]).0 == full_name(refs[i].0) && label_map(refs, stashes, head)[tag_commit(
                refs[i].0,
                refs[i].1,
            )][j].2 == RefType::Tag,
{
    let r = refs[i].0;
    let key = tag_commit(r, refs[i].1);
    let e = ref_entry(r, refs[i].1, head);
    assert(ref_kind(r) == Some(RefType::Tag));
    let (k0, l) = e->0;
    assert(k0 == key);
    assert(l.0 == full_name(r) && l.2 == RefType::Tag);
    lemma_ref_labels_keep(refs, head, i, refs.len() as int, key, l);
    lemma_stash_labels_keep(ref_labels(refs, head, refs.len() as int), stashes, stashes.len() as int, key, l);
    let v = label_map(refs, stashes, head)[key];
    let j = choose|j: int| 0 <= j < v.len() && v[j] == l;
    assert(label_map(refs, stashes, head)[key][j] == l);
}

/// A branch's label sits on the commit the branch points at: a local branch
/// (a branch that is not remote) as a local branch, marked as the head branch
/// exactly when its full name is `HEAD`'s branch; a remote branch as a remote
/// branch, never the head branch.
pub proof fn lemma_branch_on_target(
    refs: Seq<(RefRecord, Option<String>)>,
    stashes: Seq<StashRecord>,
    head: Option<String>,
    i: int,
)
    requires
        0 <= i < refs.len(),
        refs[i].0.target is Some,
        refs[i].0.is_branch || refs[i].0.is_remote,
    ensures
        label_map(refs, stashes, head).contains_key(refs[i].0.target->0@),
        exists|j: int|
            0 <= j < label_map(refs, stashes, head)[refs[i].0.target->0@].len() && {
                let l = #[trigger] label_map(refs, stashes, head)[refs[i].0.target->0@][j];
                &&& l.0 == full_name(refs[i].0)
                &&& l.2 == (if refs[i].0.is_remote { RefType::RemoteBranch } else { RefType::LocalBranch })
                &&& l.3 == (!refs[i].0.is_remote && opt_view(head) == Some(full_name(refs[i].0)))
            },
{
    let r = refs[i].0;
    let key = r.target->0@;
    let e = ref_entry(r, refs[i].1, head);
    let (k0, l) = e->0;
    assert(k0 == key);
    lemma_ref_labels_keep(refs, head, i, refs.len() as int, key, l);
    lemma_stash_labels_keep(ref_labels(refs, head, refs.len() as int), stashes, stashes.len() as int, key, l);
    let v = label_map(refs, stashes, head)[key];
    let j = choose|j: int| 0 <= j < v.len() && v[j] == l;
    assert(label_map(refs, stashes, head)[key][j] == l);
}

/// The model of a label table.
pub open spec fn labels_view(m: Map<Seq<char>, Vec<RefLabel>>) -> Map<Seq<char>, Seq<LabelView>> {
    Map::new(|k: Seq<char>| m.contains_key(k), |k: Seq<char>| label_views(m[k]@))
}

/// Copies of the labels.
pub fn copy_labels(v: &Vec<RefLabel>) -> (r: Vec<RefLabel>)
    ensures
        label_views(r@) == label_views(v@),
{
    let mut out: Vec<RefLabel> = Vec::new();
    for i in 0..v.len()
        invariant
            label_views(out@) == label_views(v@).take(i as int),
    {
        let ghost before = out@;
        out.push(v[i].copy());
        assert(label_views(out@) =~= label_views(before).push(v@[i as int]@));
        assert(label_views(v@).take(i + 1) =~= label_views(v@).take(i as int).push(v@[i as int]@));
    }
    assert(label_views(v@).take(v@.len() as int) =~= label_views(v@));
    out
}

pub fn push_label(m: &mut StringHashMap<Vec<RefLabel>>, oid: String, l: RefLabel)
    ensures
        labels_view(final(m)@) == add_label(labels_view(old(m)@), oid@, l@),
{
    let ghost old_view = labels_view(m@);
    let ghost k = oid@;
    let mut cur: Vec<RefLabel> = match m.get(oid.as_str()) {
        Some(v) => copy_labels(v),
        None => Vec::new(),
    };
    assert(label_views(cur@) == (if old_view.contains_key(k) {
        old_view[k]
    } else {
        Seq::<LabelView>::empty()
    }));
    let ghost before = cur@;
    cur.push(l);
    assert(label_views(cur@) =~= label_views(before).push(l@));
    m.insert(oid, cur);
    assert(labels_view(m@) =~= add_label(old_view, k, l@));
}

fn ref_entry_of(r: &RefRecord, peeled: &Option<String>, head: &Option<String>) -> (e: Option<(String, RefLabel)>)
    ensures
        match e {
            Some((oid, l)) => ref_entry(*r, *peeled, *head) == Some((oid@, l@)),
            None => ref_entry(*r, *peeled, *head) is None,
        },
{
    let t = match &r.target {
        Some(t) => t,
        None => return None,
    };
    let kind = if r.is_branch && !r.is_remote {
        RefType::LocalBranch
    } else if r.is_remote {
        RefType::RemoteBranch
    } else if r.is_tag {
        RefType::Tag
    } else {
        return None;
    };
    let oid = match kind {
        RefType::Tag => match peeled {
            Some(p) => p.clone(),
            None => t.clone(),
        },
        _ => t.clone(),
    };
    let name = match &r.name {
        Some(n) => n.clone(),
        None => String::new(),
    };
    let short = match &r.shorthand {
        Some(n) => n.clone(),
        None => name.clone(),
    };
    let is_head = match kind {
        RefType::LocalBranch => match head {
            Some(h) => h.eq(&name),
            None => false,
        },
        _ => false,
    };
    Some((oid, RefLabel { name, short_name: short, ref_type: kind, is_head, color_index: 0 }))
}

/// The labels of a repository's references and stash entries, by commit:
/// a commit's labels in reference order, then its stash entries in order.
pub fn labels_by_commit(
    refs: &Vec<(RefRecord, Option<String>)>,
    stashes: &Vec<StashRecord>,
    head: &Option<String>,
) -> (m: StringHashMap<Vec<RefLabel>>)
    ensures
        labels_view(m@) == label_map(refs@, stashes@, *head),
{
    let mut m: StringHashMap<Vec<RefLabel>> = StringHashMap::new();
    assert(labels_view(m@) =~= ref_labels(refs@, *head, 0));
    for i in 0..refs.len()
        invariant
            labels_view(m@) == ref_labels(refs@, *head, i as int),
    {
        let (r, peeled) = &refs[i];
        match ref_entry_of(r, peeled, head) {
            Some((oid, l)) => push_label(&mut m, oid, l),
            None => {},
        }
    }
    let ghost base = labels_view(m@);
    for i in 0..stashes.len()
        invariant
            base == ref_labels(refs@, *head, refs@.len() as int),
            labels_view(m@) == stash_labels(base, stashes@, i as int),
    {
        let s = &stashes[i];
        proof {
            reveal_strlit("stash");
        }
        let l = RefLabel {
            name: s.name.clone(),
            short_name: String::from_str("stash"),
            ref_type: RefType::Stash,
            is_head: false,
            color_index: 0,
        };
        push_label(&mut m, s.oid.clone(), l);
    }
    m
}


// ---------------------------------------------------------------------------
// Order of the walk: stashes among the commits by time
// ---------------------------------------------------------------------------

/// `(commit id, time)`.
pub type Stamped = (Seq<char>, i64);

pub open spec fn stamped_views(v: Seq<(String, i64)>) -> Seq<Stamped> {
    v.map_values(|x: (String, i64)| (x.0@, x.1))
}

/// `x` inserted into `s` after every entry at least as new (a stable insert
/// into a list ordered newest first).
pub open spec fn insert_newest(s: Seq<Stamped>, x: Stamped) -> Seq<Stamped>
    decreases s.len(),
{
    if s.len() == 0 {
        seq![x]
    } else if s.last().1 >= x.1 {
        s.push(x)
    } else {
        insert_newest(s.drop_last(), x).push(s.last())
    }
}

/// The entries newest first, equal times in their original order.
pub open spec fn newest_first(s: Seq<Stamped>) -> Seq<Stamped>
    decreases s.len(),
{
    if s.len() == 0 {
        Seq::empty()
    } else {
        insert_newest(newest_first(s.drop_last()), s.last())
    }
}

proof fn lemma_insert_newest_split(s: Seq<Stamped>, x: Stamped, j: int)
    requires
        0 <= j <= s.len(),
        forall|k: int| j <= k < s.len() ==> (#[trigger] s[k]).1 < x.1,
        j == 0 || s[j - 1].1 >= x.1,
    ensures
        insert_newest(s, x) == s.take(j).push(x) + s.skip(j),
    decreases s.len(),
{
    if s.len() == 0 {
        assert(s.take(j).push(x) + s.skip(j) =~= seq![x]);
    } else if j == s.len() {
        assert(s.take(j).push(x) + s.skip(j) =~= s.push(x));
    } else {
        lemma_insert_newest_split(s.drop_last(), x, j);
        assert(s.drop_last().take(j) =~= s.take(j));
        assert((s.take(j).push(x) + s.drop_last().skip(j)).push(s.last()) =~= s.take(j).push(x) + s.skip(j));
    }
}

fn sort_newest_first(v: &Vec<(String, i64)>) -> (r: Vec<(String, i64)>)
    ensures
        stamped_views(r@) == newest_first(stamped_views(v@)),
{
    let ghost all = stamped_views(v@);
    let mut sorted: Vec<(String, i64)> = Vec::new();
    for t in 0..v.len()
        invariant
            all == stamped_views(v@),
            stamped_views(sorted@) == newest_first(all.take(t as int)),
    {
        let x = (v[t].0.clone(), v[t].1);
        let ghost sv = stamped_views(sorted@);
        assert(all.take(t + 1).drop_last() =~= all.take(t as int));
        assert(all.take(t + 1).last() == (x.0@, x.1));
        let mut j = sorted.len();
        while j > 0 && sorted[j - 1].1 < x.1
            invariant
                j <= sorted@.len(),
                sv == stamped_views(sorted@),
                forall|k: int| j <= k < sv.len() ==> (#[trigger] sv[k]).1 < x.1,
            decreases j,
        {
            j = j - 1;
        }
        proof {
            lemma_insert_newest_split(sv, (x.0@, x.1), j as int);
        }
        sorted.insert(j, x);
        assert(stamped_views(sorted@) =~= sv.take(j as int).push((x.0@, x.1)) + sv.skip(j as int));
    }
    assert(all.take(v@.len() as int) =~= all);
    sorted
}

/// The first position from `i` whose entry is older than `t`.
pub open spec fn take_newer(st: Seq<Stamped>, i: int, t: i64) -> int
    decreases st.len() - i,
{
    if 0 <= i < st.len() && st[i].1 >= t {
        take_newer(st, i + 1, t)
    } else {
        i
    }
}

pub open spec fn stamp_ids(s: Seq<Stamped>) -> Seq<Seq<char>> {
    s.map_values(|x: Stamped| x.0)
}

/// The first `k` commits, each preceded by the stashes (newest first) not
/// older than it that are still to place; and how many stashes are placed.
pub open spec fn interleave(base: Seq<Stamped>, st: Seq<Stamped>, k: int) -> (Seq<Seq<char>>, int)
    decreases k,
{
    if k <= 0 {
        (Seq::empty(), 0)
    } else {
        let (out, i) = interleave(base, st, k - 1);
        if i < st.len() {
            let j = take_newer(st, i, base[k - 1].1);
            (out + stamp_ids(st.subrange(i, j)).push(base[k - 1].0), j)
        } else {
            (out.push(base[k - 1].0), i)
        }
    }
}

/// The walk order: commits in revision-walk order with the stashes, newest
/// first, each placed before the first commit older than it; stashes older
/// than every commit come last.
pub open spec fn walk_order(base: Seq<Stamped>, stashes: Seq<Stamped>) -> Seq<Seq<char>> {
    let st = newest_first(stashes);
    let (out, i) = interleave(base, st, base.len() as int);
    out + stamp_ids(st.skip(i))
}

proof fn lemma_take_newer(st: Seq<Stamped>, i: int, t: i64)
    requires
        0 <= i <= st.len(),
    ensures
        i <= take_newer(st, i, t) <= st.len(),
    decreases st.len() - i,
{
    if i < st.len() && st[i].1 >= t {
        lemma_take_newer(st, i + 1, t);
    }
}

proof fn lemma_interleave(base: Seq<Stamped>, st: Seq<Stamped>, k: int)
    requires
        0 <= k,
    ensures
        0 <= interleave(base, st, k).1 <= st.len(),
    decreases k,
{
    if k > 0 {
        lemma_interleave(base, st, k - 1);
        let (out, i) = interleave(base, st, k - 1);
        if i < st.len() {
            lemma_take_newer(st, i, base[k - 1].1);
        }
    }
}

/// The order in which the commits and stashes are walked.
pub fn order_walk(base: &Vec<(String, i64)>, stashes: &Vec<(String, i64)>) -> (r: Vec<String>)
    ensures
        r@.map_values(|s: String| s@) == walk_order(stamped_views(base@), stamped_views(stashes@)),
{
    let ghost bv = stamped_views(base@);
    let st = sort_newest_first(stashes);
    let ghost sv = stamped_views(st@);
    let mut out: Vec<String> = Vec::new();
    let mut idx: usize = 0;
    for k in 0..base.len()
        invariant
            bv == stamped_views(base@),
            sv == stamped_views(st@),
            sv.len() == st@.len(),
            (out@.map_values(|s: String| s@), idx as int) == interleave(bv, sv, k as int),
            idx <= st@.len(),
    {
        let ghost o0 = out@.map_values(|s: String| s@);
        let ghost i0 = idx as int;
        let t = base[k].1;
        if idx < st.len() {
            while idx < st.len() && st[idx].1 >= t
                invariant
                    sv == stamped_views(st@),
                    sv.len() == st@.len(),
                    0 <= i0 <= idx <= st@.len(),
                    t == bv[k as int].1,
                    take_newer(sv, idx as int, t) == take_newer(sv, i0, t),
                    out@.map_values(|s: String| s@) == o0 + stamp_ids(sv.subrange(i0, idx as int)),
                decreases st@.len() - idx,
            {
                let ghost before = out@.map_values(|s: String| s@);
                out.push(st[idx].0.clone());
                assert(out@.map_values(|s: String| s@) =~= before.push(sv[idx as int].0));
                assert(sv.subrange(i0, idx + 1) =~= sv.subrange(i0, idx as int).push(sv[idx as int]));
                assert(stamp_ids(sv.subrange(i0, idx + 1)) =~= stamp_ids(sv.subrange(i0, idx as int)).push(sv[idx as int].0));
                idx = idx + 1;
            }
        }
        let ghost before = out@.map_values(|s: String| s@);
        out.push(base[k].0.clone());
        assert(out@.map_values(|s: String| s@) =~= before.push(bv[k as int].0));
        proof {
            if i0 >= sv.len() {
                assert(sv.subrange(i0, idx as int) =~= Seq::<Stamped>::empty());
                assert(o0 + stamp_ids(Seq::<Stamped>::empty()) =~= o0);
            }
        }
    }
    let ghost o1 = out@.map_values(|s: String| s@);
    let ghost i1 = idx as int;
    while idx < st.len()
        invariant
            sv == stamped_views(st@),
            sv.len() == st@.len(),
            0 <= i1 <= idx <= st@.len(),
            out@.map_values(|s: String| s@) == o1 + stamp_ids(sv.subrange(i1, idx as int)),
        decreases st@.len() - idx,
    {
        let ghost before = out@.map_values(|s: String| s@);
        out.push(st[idx].0.clone());
        assert(out@.map_values(|s: String| s@) =~= before.push(sv[idx as int].0));
        assert(sv.subrange(i1, idx + 1) =~= sv.subrange(i1, idx as int).push(sv[idx as int]));
                assert(stamp_ids(sv.subrange(i1, idx + 1)) =~= stamp_ids(sv.subrange(i1, idx as int)).push(sv[idx as int].0));
        idx = idx + 1;
    }
    assert(sv.subrange(i1, sv.len() as int) =~= sv.skip(i1));
    out
}


// ---------------------------------------------------------------------------
// Walking a repository
// ---------------------------------------------------------------------------

/// Whether each reference read carries a peeled commit only when it is a tag.
pub open spec fn peeled_only_tags(refs: Seq<(RefRecord, Option<String>)>) -> bool {
    forall|i: int| 0 <= i < refs.len() ==> ((#[trigger] refs[i]).1 is Some ==> refs[i].0.is_tag)
}

/// A label table of some references read (a tag with the commit it peels
/// to), stash entries read, and branch `HEAD` stands for.
pub open spec fn is_ref_label_map(lm: Map<Seq<char>, Seq<LabelView>>) -> bool {
    exists|refs: Seq<(RefRecord, Option<String>)>, stashes: Seq<StashRecord>, head: Option<String>|
        #![trigger label_map(refs, stashes, head)]
        peeled_only_tags(refs) && lm == label_map(refs, stashes, head)
}

/// The labels of every reference and stash entry of the repository, by
/// commit id: the label table of the references read (a tag with the commit
/// it peels to), the stash entries read, and the branch `HEAD` stands for.
/// Which references and entries the repository holds depends on the disk.
pub fn build_ref_map(repo: &mut git2::Repository) -> (m: StringHashMap<Vec<RefLabel>>)
    ensures
        is_ref_label_map(labels_view(m@)),
{
    let head = head_branch_name(repo);
    let mut refs: Vec<(RefRecord, Option<String>)> = Vec::new();
    match references(repo) {
        Ok(mut it) => {
            let mut fuel: usize = usize::MAX;
            while fuel > 0
                invariant
                    peeled_only_tags(refs@),
                decreases fuel,
            {
                match next_reference(&mut it) {
                    None => break,
                    Some(Ok(r)) => {
                        let rec = reference_record(&r);
                        let peeled = if rec.is_tag {
                            peeled_commit(&r)
                        } else {
                            None
                        };
                        refs.push((rec, peeled));
                    },
                    Some(Err(_)) => {},
                }
                fuel = fuel - 1;
            }
        },
        Err(_) => {},
    }
    let stashes = stash_list(repo);
    let m = labels_by_commit(&refs, &stashes, &head);
    assert(peeled_only_tags(refs@) && labels_view(m@) == label_map(refs@, stashes@, head));
    m
}

/// The labels of commit `oid`, each given colour `color`.
/// The labels a row shows of commit `oid` in colour `color`, from a label
/// table.
pub open spec fn row_labels(lm: Map<Seq<char>, Seq<LabelView>>, oid: Seq<char>, color: usize) -> Seq<LabelView> {
    if lm.contains_key(oid) {
        lm[oid].map_values(|l: LabelView| (l.0, l.1, l.2, l.3, color))
    } else {
        Seq::empty()
    }
}

fn labels_for(m: &StringHashMap<Vec<RefLabel>>, oid: &String, color: usize) -> (r: Vec<RefLabel>)
    ensures
        label_views(r@) == row_labels(labels_view(m@), oid@, color),
{
    match m.get(oid.as_str()) {
        Some(v) => {
            let mut out: Vec<RefLabel> = Vec::new();
            for i in 0..v.len()
                invariant
                    label_views(out@) == label_views(v@).take(i as int).map_values(
                        |l: LabelView| (l.0, l.1, l.2, l.3, color),
                    ),
            {
                let mut l = v[i].copy();
                l.color_index = color;
                let ghost before = label_views(out@);
                out.push(l);
                assert(label_views(out@) =~= before.push(l@));
                assert(label_views(v@).take(i + 1) =~= label_views(v@).take(i as int).push(v@[i as int]@));
                assert(label_views(out@) =~= label_views(v@).take(i + 1).map_values(
                    |l: LabelView| (l.0, l.1, l.2, l.3, color),
                ));
            }
            assert(label_views(v@).take(v@.len() as int) =~= label_views(v@));
            out
        },
        None => Vec::new(),
    }
}

fn any_head(v: &Vec<RefLabel>) -> (r: bool)
    ensures
        r == exists|i: int| 0 <= i < v@.len() && (#[trigger] v@[i]).is_head,
{
    for i in 0..v.len()
        invariant
            forall|j: int| 0 <= j < i ==> !(#[trigger] v@[j]).is_head,
    {
        if v[i].is_head {
            return true;
        }
    }
    false
}

/// The first-parent chain starting at `HEAD`'s commit, and that commit; every
/// id in hex. The chain stops where a commit has no parent or cannot be read.
fn head_chain(repo: &git2::Repository) -> (r: (Vec<String>, Option<String>))
    ensures
        r.1 is None ==> r.0@.len() == 0,
        r.1 matches Some(t) ==> r.0@.len() > 0 && r.0@[0]@ == t@ && is_oid_hex(t@),
        forall|i: int| 0 <= i < r.0@.len() ==> is_oid_hex(#[trigger] r.0@[i]@),
{
    let tip = head_target(repo);
    let mut chain: Vec<String> = Vec::new();
    let mut cur: Option<String> = match &tip {
        Some(t) => Some(t.clone()),
        None => None,
    };
    let mut fuel: usize = usize::MAX;
    while fuel > 0
        invariant
            chain@.len() == usize::MAX - fuel,
            tip is None ==> chain@.len() == 0 && cur is None,
            tip matches Some(t) ==> (chain@.len() > 0 && chain@[0]@ == t@) || (chain@.len() == 0 && cur
                == Some(t)),
            tip matches Some(t) ==> is_oid_hex(t@),
            cur matches Some(c) ==> is_oid_hex(c@),
            forall|i: int| 0 <= i < chain@.len() ==> is_oid_hex(#[trigger] chain@[i]@),
        ensures
            tip is None ==> chain@.len() == 0,
            tip matches Some(t) ==> chain@.len() > 0 && chain@[0]@ == t@,
            forall|i: int| 0 <= i < chain@.len() ==> is_oid_hex(#[trigger] chain@[i]@),
        decreases fuel,
    {
        let c = match cur {
            None => break,
            Some(c) => c,
        };
        let next = match parents_by_id(repo, c.as_str()) {
            Ok(ps) => {
                if ps.len() > 0 {
                    Some(ps[0].clone())
                } else {
                    None
                }
            },
            Err(_) => None,
        };
        chain.push(c);
        cur = next;
        fuel = fuel - 1;
    }
    (chain, tip)
}

fn copy_edges(v: &Vec<GraphEdge>) -> (r: Vec<GraphEdge>)
    ensures
        edge_views(r@) == edge_views(v@),
{
    let mut out: Vec<GraphEdge> = Vec::new();
    for i in 0..v.len()
        invariant
            edge_views(out@) == edge_views(v@).take(i as int),
    {
        let e = &v[i];
        let ghost before = edge_views(out@);
        out.push(
            GraphEdge {
                from_column: e.from_column,
                to_column: e.to_column,
                edge_type: e.edge_type,
                color_index: e.color_index,
                dashed: e.dashed,
            },
        );
        assert(edge_views(out@) =~= before.push(v@[i as int]@));
        assert(edge_views(v@).take(i + 1) =~= edge_views(v@).take(i as int).push(v@[i as int]@));
    }
    assert(edge_views(v@).take(v@.len() as int) =~= edge_views(v@));
    out
}

/// The commits of a page of the graph lie within its width.
pub open spec fn commit_within(c: GraphCommit, m: usize) -> bool {
    c.column < m && edges_within(edge_views(c.edges@), m as nat)
}

/// The parents a commit row lists: a stash entry shows only its first parent.
pub open spec fn shown_parents(n: NodeView) -> Seq<Seq<char>> {
    if n.is_stash {
        n.parents.take(if n.parents.len() > 0 { 1int } else { 0int })
    } else {
        n.parents
    }
}

/// Text that may be missing, empty when it is.
pub open spec fn text_or_empty(o: Option<Seq<char>>) -> Seq<char> {
    match o {
        Some(t) => t,
        None => Seq::empty(),
    }
}

/// Commit row `c` shows walk node `n` laid out at `p`, with its labels from
/// the label table `lm` and its texts from the commit its id names.
pub open spec fn shows_node(c: GraphCommit, n: NodeView, p: Placement, lm: Map<Seq<char>, Seq<LabelView>>) -> bool {
    &&& c.oid@ == n.oid
    &&& c.short_oid@ == prefix7(n.oid)
    &&& c.parent_oids@.map_values(|s: String| s@) == shown_parents(n)
    &&& c.is_stash == n.is_stash
    &&& c.is_merge == (!n.is_stash && n.parents.len() >= 2)
    &&& c.is_head == (exists|j: int| 0 <= j < c.refs@.len() && (#[trigger] c.refs@[j]).is_head)
    &&& c.column as int == p.column
    &&& c.color_index == p.color
    &&& edge_views(c.edges@) == p.edges
    &&& c.is_branch_tip == p.tip
    &&& label_views(c.refs@) == row_labels(lm, n.oid, p.color)
    &&& c.summary@ == text_or_empty(commit_summary_name(n.oid))
    &&& opt_view(c.body) == commit_body_name(n.oid)
    &&& c.author_name@ == text_or_empty(commit_author_name(n.oid).0)
    &&& c.author_email@ == text_or_empty(commit_author_name(n.oid).1)
    &&& c.author_timestamp == commit_author_name(n.oid).2
}

/// `g` is the page of the lane layout of a walk over `nodes` in context
/// `ctx` that starts at position `offset` and holds at most `limit` rows,
/// labelled from `lm`.
pub open spec fn is_walk_page(
    g: GraphResult,
    nodes: Seq<NodeView>,
    ctx: WalkContext,
    lm: Map<Seq<char>, Seq<LabelView>>,
    offset: int,
    limit: int,
) -> bool {
    let n = nodes.len() as int;
    let (st, ps) = walk_layout(nodes, ctx, n);
    let start = if offset < n { offset } else { n };
    let end = if offset + limit < n { offset + limit } else { n };
    &&& g.max_columns == st.max
    &&& g.commits@.len() == end - start
    &&& forall|i: int|
        0 <= i < g.commits@.len() ==> shows_node(#[trigger] g.commits@[i], nodes[start + i], ps[start + i], lm)
}

/// The globs a walk of the repository pushes: every branch, remote branch
/// and tag.
pub open spec fn walk_globs() -> Seq<Seq<char>> {
    seq!["refs/heads"@, "refs/remotes"@, "refs/tags"@]
}

/// What one walk of the repository read: the revwalk's record (the globs it
/// was given, whether it sorted topologically newest first, and the ids it
/// yielded), the commits the revwalk gave (with
/// their committer times), the stash entries (with theirs) and the ids of all stash
/// entries, the walked commits with the parents read for each, the
/// first-parent chain from `HEAD`'s commit `tip`, and the label table.
pub struct WalkRead {
    pub walk: (Seq<Seq<char>>, bool, Seq<Seq<char>>),
    pub base: Seq<Stamped>,
    pub stashes: Seq<Stamped>,
    pub stash_ids: Set<Seq<char>>,
    pub base_ids: Seq<String>,
    pub nodes: Seq<NodeView>,
    pub chain: Seq<String>,
    pub tip: Option<String>,
    pub labels: Map<Seq<char>, Seq<LabelView>>,
}

/// The context a walk is laid out in.
pub open spec fn read_context(w: WalkRead) -> WalkContext {
    walk_context(w.chain, w.tip, w.base_ids)
}

/// A walk read holds together: the revwalk pushed `walk_globs`, sorted
/// topologically newest first, and yielded the ids of `base`; the walked
/// commits are the revwalk's commits
/// with the stash entries placed among them by time (`walk_order`), each
/// marked a stash when its id is a stash entry's; the revwalk's ids are those
/// of `base`; the chain starts at `tip`; and the labels are a label table of
/// the references and stash entries.
pub open spec fn walk_read_ok(w: WalkRead) -> bool {
    let order = walk_order(w.base, w.stashes);
    &&& w.nodes.len() == order.len()
    &&& forall|i: int|
        0 <= i < w.nodes.len() ==> (#[trigger] w.nodes[i]).oid == order[i] && w.nodes[i].is_stash
            == w.stash_ids.contains(w.nodes[i].oid)
    &&& w.walk.0 == walk_globs()
    &&& w.walk.1
    &&& w.base_ids.len() == w.walk.2.len()
    &&& forall|i: int| 0 <= i < w.base_ids.len() ==> (#[trigger] w.base_ids[i])@ == w.walk.2[i]
    &&& w.base_ids.len() == w.base.len()
    &&& forall|i: int| 0 <= i < w.base.len() ==> (#[trigger] w.base[i]).1 == commit_time_name(w.base[i].0)
    &&& forall|i: int| 0 <= i < w.stashes.len() ==> (#[trigger] w.stashes[i]).1 == commit_time_name(w.stashes[i].0)
    &&& forall|i: int| 0 <= i < w.base.len() ==> (#[trigger] w.base_ids[i])@ == w.base[i].0
    &&& (w.tip is None ==> w.chain.len() == 0)
    &&& (w.tip matches Some(t) ==> w.chain.len() > 0 && w.chain[0]@ == t@)
    &&& is_ref_label_map(w.labels)
}

/// Node `k` is the first of the walk with its id.
pub open spec fn first_met(nodes: Seq<NodeView>, k: int) -> bool {
    forall|j: int| 0 <= j < k ==> #[trigger] nodes[j].oid != nodes[k].oid
}

/// Column 0 holds the `HEAD` chain: when `HEAD` has a commit, every row in
/// column 0 has colour 0; a commit of the chain, the first time the walk
/// meets it, is in column 0; and, when the chain holds the first parent of
/// each of its walked commits, every other commit that is not a stash is in
/// column 1 or beyond.
pub open spec fn head_lane_law(g: GraphResult, w: WalkRead, offset: int) -> bool {
    let n = w.nodes.len() as int;
    let start = if offset < n { offset } else { n };
    let chain = string_views(w.chain);
    w.chain.len() > 0 ==> forall|i: int|
        0 <= i < g.commits@.len() ==> {
            let c = #[trigger] g.commits@[i];
            &&& c.column == 0 ==> c.color_index == 0
            &&& (chain.contains(c.oid@) && first_met(w.nodes, start + i)) ==> c.column == 0
            &&& (chain_closed(w.nodes, read_context(w)) && !c.is_stash && !chain.contains(c.oid@)) ==> c.column
                >= 1
        }
}

/// `g` is the page, from `offset` and at most `limit` rows, of the layout of
/// the walk `w` read, and column 0 holds its `HEAD` chain.
pub open spec fn laid_out_from(g: GraphResult, w: WalkRead, offset: int, limit: int) -> bool {
    &&& walk_read_ok(w)
    &&& is_walk_page(g, w.nodes, read_context(w), w.labels, offset, limit)
    &&& head_lane_law(g, w, offset)
}

/// `g` is such a page of some walk read from the repository.
pub open spec fn is_some_walk_page(g: GraphResult, offset: int, limit: int) -> bool {
    exists|w: WalkRead| #[trigger] laid_out_from(g, w, offset, limit)
}

/// A page of a walk keeps column 0 for its `HEAD` chain.
pub proof fn lemma_head_lane_law(g: GraphResult, w: WalkRead, offset: int, limit: int)
    requires
        is_walk_page(g, w.nodes, read_context(w), w.labels, offset, limit),
        walk_budget(w.nodes, w.nodes.len() as int) + 3 < usize::MAX,
        0 <= offset,
        0 <= limit,
    ensures
        head_lane_law(g, w, offset),
{
    let nodes = w.nodes;
    let chain = w.chain;
    let ctx = read_context(w);
    let n = nodes.len() as int;
    let start = if offset < n { offset } else { n };
    let ps = walk_layout(nodes, ctx, n).1;
    let sv = string_views(chain);
    assert(chain.map_values(|s: String| s@) =~= sv);
    if chain.len() > 0 {
        assert(ctx.reserve_head);
        lemma_zero_lane(nodes, ctx, n, false);
        let closed = chain_closed(nodes, ctx);
        if closed {
            lemma_zero_lane(nodes, ctx, n, true);
        }
        assert forall|i: int| 0 <= i < g.commits@.len() implies {
            let c = #[trigger] g.commits@[i];
            &&& c.column == 0 ==> c.color_index == 0
            &&& (sv.contains(c.oid@) && first_met(nodes, start + i)) ==> c.column == 0
            &&& (closed && !c.is_stash && !sv.contains(c.oid@)) ==> c.column >= 1
        } by {
            let c = g.commits@[i];
            let k = start + i;
            assert(shows_node(c, nodes[k], ps[k], w.labels));
            assert(zero_lane_placement(ps[k], nodes[k], ctx, false));
            if sv.contains(c.oid@) && first_met(nodes, k) {
                assert(ctx.head_chain.contains(nodes[k].oid));
                assert forall|j: int| 0 <= j < k implies nodes[j].oid != nodes[k].oid by {
                    assert(nodes[j].oid != nodes[k].oid);
                }
                lemma_head_chain_in_column_zero(nodes, ctx, k);
            }
            if closed {
                assert(zero_lane_placement(ps[k], nodes[k], ctx, true));
            }
        }
    }
}

/// Two rows show the same commit the same way.
pub open spec fn same_row(a: GraphCommit, b: GraphCommit) -> bool {
    &&& a.oid@ == b.oid@
    &&& a.short_oid@ == b.short_oid@
    &&& a.parent_oids@.map_values(|s: String| s@) == b.parent_oids@.map_values(|s: String| s@)
    &&& a.is_stash == b.is_stash
    &&& a.is_merge == b.is_merge
    &&& a.is_head == b.is_head
    &&& a.column == b.column
    &&& a.color_index == b.color_index
    &&& edge_views(a.edges@) == edge_views(b.edges@)
    &&& a.is_branch_tip == b.is_branch_tip
    &&& label_views(a.refs@) == label_views(b.refs@)
    &&& a.summary@ == b.summary@
    &&& opt_view(a.body) == opt_view(b.body)
    &&& a.author_name@ == b.author_name@
    &&& a.author_email@ == b.author_email@
    &&& a.author_timestamp == b.author_timestamp
}

/// Paging: over one walk read, the page from `offset` is the slice of the
/// whole graph that starts there, row for row, and has the same width.
pub proof fn lemma_page_is_slice(g: GraphResult, all: GraphResult, w: WalkRead, offset: int, limit: int, i: int)
    requires
        laid_out_from(g, w, offset, limit),
        laid_out_from(all, w, 0, usize::MAX as int),
        w.nodes.len() <= usize::MAX,
        0 <= offset,
        0 <= limit,
        0 <= i < g.commits@.len(),
    ensures
        g.max_columns == all.max_columns,
        all.commits@.len() == w.nodes.len(),
        same_row(g.commits@[i], all.commits@[(if offset < w.nodes.len() { offset } else { w.nodes.len() as int }) + i]),
{
    let n = w.nodes.len() as int;
    let start = if offset < n { offset } else { n };
    let ps = walk_layout(w.nodes, read_context(w), n).1;
    let a = g.commits@[i];
    let b = all.commits@[start + i];
    assert(shows_node(a, w.nodes[start + i], ps[start + i], w.labels));
    assert(shows_node(b, w.nodes[0 + (start + i)], ps[0 + (start + i)], w.labels));
    assert(a.parent_oids@.map_values(|s: String| s@) == b.parent_oids@.map_values(|s: String| s@));
    assert(a.is_head == b.is_head) by {
        assert(label_views(a.refs@) == label_views(b.refs@));
        assert(a.refs@.len() == b.refs@.len()) by {
            assert(label_views(a.refs@).len() == label_views(b.refs@).len());
        }
        assert forall|j: int| 0 <= j < a.refs@.len() implies a.refs@[j].is_head == b.refs@[j].is_head by {
            assert(label_views(a.refs@)[j] == label_views(b.refs@)[j]);
        }
        if a.is_head {
            let j = choose|j: int| 0 <= j < a.refs@.len() && (#[trigger] a.refs@[j]).is_head;
            assert(b.refs@[j].is_head);
        }
        if b.is_head {
            let j = choose|j: int| 0 <= j < b.refs@.len() && (#[trigger] b.refs@[j]).is_head;
            assert(a.refs@[j].is_head);
        }
    }
}

/// A page of the commit graph: every commit reachable from a branch, remote
/// branch or tag, with the stash entries among them by time, laid out in
/// lanes over the whole history; the commits from position `offset`, at
/// most `limit` of them, are returned with their labels.
pub fn walk_commits(repo: &mut git2::Repository, offset: usize, limit: usize) -> (r: Result<GraphResult, TrunkError>)
    requires
        offset + limit <= usize::MAX,
    ensures
        r matches Ok(g) ==> g.commits@.len() <= limit && forall|i: int|
            0 <= i < g.commits@.len() ==> commit_within(#[trigger] g.commits@[i], g.max_columns),
        r matches Ok(g) ==> is_some_walk_page(g, offset as int, limit as int),
        r matches Err(e) ==> e.code@ == "git_error"@ || e.code@ == "graph_too_large"@,
{
    let ref_map = build_ref_map(repo);
    let stashes = stash_list(repo);
    let mut stamped: Vec<(String, i64)> = Vec::new();
    let mut stash_ids: Vec<String> = Vec::new();
    for i in 0..stashes.len()
        invariant
            forall|j: int| 0 <= j < stamped@.len() ==> (#[trigger] stamped@[j]).1 == commit_time_name(stamped@[j].0@),
    {
        let s = &stashes[i];
        stash_ids.push(s.oid.clone());
        match time_by_id(repo, s.oid.as_str()) {
            Ok(t) => stamped.push((s.oid.clone(), t)),
            Err(_) => {},
        }
    }
    let stash_set = string_set(&stash_ids);
    let mut base: Vec<(String, i64)> = Vec::new();
    let mut base_ids: Vec<String> = Vec::new();
    let ghost mut walked: (Seq<Seq<char>>, bool, Seq<Seq<char>>) = (Seq::empty(), false, Seq::empty());
    {
        let mut w = match revwalk(repo) {
            Ok(w) => w,
            Err(e) => return Err(git_failure(&e)),
        };
        for g in 0..3usize
            invariant
                w@ == (walk_globs().take(g as int), false, Seq::<Seq<char>>::empty()),
        {
            let glob = if g == 0 {
                "refs/heads"
            } else if g == 1 {
                "refs/remotes"
            } else {
                "refs/tags"
            };
            assert(glob@ == walk_globs()[g as int]);
            match push_glob(&mut w, glob) {
                Ok(()) => {},
                Err(e) => return Err(git_failure(&e)),
            }
            assert(walk_globs().take(g as int).push(glob@) =~= walk_globs().take(g + 1));
        }
        assert(walk_globs().take(3) =~= walk_globs());
        match sort_topological_by_time(&mut w) {
            Ok(()) => {},
            Err(e) => return Err(git_failure(&e)),
        }
        let mut fuel: usize = usize::MAX;
        while fuel > 0
            invariant
                w@.0 == walk_globs(),
                w@.1,
                base_ids@.len() == w@.2.len(),
                forall|i: int| 0 <= i < base_ids@.len() ==> (#[trigger] base_ids@[i])@ == w@.2[i],
            decreases fuel,
        {
            match next_oid(&mut w) {
                None => break,
                Some(Ok(o)) => base_ids.push(o),
                Some(Err(e)) => return Err(git_failure(&e)),
            }
            fuel = fuel - 1;
        }
        proof {
            walked = w@;
        }
    }
    assert(walked.0 == walk_globs() && walked.1 && base_ids@.len() == walked.2.len());
    for i in 0..base_ids.len()
        invariant
            walked.0 == walk_globs() && walked.1 && base_ids@.len() == walked.2.len(),
            forall|j: int| 0 <= j < base_ids@.len() ==> (#[trigger] base_ids@[j])@ == walked.2[j],
            base@.len() == i,
            forall|j: int| 0 <= j < i ==> (#[trigger] base@[j]).0@ == base_ids@[j]@,
            forall|j: int| 0 <= j < i ==> (#[trigger] base@[j]).1 == commit_time_name(base_ids@[j]@),
            forall|j: int| 0 <= j < stamped@.len() ==> (#[trigger] stamped@[j]).1 == commit_time_name(stamped@[j].0@),
    {
        let t = match time_by_id(repo, base_ids[i].as_str()) {
            Ok(t) => t,
            Err(e) => return Err(git_failure(&e)),
        };
        base.push((base_ids[i].clone(), t));
    }
    let oids = order_walk(&base, &stamped);
    let n = oids.len();
    let start = if offset < n { offset } else { n };
    let end = if offset + limit < n { offset + limit } else { n };
    let (chain, tip) = head_chain(repo);
    let mut nodes: Vec<WalkNode> = Vec::new();
    for i in 0..n
        invariant
            n == oids@.len(),
            nodes@.len() == i,
            forall|j: int|
                0 <= j < i ==> (#[trigger] nodes@[j]).oid@ == oids@[j]@ && nodes@[j].is_stash
                    == stash_set@.contains_key(oids@[j]@),
    {
        let parents = match parents_by_id(repo, oids[i].as_str()) {
            Ok(ps) => ps,
            Err(e) => return Err(git_failure(&e)),
        };
        let is_stash = stash_set.contains_key(oids[i].as_str());
        let node = WalkNode { oid: oids[i].clone(), parents, is_stash };
        nodes.push(node);
    }
    if !walk_fits(&nodes) {
        return Err(TrunkError::new("graph_too_large", "The commit graph is too large to lay out"));
    }
    let (placed, max_columns) = lay_out_walk(&nodes, &chain, &tip, &base_ids);
    let ghost nv = node_views(nodes@);
    let ghost ctx = walk_context(chain@, tip, base_ids@);
    let ghost ps = walk_layout(nv, ctx, n as int).1;
    let ghost lm = labels_view(ref_map@);
    let mut commits: Vec<GraphCommit> = Vec::new();
    let mut pos = start;
    while pos < end
        invariant
            start <= pos <= end <= n,
            end - start <= limit,
            n == nodes@.len(),
            start == (if offset < n { offset } else { n }),
            end == (if offset + limit < n { offset + limit } else { n as int }),
            nv == node_views(nodes@),
            lm == labels_view(ref_map@),
            placed@.len() == n,
            placed@.map_values(|p: PlacedCommit| p@) == ps,
            commits@.len() == pos - start,
            forall|i: int| 0 <= i < placed@.len() ==> placement_within(#[trigger] placed@[i]@, max_columns as nat),
            forall|i: int| 0 <= i < commits@.len() ==> commit_within(#[trigger] commits@[i], max_columns),
            forall|i: int|
                0 <= i < commits@.len() ==> shows_node(#[trigger] commits@[i], nv[start + i], ps[start + i], lm),
        decreases end - pos,
    {
        let node = &nodes[pos];
        let summary = match summary_by_id(repo, node.oid.as_str()) {
            Ok(s) => s,
            Err(e) => return Err(git_failure(&e)),
        };
        let body = match body_by_id(repo, node.oid.as_str()) {
            Ok(b) => b,
            Err(e) => return Err(git_failure(&e)),
        };
        let (author_name, author_email, author_time) = match author_by_id(repo, node.oid.as_str()) {
            Ok(a) => a,
            Err(e) => return Err(git_failure(&e)),
        };
        let p = &placed[pos];
        assert(placement_within(placed@[pos as int]@, max_columns as nat));
        let refs = labels_for(&ref_map, &node.oid, p.color_index);
        let is_head = any_head(&refs);
        let is_merge = !node.is_stash && node.parents.len() >= 2;
        let mut parent_oids: Vec<String> = Vec::new();
        if node.is_stash {
            if node.parents.len() > 0 {
                parent_oids.push(node.parents[0].clone());
            }
        } else {
            for k in 0..node.parents.len()
                invariant
                    string_views(parent_oids@) == string_views(node.parents@).take(k as int),
            {
                let ghost before = parent_oids@;
                let c = node.parents[k].clone();
                parent_oids.push(c);
                assert(string_views(parent_oids@) =~= string_views(before).push(c@));
                assert(string_views(node.parents@).take(k + 1) =~= string_views(node.parents@).take(
                    k as int,
                ).push(c@));
            }
            assert(string_views(node.parents@).take(node.parents@.len() as int) =~= string_views(
                node.parents@,
            ));
        }
        let gc = GraphCommit {
            oid: node.oid.clone(),
            short_oid: short_oid(node.oid.as_str()),
            summary: match summary {
                Some(s) => s,
                None => String::new(),
            },
            body,
            author_name: match author_name {
                Some(s) => s,
                None => String::new(),
            },
            author_email: match author_email {
                Some(s) => s,
                None => String::new(),
            },
            author_timestamp: author_time,
            parent_oids,
            column: p.column,
            color_index: p.color_index,
            edges: copy_edges(&p.edges),
            refs,
            is_head,
            is_merge,
            is_branch_tip: p.is_branch_tip,
            is_stash: node.is_stash,
        };
        proof {
            assert(nv[pos as int] == nodes@[pos as int]@);
            assert(gc.parent_oids@.map_values(|s: String| s@) =~= shown_parents(nv[pos as int]));
            assert(ps[pos as int] == placed@[pos as int]@);
            assert(shows_node(gc, nv[start + (pos - start)], ps[start + (pos - start)], lm));
        }
        commits.push(gc);
        pos = pos + 1;
    }
    let g = GraphResult { commits, max_columns };
    let ghost w = WalkRead {
        walk: walked,
        base: stamped_views(base@),
        stashes: stamped_views(stamped@),
        stash_ids: stash_set@.dom(),
        base_ids: base_ids@,
        nodes: nv,
        chain: chain@,
        tip,
        labels: lm,
    };
    assert(is_walk_page(g, w.nodes, read_context(w), w.labels, offset as int, limit as int));
    proof {
        lemma_head_lane_law(g, w, offset as int, limit as int);
        let order = walk_order(w.base, w.stashes);
        assert forall|i: int| 0 <= i < w.nodes.len() implies (#[trigger] w.nodes[i]).oid == order[i]
            && w.nodes[i].is_stash == w.stash_ids.contains(w.nodes[i].oid) by {
            assert(nv[i] == nodes@[i]@);
            assert(oids@.map_values(|s: String| s@)[i] == oids@[i]@);
        }
        assert forall|i: int| 0 <= i < w.base.len() implies (#[trigger] w.base_ids[i])@ == w.base[i].0 by {
            assert(stamped_views(base@)[i] == (base@[i].0@, base@[i].1));
        }
        assert forall|i: int| 0 <= i < w.base.len() implies (#[trigger] w.base[i]).1 == commit_time_name(w.base[i].0) by {
            assert(stamped_views(base@)[i] == (base@[i].0@, base@[i].1));
        }
        assert forall|i: int| 0 <= i < w.stashes.len() implies (#[trigger] w.stashes[i]).1 == commit_time_name(w.stashes[i].0) by {
            assert(stamped_views(stamped@)[i] == (stamped@[i].0@, stamped@[i].1));
        }
    }
    assert(walk_read_ok(w));
    assert(laid_out_from(g, w, offset as int, limit as int));
    assert(is_some_walk_page(g, offset as int, limit as int));
    Ok(g)
}

} // verus!
