//! A walker that is driven over a directory tree gives out what the walk of
//! that tree is stated to give out.

use vstd::prelude::*;
use crate::entry::{descends, Config, EntryView};
use crate::model::{
    any_line, elbows, every_line, lemma_conflict_shows_nothing, lemma_conflict_walks_nothing,
    lemma_depth_limit, lemma_hidden_stay_out, lemma_limit_cuts_at_depth,
    lemma_one_elbow_per_listing, line_within, lines_where, listed, plain_line, unlimited, walk,
    walk_below, walk_root, walk_slots, Tree,
};
use crate::order::{lemma_visible_arranges, SlotView};
use crate::walk::{
    advance_spec, settle, start_spec, supply_spec, EventView, FrameView, PhaseView, StepView,
    WalkerView,
};

verus! {

/// The directory that the open directory number `level` of a walker is,
/// found from the root by way of the slots whose lines came last.
pub open spec fn opened(root: Tree, frames: Seq<FrameView>, level: int) -> Tree
    decreases level,
{
    if level <= 0 {
        root
    } else {
        opened(root, frames, level - 1).children[frames[level - 1].current().index].below
    }
}

/// The directory that a waiting walker asks for.
pub open spec fn awaited(root: Tree, frames: Seq<FrameView>) -> Tree {
    opened(root, frames, frames.len() as int)
}

/// What a walker gives out when its caller takes up to `fuel` steps and
/// answers every request with the listing that `root` holds for the
/// directory asked for.
pub open spec fn drive(w: WalkerView, root: Tree, fuel: nat) -> Seq<EventView>
    decreases fuel,
{
    if fuel == 0 {
        Seq::empty()
    } else {
        let (after, step) = advance_spec(w);
        match step {
            StepView::Done => Seq::empty(),
            StepView::Emit(event) => seq![event] + drive(after, root, (fuel - 1) as nat),
            StepView::Read(_) => drive(
                supply_spec(after, awaited(root, after.frames).listing()),
                root,
                (fuel - 1) as nat,
            ),
        }
    }
}

/// How many steps the walk of `tree` takes.
pub open spec fn steps(tree: Tree, config: Config, depth: nat) -> nat
    decreases tree, 1nat, 0nat,
{
    if tree.failure is Some {
        2
    } else {
        1 + steps_of_slots(tree, tree.slots(config), 0, config, depth)
    }
}

/// How many steps the walk takes for `slots[from..]`.
pub open spec fn steps_of_slots(tree: Tree, slots: Seq<SlotView>, from: int, config: Config, depth: nat) -> nat
    decreases tree, 0nat, slots.len() - from,
{
    if from < 0 || from >= slots.len() {
        0
    } else {
        1 + steps_below(tree, slots, from, config, depth) + steps_of_slots(
            tree,
            slots,
            from + 1,
            config,
            depth,
        )
    }
}

/// How many steps the walk takes below `slots[at]`.
pub open spec fn steps_below(tree: Tree, slots: Seq<SlotView>, at: int, config: Config, depth: nat) -> nat
    decreases tree, 0nat, 0nat,
{
    let slot = slots[at];
    if 0 <= at < slots.len() && descends(slot.entry.kind, depth, config) && 0 <= slot.index
        < tree.children.len() {
        steps(tree.children[slot.index].below, config, depth + 1)
    } else {
        0
    }
}

/// Whether the open directory number `level` of a walker agrees with the
/// tree: it is readable, the frame holds its slots and the prefix of its
/// lines, and the walk descended into it.
pub open spec fn frame_in_step(w: WalkerView, root: Tree, level: int) -> bool {
    let frame = w.frames[level];
    let dir = opened(root, w.frames, level);
    &&& dir.failure is None
    &&& frame.slots == dir.slots(w.config)
    &&& 0 <= frame.next <= frame.slots.len()
    &&& level == 0 ==> frame.prefix == Seq::<char>::empty()
    &&& level > 0 ==> {
        let parent = w.frames[level - 1];
        &&& parent.next >= 1
        &&& descends(parent.current().entry.kind, level as nat, w.config)
        &&& frame.prefix == parent.prefix_below()
    }
}

/// Whether a walker agrees with the tree that it is driven over.
pub open spec fn in_step(w: WalkerView, root: Tree) -> bool {
    &&& forall|level: int| 0 <= level < w.frames.len() ==> #[trigger] frame_in_step(w, root, level)
    &&& w.phase !is Ready ==> {
        &&& w.frames.len() > 0
        &&& w.frames.last().next >= 1
        &&& descends(w.frames.last().current().entry.kind, w.frames.len(), w.config)
    }
    &&& w.phase matches PhaseView::Awaiting { path, prefix } ==> {
        &&& path == w.frames.last().current().entry.path
        &&& prefix == w.frames.last().prefix_below()
    }
    &&& w.phase matches PhaseView::Failed { path, reason } ==> {
        &&& path == w.frames.last().current().entry.path
        &&& awaited(root, w.frames).failure == Some(reason)
    }
}

/// What is still to come from the open directories up to number `level`,
/// the innermost first.
pub open spec fn pending_from(w: WalkerView, root: Tree, level: int) -> Seq<EventView>
    decreases level + 1,
{
    if level < 0 {
        Seq::empty()
    } else {
        walk_slots(
            opened(root, w.frames, level),
            w.frames[level].slots,
            w.frames[level].next,
            w.config,
            w.frames[level].prefix,
            (level + 1) as nat,
        ) + pending_from(w, root, level - 1)
    }
}

/// What is still to come from the directory that the walker waits for, or
/// whose failure it has yet to give out.
pub open spec fn pending_below(w: WalkerView, root: Tree) -> Seq<EventView> {
    if w.phase is Ready {
        Seq::empty()
    } else {
        walk(
            awaited(root, w.frames),
            w.frames.last().current().entry.path,
            w.config,
            w.frames.last().prefix_below(),
            w.frames.len() + 1,
        )
    }
}

/// All that is still to come from a walker.
pub open spec fn pending(w: WalkerView, root: Tree) -> Seq<EventView> {
    pending_below(w, root) + pending_from(w, root, w.frames.len() - 1)
}

/// How many steps are still to come from the open directories up to number
/// `level`.
pub open spec fn steps_from(w: WalkerView, root: Tree, level: int) -> nat
    decreases level + 1,
{
    if level < 0 {
        0
    } else {
        steps_of_slots(
            opened(root, w.frames, level),
            w.frames[level].slots,
            w.frames[level].next,
            w.config,
            (level + 1) as nat,
        ) + steps_from(w, root, level - 1)
    }
}

/// How many steps are still to come from a walker.
pub open spec fn steps_left(w: WalkerView, root: Tree) -> nat {
    steps_from(w, root, w.frames.len() - 1) + match w.phase {
        PhaseView::Ready => 0,
        PhaseView::Awaiting { .. } => steps(awaited(root, w.frames), w.config, w.frames.len() + 1),
        PhaseView::Failed { .. } => 1,
    }
}

/// Whether two walkers have the same options and the same open directories
/// up to number `level`.
pub open spec fn agree(w1: WalkerView, w2: WalkerView, level: int) -> bool {
    &&& w1.config == w2.config
    &&& forall|j: int| 0 <= j <= level ==> #[trigger] w1.frames[j] == w2.frames[j]
}

/// Which directory is open at `level` depends on the frames below it
/// alone.
proof fn lemma_opened_agrees(root: Tree, w1: WalkerView, w2: WalkerView, level: int)
    requires
        agree(w1, w2, level - 1),
    ensures
        opened(root, w1.frames, level) == opened(root, w2.frames, level),
    decreases level,
{
    if level > 0 {
        lemma_opened_agrees(root, w1, w2, level - 1);
        assert(w1.frames[level - 1] == w2.frames[level - 1]);
    }
}

/// What is still to come from the frames up to `level` depends on these
/// frames alone.
proof fn lemma_pending_agrees(root: Tree, w1: WalkerView, w2: WalkerView, level: int)
    requires
        agree(w1, w2, level),
    ensures
        pending_from(w1, root, level) == pending_from(w2, root, level),
        steps_from(w1, root, level) == steps_from(w2, root, level),
    decreases level + 1,
{
    if level >= 0 {
        lemma_pending_agrees(root, w1, w2, level - 1);
        lemma_opened_agrees(root, w1, w2, level);
        assert(w1.frames[level] == w2.frames[level]);
    }
}

/// Whether the frame at `level` agrees with the tree depends on the
/// frames up to `level` alone.
proof fn lemma_in_step_agrees(root: Tree, w1: WalkerView, w2: WalkerView, level: int)
    requires
        agree(w1, w2, level),
        0 <= level,
    ensures
        frame_in_step(w1, root, level) == frame_in_step(w2, root, level),
{
    lemma_opened_agrees(root, w1, w2, level);
    assert(w1.frames[level] == w2.frames[level]);
    if level > 0 {
        assert(w1.frames[level - 1] == w2.frames[level - 1]);
    }
}

/// The slot at `at` of an open directory that agrees with the tree stands
/// for an entry of that directory.
proof fn lemma_slot_in_tree(w: WalkerView, root: Tree, level: int, at: int)
    requires
        0 <= level < w.frames.len(),
        frame_in_step(w, root, level),
        0 <= at < w.frames[level].slots.len(),
    ensures
        0 <= w.frames[level].slots[at].index < opened(root, w.frames, level).children.len(),
{
    let dir = opened(root, w.frames, level);
    lemma_visible_arranges(dir.entries(), w.config);
    let slot = w.frames[level].slots[at];
    assert(slot == dir.slots(w.config)[at]);
}

/// Closing the exhausted directories on top changes nothing of what is
/// still to come.
proof fn lemma_settle(w: WalkerView, root: Tree)
    requires
        in_step(w, root),
        w.phase is Ready,
    ensures
        in_step(WalkerView { frames: settle(w.frames), ..w }, root),
        pending(WalkerView { frames: settle(w.frames), ..w }, root) == pending(w, root),
        steps_left(WalkerView { frames: settle(w.frames), ..w }, root) == steps_left(w, root),
        settle(w.frames).len() > 0 ==> !settle(w.frames).last().exhausted(),
    decreases w.frames.len(),
{
    if w.frames.len() > 0 && w.frames.last().exhausted() {
        let top = w.frames.len() - 1;
        let shorter = WalkerView { frames: w.frames.drop_last(), ..w };
        assert(agree(shorter, w, top - 1));
        assert forall|level: int| 0 <= level < shorter.frames.len() implies #[trigger] frame_in_step(
            shorter,
            root,
            level,
        ) by {
            assert(agree(shorter, w, level));
            lemma_in_step_agrees(root, shorter, w, level);
            assert(frame_in_step(w, root, level));
        }
        lemma_pending_agrees(root, shorter, w, top - 1);
        assert(frame_in_step(w, root, top));
        assert(pending(w, root) =~= pending(shorter, root));
        lemma_settle(shorter, root);
    } else {
        assert(WalkerView { frames: settle(w.frames), ..w } == w);
    }
}

/// One step of a walker that agrees with the tree gives out the head of
/// what is still to come, and leaves a walker that agrees with the tree.
pub proof fn lemma_advance(w: WalkerView, root: Tree)
    requires
        in_step(w, root),
    ensures
        match advance_spec(w).1 {
            StepView::Done => pending(w, root) == Seq::<EventView>::empty(),
            StepView::Emit(event) => {
                &&& in_step(advance_spec(w).0, root)
                &&& pending(w, root) == seq![event] + pending(advance_spec(w).0, root)
                &&& steps_left(advance_spec(w).0, root) < steps_left(w, root)
            },
            StepView::Read(_) => w.phase is Awaiting && advance_spec(w).0 == w,
        },
{
    let after = advance_spec(w).0;
    match w.phase {
        PhaseView::Awaiting { .. } => {},
        PhaseView::Failed { path, reason } => {
            let top = w.frames.len() - 1;
            assert(agree(after, w, top));
            assert forall|level: int| 0 <= level < after.frames.len() implies #[trigger] frame_in_step(
                after,
                root,
                level,
            ) by {
                assert(agree(after, w, level));
                lemma_in_step_agrees(root, after, w, level);
                assert(frame_in_step(w, root, level));
            }
            lemma_pending_agrees(root, after, w, top);
            assert(pending(w, root) =~= seq![EventView::ReadFailed { path, reason }] + pending(
                after,
                root,
            ));
        },
        PhaseView::Ready => {
            lemma_settle(w, root);
            let settled = WalkerView { frames: settle(w.frames), ..w };
            let frames = settled.frames;
            if frames.len() > 0 {
                let top = frames.len() - 1;
                let frame = frames[top];
                assert(frame_in_step(settled, root, top));
                let dir = opened(root, frames, top);
                let depth = frames.len();
                lemma_slot_in_tree(settled, root, top, frame.next);
                assert(agree(after, settled, top - 1));
                lemma_opened_agrees(root, after, settled, top);
                lemma_pending_agrees(root, after, settled, top - 1);
                assert forall|level: int| 0 <= level < after.frames.len() implies #[trigger] frame_in_step(
                    after,
                    root,
                    level,
                ) by {
                    assert(frame_in_step(settled, root, level));
                    if level < top {
                        assert(agree(after, settled, level));
                        lemma_in_step_agrees(root, after, settled, level);
                    }
                }
                let line = seq![advance_spec(w).1->Emit_0];
                let below = walk_below(dir, frame.slots, frame.next, w.config, frame.prefix, depth);
                let rest = walk_slots(
                    dir,
                    frame.slots,
                    frame.next + 1,
                    w.config,
                    frame.prefix,
                    depth,
                );
                let older = pending_from(settled, root, top - 1);
                assert(walk_slots(dir, frame.slots, frame.next, w.config, frame.prefix, depth)
                    == line + below + rest);
                assert(pending_below(after, root) == below);
                assert(pending(settled, root) =~= line + (below + (rest + older)));
                assert(pending(after, root) =~= below + (rest + older));
                assert(steps_left(settled, root) == 1 + steps_below(
                    dir,
                    frame.slots,
                    frame.next,
                    w.config,
                    depth,
                ) + steps_of_slots(dir, frame.slots, frame.next + 1, w.config, depth) + steps_from(
                    settled,
                    root,
                    top - 1,
                ));
                assert(steps_left(after, root) == steps_left(settled, root) - 1);
            }
        },
    }
}

/// Handing a waiting walker the listing that the tree holds for the
/// directory asked for changes nothing of what is still to come, and leaves
/// a walker that agrees with the tree.
pub proof fn lemma_supply(w: WalkerView, root: Tree)
    requires
        in_step(w, root),
        w.phase is Awaiting,
    ensures
        in_step(supply_spec(w, awaited(root, w.frames).listing()), root),
        pending(supply_spec(w, awaited(root, w.frames).listing()), root) == pending(w, root),
        steps_left(supply_spec(w, awaited(root, w.frames).listing()), root) < steps_left(w, root),
{
    let dir = awaited(root, w.frames);
    let after = supply_spec(w, dir.listing());
    let top = w.frames.len() - 1;
    assert(agree(after, w, top));
    assert forall|level: int| 0 <= level <= top implies #[trigger] frame_in_step(
        after,
        root,
        level,
    ) by {
        assert(agree(after, w, level));
        lemma_in_step_agrees(root, after, w, level);
        assert(frame_in_step(w, root, level));
    }
    lemma_pending_agrees(root, after, w, top);
    lemma_opened_agrees(root, after, w, top + 1);
    match dir.failure {
        Some(reason) => {
            assert(after.frames == w.frames);
        },
        None => {
            assert(opened(root, after.frames, top + 1) == dir);
            assert(frame_in_step(after, root, top + 1));
            assert(pending(after, root) =~= pending(w, root));
        },
    }
}

/// A walker that agrees with the tree and is driven for as many steps as
/// are still to come gives out all that is still to come.
pub proof fn lemma_drive(w: WalkerView, root: Tree, fuel: nat)
    requires
        in_step(w, root),
        fuel > steps_left(w, root),
    ensures
        drive(w, root, fuel) == pending(w, root),
    decreases fuel,
{
    let (after, step) = advance_spec(w);
    lemma_advance(w, root);
    match step {
        StepView::Done => {},
        StepView::Emit(event) => {
            lemma_drive(after, root, (fuel - 1) as nat);
        },
        StepView::Read(_) => {
            lemma_supply(w, root);
            lemma_drive(
                supply_spec(w, awaited(root, w.frames).listing()),
                root,
                (fuel - 1) as nat,
            );
        },
    }
}

/// A walker that is done stays done.
pub proof fn lemma_done_stays_done(w: WalkerView)
    requires
        advance_spec(w).1 == StepView::Done,
    ensures
        advance_spec(advance_spec(w).0) == (advance_spec(w).0, StepView::Done),
{
    assert(settle(Seq::<FrameView>::empty()) == Seq::<FrameView>::empty());
}

/// A walker that starts on the listing of a readable root agrees with the
/// tree, and the whole walk is still to come.
pub proof fn lemma_start(root: Tree, path: Seq<char>, config: Config)
    requires
        root.failure is None,
    ensures
        in_step(start_spec(config, root.entries()), root),
        pending(start_spec(config, root.entries()), root) == walk_root(root, path, config),
        steps_left(start_spec(config, root.entries()), root) + 1 == steps(root, config, 1),
{
    let w = start_spec(config, root.entries());
    assert(frame_in_step(w, root, 0));
    assert(pending_from(w, root, -1) == Seq::<EventView>::empty());
    assert(pending(w, root) =~= walk_root(root, path, config));
    assert(steps_from(w, root, -1) == 0);
}

/// A walker that is started on the listing of a readable root, and whose
/// every request is answered with the listing that the tree holds for the
/// directory asked for, gives out exactly the walk of the tree, once the
/// caller has taken enough steps.
pub proof fn lemma_walker_gives_walk(root: Tree, path: Seq<char>, config: Config, fuel: nat)
    requires
        root.failure is None,
        fuel >= steps(root, config, 1),
    ensures
        drive(start_spec(config, root.entries()), root, fuel) == walk_root(root, path, config),
{
    lemma_start(root, path, config);
    lemma_drive(start_spec(config, root.entries()), root, fuel);
}

/// A driven walker gives out as many lines with the connector of a last
/// entry as there are directories, the root among them, that it reads and
/// finds with at least one entry to show.
pub proof fn lemma_walker_one_elbow_per_listing(root: Tree, config: Config, fuel: nat)
    requires
        root.failure is None,
        fuel >= steps(root, config, 1),
    ensures
        elbows(drive(start_spec(config, root.entries()), root, fuel)) == listed(root, config, 1),
{
    lemma_walker_gives_walk(root, Seq::empty(), config, fuel);
    lemma_one_elbow_per_listing(root, Seq::empty(), config, Seq::empty(), 1);
}

/// Without `show_hidden`, a driven walker gives out no line whose name
/// starts with a dot.
pub proof fn lemma_walker_hides(root: Tree, config: Config, fuel: nat)
    requires
        root.failure is None,
        fuel >= steps(root, config, 1),
        !config.show_hidden,
    ensures
        every_line(drive(start_spec(config, root.entries()), root, fuel), plain_line()),
{
    lemma_walker_gives_walk(root, Seq::empty(), config, fuel);
    lemma_hidden_stay_out(root, Seq::empty(), config, Seq::empty(), 1);
}

/// With a depth limit, a driven walker gives out no line that stands deeper
/// than the limit, and every line up to the limit that it gives out without
/// one.
pub proof fn lemma_walker_keeps_limit(root: Tree, config: Config, fuel: nat, free_fuel: nat)
    requires
        root.failure is None,
        config.max_depth > 0,
        fuel >= steps(root, config, 1),
        free_fuel >= steps(root, unlimited(config), 1),
    ensures
        every_line(
            drive(start_spec(config, root.entries()), root, fuel),
            line_within(config.max_depth as nat),
        ),
        lines_where(drive(start_spec(config, root.entries()), root, fuel), any_line())
            == lines_where(
            drive(start_spec(unlimited(config), root.entries()), root, free_fuel),
            line_within(config.max_depth as nat),
        ),
{
    lemma_walker_gives_walk(root, Seq::empty(), config, fuel);
    lemma_walker_gives_walk(root, Seq::empty(), unlimited(config), free_fuel);
    lemma_depth_limit(root, Seq::empty(), config, Seq::empty(), 1);
    lemma_limit_cuts_at_depth(root, Seq::empty(), config, Seq::empty(), 1);
}

/// With both `directory_only` and `file_only`, a driven walker gives out
/// nothing.
pub proof fn lemma_walker_conflict(root: Tree, config: Config, fuel: nat)
    requires
        root.failure is None,
        config.directory_only,
        config.file_only,
    ensures
        drive(start_spec(config, root.entries()), root, fuel) == Seq::<EventView>::empty(),
{
    lemma_conflict_walks_nothing(root, Seq::empty(), config, Seq::empty(), 1);
    lemma_conflict_shows_nothing(root.entries(), config);
    assert(steps(root, config, 1) == 1);
    if fuel > 0 {
        lemma_walker_gives_walk(root, Seq::empty(), config, fuel);
    }
}

/// Two walks of the same tree under the same options give out the same.
pub proof fn lemma_same_tree_same_events(
    root: Tree,
    config: Config,
    first_fuel: nat,
    second_fuel: nat,
)
    requires
        root.failure is None,
        first_fuel >= steps(root, config, 1),
        second_fuel >= steps(root, config, 1),
    ensures
        drive(start_spec(config, root.entries()), root, first_fuel) == drive(
            start_spec(config, root.entries()),
            root,
            second_fuel,
        ),
{
    lemma_walker_gives_walk(root, Seq::empty(), config, first_fuel);
    lemma_walker_gives_walk(root, Seq::empty(), config, second_fuel);
}

} // verus!
