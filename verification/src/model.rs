//! What a walk gives out, stated over a whole directory tree at once, and
//! what holds of it.

use vstd::prelude::*;
use crate::entry::{descends, shown, Config, EntryView, FileType};
use crate::order::{lemma_visible_arranges, lemma_visible_same_filters, visible, SlotView};
use crate::render::{line_of, segment_text, RenderLineView};
use crate::text::hidden;
use crate::walk::{EventView, ListingView, ReadFailure};

verus! {

/// A directory as a walk finds it: the reason why it cannot be read, or its
/// entries in the order in which they are read, each with what is found
/// below it.
pub ghost struct Tree {
    pub failure: Option<ReadFailure>,
    pub children: Seq<Child>,
}

/// An entry of a directory, and the directory that reading it finds. For an
/// entry that is never read, `below` stands for nothing.
pub ghost struct Child {
    pub entry: EntryView,
    pub below: Tree,
}

impl Tree {
    /// The entries of this directory, in the order in which they are read.
    pub open spec fn entries(self) -> Seq<EntryView> {
        self.children.map_values(|c: Child| c.entry)
    }

    /// What reading this directory gives.
    pub open spec fn listing(self) -> ListingView {
        match self.failure {
            Some(reason) => ListingView::Failed(reason),
            None => ListingView::Entries(self.entries()),
        }
    }

    /// The slots of this directory.
    pub open spec fn slots(self, config: Config) -> Seq<SlotView> {
        visible(self.entries(), config)
    }
}

/// What the walk gives out for the directory `tree` at `path`, whose
/// entries stand `depth` levels below the root and are drawn under
/// `prefix`: the notice for a directory that cannot be read; else, for each
/// slot in order, its line and then, if the walk descends into it, all that
/// the walk gives out for the directory below.
pub open spec fn walk(
    tree: Tree,
    path: Seq<char>,
    config: Config,
    prefix: Seq<char>,
    depth: nat,
) -> Seq<EventView>
    decreases tree, 1nat, 0nat,
{
    match tree.failure {
        Some(reason) => seq![EventView::ReadFailed { path, reason }],
        None => walk_slots(tree, tree.slots(config), 0, config, prefix, depth),
    }
}

/// What the walk gives out for `slots[from..]` of the directory `tree`.
pub open spec fn walk_slots(
    tree: Tree,
    slots: Seq<SlotView>,
    from: int,
    config: Config,
    prefix: Seq<char>,
    depth: nat,
) -> Seq<EventView>
    decreases tree, 0nat, slots.len() - from,
{
    if from < 0 || from >= slots.len() {
        Seq::empty()
    } else {
        seq![EventView::Line(line_of(slots[from].entry, prefix, from == slots.len() - 1, depth))]
            + walk_below(tree, slots, from, config, prefix, depth) + walk_slots(
            tree,
            slots,
            from + 1,
            config,
            prefix,
            depth,
        )
    }
}

/// What the walk gives out below the slot `slots[at]` of the directory
/// `tree`: nothing, unless the walk descends into it.
pub open spec fn walk_below(
    tree: Tree,
    slots: Seq<SlotView>,
    at: int,
    config: Config,
    prefix: Seq<char>,
    depth: nat,
) -> Seq<EventView>
    decreases tree, 0nat, 0nat,
{
    let slot = slots[at];
    if 0 <= at < slots.len() && descends(slot.entry.kind, depth, config) && 0 <= slot.index
        < tree.children.len() {
        walk(
            tree.children[slot.index].below,
            slot.entry.path,
            config,
            prefix + segment_text(at == slots.len() - 1),
            depth + 1,
        )
    } else {
        Seq::empty()
    }
}

/// A directory that cannot be read costs one notice and nothing else: below
/// its line comes the notice alone, and what comes for the slots behind it
/// is what comes for them in any case.
pub proof fn lemma_failure_costs_one_notice(
    tree: Tree,
    slots: Seq<SlotView>,
    at: int,
    config: Config,
    prefix: Seq<char>,
    depth: nat,
)
    requires
        0 <= at < slots.len(),
        descends(slots[at].entry.kind, depth, config),
        0 <= slots[at].index < tree.children.len(),
        tree.children[slots[at].index].below.failure is Some,
    ensures
        walk_slots(tree, slots, at, config, prefix, depth) == seq![
            EventView::Line(line_of(slots[at].entry, prefix, at == slots.len() - 1, depth)),
            EventView::ReadFailed {
                path: slots[at].entry.path,
                reason: tree.children[slots[at].index].below.failure->Some_0,
            },
        ] + walk_slots(tree, slots, at + 1, config, prefix, depth),
{
    let line = seq![
        EventView::Line(line_of(slots[at].entry, prefix, at == slots.len() - 1, depth)),
    ];
    let below = walk_below(tree, slots, at, config, prefix, depth);
    let rest = walk_slots(tree, slots, at + 1, config, prefix, depth);
}

/// What a walk of the whole tree under `root` gives out.
pub open spec fn walk_root(root: Tree, path: Seq<char>, config: Config) -> Seq<EventView> {
    walk(root, path, config, Seq::empty(), 1)
}

/// Whether every line among the events meets `holds`.
pub open spec fn every_line(events: Seq<EventView>, holds: spec_fn(RenderLineView) -> bool)
    -> bool {
    forall|i: int|
        0 <= i < events.len() ==> match #[trigger] events[i] {
            EventView::Line(line) => holds(line),
            EventView::ReadFailed { .. } => true,
        }
}

/// What holds of the lines of two runs of events holds of the lines of the
/// one after the other.
pub proof fn lemma_every_line_joined(
    first: Seq<EventView>,
    second: Seq<EventView>,
    holds: spec_fn(RenderLineView) -> bool,
)
    requires
        every_line(first, holds),
        every_line(second, holds),
    ensures
        every_line(first + second, holds),
{
}

/// The lines among the events that meet `keep`, in order.
pub open spec fn lines_where(events: Seq<EventView>, keep: spec_fn(RenderLineView) -> bool)
    -> Seq<RenderLineView>
    decreases events.len(),
{
    if events.len() == 0 {
        Seq::empty()
    } else {
        let before = lines_where(events.drop_last(), keep);
        match events.last() {
            EventView::Line(line) => if keep(line) {
                before.push(line)
            } else {
                before
            },
            EventView::ReadFailed { .. } => before,
        }
    }
}

/// The lines of a single event.
pub proof fn lemma_lines_of_one(event: EventView, keep: spec_fn(RenderLineView) -> bool)
    ensures
        lines_where(seq![event], keep) == match event {
            EventView::Line(line) => if keep(line) {
                seq![line]
            } else {
                Seq::empty()
            },
            EventView::ReadFailed { .. } => Seq::empty(),
        },
{
    let events = seq![event];
    assert(events.drop_last() =~= Seq::<EventView>::empty());
    assert(lines_where(Seq::<EventView>::empty(), keep) == Seq::<RenderLineView>::empty());
}

/// The lines of two runs of events, one after the other.
pub proof fn lemma_lines_joined(
    first: Seq<EventView>,
    second: Seq<EventView>,
    keep: spec_fn(RenderLineView) -> bool,
)
    ensures
        lines_where(first + second, keep) == lines_where(first, keep) + lines_where(
            second,
            keep,
        ),
    decreases second.len(),
{
    if second.len() > 0 {
        assert((first + second).drop_last() =~= first + second.drop_last());
        lemma_lines_joined(first, second.drop_last(), keep);
    }
}

/// Where no line meets `keep`, no line is kept.
pub proof fn lemma_lines_none(events: Seq<EventView>, keep: spec_fn(RenderLineView) -> bool)
    requires
        every_line(events, |line: RenderLineView| !keep(line)),
    ensures
        lines_where(events, keep) == Seq::<RenderLineView>::empty(),
    decreases events.len(),
{
    if events.len() > 0 {
        lemma_lines_none(events.drop_last(), keep);
    }
}

/// Every line.
pub open spec fn any_line() -> spec_fn(RenderLineView) -> bool {
    |line: RenderLineView| true
}

/// The lines with the connector of a last entry.
pub open spec fn last_line() -> spec_fn(RenderLineView) -> bool {
    |line: RenderLineView| line.is_last
}

/// The lines that stand no deeper than `limit`.
pub open spec fn line_within(limit: nat) -> spec_fn(RenderLineView) -> bool {
    |line: RenderLineView| line.depth <= limit
}

/// The lines whose name does not start with a dot.
pub open spec fn plain_line() -> spec_fn(RenderLineView) -> bool {
    |line: RenderLineView| !hidden(line.name)
}

/// How many of the events are lines with the connector of a last entry.
pub open spec fn elbows(events: Seq<EventView>) -> nat {
    lines_where(events, last_line()).len()
}

/// How many directories the walk of `tree` reads and finds with at least
/// one slot, `tree` itself counted.
pub open spec fn listed(tree: Tree, config: Config, depth: nat) -> nat
    decreases tree, 1nat, 0nat,
{
    if tree.failure is Some {
        0
    } else {
        let slots = tree.slots(config);
        let own: nat = if slots.len() > 0 {
            1
        } else {
            0
        };
        own + listed_slots(tree, slots, 0, config, depth)
    }
}

/// How many such directories the walk finds below `slots[from..]`.
pub open spec fn listed_slots(
    tree: Tree,
    slots: Seq<SlotView>,
    from: int,
    config: Config,
    depth: nat,
) -> nat
    decreases tree, 0nat, slots.len() - from,
{
    if from < 0 || from >= slots.len() {
        0
    } else {
        listed_below(tree, slots, from, config, depth) + listed_slots(
            tree,
            slots,
            from + 1,
            config,
            depth,
        )
    }
}

/// How many such directories the walk finds below `slots[at]`.
pub open spec fn listed_below(
    tree: Tree,
    slots: Seq<SlotView>,
    at: int,
    config: Config,
    depth: nat,
) -> nat
    decreases tree, 0nat, 0nat,
{
    let slot = slots[at];
    if 0 <= at < slots.len() && descends(slot.entry.kind, depth, config) && 0 <= slot.index
        < tree.children.len() {
        listed(tree.children[slot.index].below, config, depth + 1)
    } else {
        0
    }
}

/// In what a walk gives out, the lines with the connector of a last entry
/// are as many as the directories that the walk reads and finds with at
/// least one slot: each of them has exactly one last entry.
pub proof fn lemma_one_elbow_per_listing(
    tree: Tree,
    path: Seq<char>,
    config: Config,
    prefix: Seq<char>,
    depth: nat,
)
    ensures
        elbows(walk(tree, path, config, prefix, depth)) == listed(tree, config, depth),
    decreases tree, 1nat, 0nat,
{
    match tree.failure {
        Some(reason) => {
            lemma_lines_of_one(EventView::ReadFailed { path, reason }, last_line());
        },
        None => {
            lemma_elbows_of_slots(tree, tree.slots(config), 0, config, prefix, depth);
        },
    }
}

/// The elbows among what the walk gives out for `slots[from..]`: one for
/// the last slot, and those of the directories below.
pub proof fn lemma_elbows_of_slots(
    tree: Tree,
    slots: Seq<SlotView>,
    from: int,
    config: Config,
    prefix: Seq<char>,
    depth: nat,
)
    requires
        0 <= from,
    ensures
        elbows(walk_slots(tree, slots, from, config, prefix, depth)) == listed_slots(
            tree,
            slots,
            from,
            config,
            depth,
        ) + if from < slots.len() {
            1nat
        } else {
            0nat
        },
    decreases tree, 0nat, slots.len() - from,
{
    if from < slots.len() {
        let slot = slots[from];
        let is_last = from == slots.len() - 1;
        let line = seq![EventView::Line(line_of(slot.entry, prefix, is_last, depth))];
        let below = walk_below(tree, slots, from, config, prefix, depth);
        let rest = walk_slots(tree, slots, from + 1, config, prefix, depth);
        lemma_lines_of_one(line[0], last_line());
        if descends(slot.entry.kind, depth, config) && 0 <= slot.index < tree.children.len() {
            lemma_one_elbow_per_listing(
                tree.children[slot.index].below,
                slot.entry.path,
                config,
                prefix + segment_text(is_last),
                depth + 1,
            );
        }
        lemma_elbows_of_slots(tree, slots, from + 1, config, prefix, depth);
        lemma_lines_joined(line, below, last_line());
        lemma_lines_joined(line + below, rest, last_line());
        assert(elbows(below) == listed_below(tree, slots, from, config, depth));
    }
}

/// Whether every slot holds an entry that is shown under `config`.
pub open spec fn all_shown(slots: Seq<SlotView>, config: Config) -> bool {
    forall|k: int|
        0 <= k < slots.len() ==> shown(
            (#[trigger] slots[k]).entry.name,
            slots[k].entry.kind,
            config,
        )
}

/// The slots of a directory hold shown entries only.
pub proof fn lemma_slots_all_shown(tree: Tree, config: Config)
    ensures
        all_shown(tree.slots(config), config),
{
    lemma_visible_arranges(tree.entries(), config);
}

/// Without `show_hidden`, no line that a walk gives out has a name that
/// starts with a dot, at whatever depth the entry stands.
pub proof fn lemma_hidden_stay_out(
    tree: Tree,
    path: Seq<char>,
    config: Config,
    prefix: Seq<char>,
    depth: nat,
)
    requires
        !config.show_hidden,
    ensures
        every_line(walk(tree, path, config, prefix, depth), plain_line()),
    decreases tree, 1nat, 0nat,
{
    if tree.failure is None {
        lemma_slots_all_shown(tree, config);
        lemma_hidden_stay_out_of_slots(tree, tree.slots(config), 0, config, prefix, depth);
    }
}

/// The same for what the walk gives out for `slots[from..]`.
pub proof fn lemma_hidden_stay_out_of_slots(
    tree: Tree,
    slots: Seq<SlotView>,
    from: int,
    config: Config,
    prefix: Seq<char>,
    depth: nat,
)
    requires
        !config.show_hidden,
        all_shown(slots, config),
        0 <= from,
    ensures
        every_line(walk_slots(tree, slots, from, config, prefix, depth), plain_line()),
    decreases tree, 0nat, slots.len() - from,
{
    if from < slots.len() {
        let slot = slots[from];
        let is_last = from == slots.len() - 1;
        let line = seq![EventView::Line(line_of(slot.entry, prefix, is_last, depth))];
        let below = walk_below(tree, slots, from, config, prefix, depth);
        let rest = walk_slots(tree, slots, from + 1, config, prefix, depth);
        if descends(slot.entry.kind, depth, config) && 0 <= slot.index < tree.children.len() {
            lemma_hidden_stay_out(
                tree.children[slot.index].below,
                slot.entry.path,
                config,
                prefix + segment_text(is_last),
                depth + 1,
            );
        }
        lemma_hidden_stay_out_of_slots(tree, slots, from + 1, config, prefix, depth);
        lemma_every_line_joined(line, below, plain_line());
        lemma_every_line_joined(line + below, rest, plain_line());
    }
}

/// The lines that a walk gives out for a directory stand no higher than
/// the entries of that directory.
pub proof fn lemma_depth_at_least(
    tree: Tree,
    path: Seq<char>,
    config: Config,
    prefix: Seq<char>,
    depth: nat,
)
    ensures
        every_line(
            walk(tree, path, config, prefix, depth),
            |line: RenderLineView| line.depth >= depth,
        ),
    decreases tree, 1nat, 0nat,
{
    if tree.failure is None {
        lemma_depth_at_least_of_slots(tree, tree.slots(config), 0, config, prefix, depth);
    }
}

/// The same for what the walk gives out for `slots[from..]`.
pub proof fn lemma_depth_at_least_of_slots(
    tree: Tree,
    slots: Seq<SlotView>,
    from: int,
    config: Config,
    prefix: Seq<char>,
    depth: nat,
)
    requires
        0 <= from,
    ensures
        every_line(
            walk_slots(tree, slots, from, config, prefix, depth),
            |line: RenderLineView| line.depth >= depth,
        ),
    decreases tree, 0nat, slots.len() - from,
{
    let holds = |line: RenderLineView| line.depth >= depth;
    if from < slots.len() {
        let slot = slots[from];
        let is_last = from == slots.len() - 1;
        let line = seq![EventView::Line(line_of(slot.entry, prefix, is_last, depth))];
        let below = walk_below(tree, slots, from, config, prefix, depth);
        let rest = walk_slots(tree, slots, from + 1, config, prefix, depth);
        if descends(slot.entry.kind, depth, config) && 0 <= slot.index < tree.children.len() {
            lemma_depth_at_least(
                tree.children[slot.index].below,
                slot.entry.path,
                config,
                prefix + segment_text(is_last),
                depth + 1,
            );
        }
        lemma_depth_at_least_of_slots(tree, slots, from + 1, config, prefix, depth);
        lemma_every_line_joined(line, below, holds);
        lemma_every_line_joined(line + below, rest, holds);
    }
}

/// With a depth limit, no line that a walk gives out stands deeper than the
/// limit.
pub proof fn lemma_depth_limit(
    tree: Tree,
    path: Seq<char>,
    config: Config,
    prefix: Seq<char>,
    depth: nat,
)
    requires
        config.max_depth > 0,
        depth <= config.max_depth,
    ensures
        every_line(
            walk(tree, path, config, prefix, depth),
            line_within(config.max_depth as nat),
        ),
    decreases tree, 1nat, 0nat,
{
    if tree.failure is None {
        lemma_depth_limit_of_slots(tree, tree.slots(config), 0, config, prefix, depth);
    }
}

/// The same for what the walk gives out for `slots[from..]`.
pub proof fn lemma_depth_limit_of_slots(
    tree: Tree,
    slots: Seq<SlotView>,
    from: int,
    config: Config,
    prefix: Seq<char>,
    depth: nat,
)
    requires
        config.max_depth > 0,
        depth <= config.max_depth,
        0 <= from,
    ensures
        every_line(
            walk_slots(tree, slots, from, config, prefix, depth),
            line_within(config.max_depth as nat),
        ),
    decreases tree, 0nat, slots.len() - from,
{
    let holds = line_within(config.max_depth as nat);
    if from < slots.len() {
        let slot = slots[from];
        let is_last = from == slots.len() - 1;
        let line = seq![EventView::Line(line_of(slot.entry, prefix, is_last, depth))];
        let below = walk_below(tree, slots, from, config, prefix, depth);
        let rest = walk_slots(tree, slots, from + 1, config, prefix, depth);
        if descends(slot.entry.kind, depth, config) && 0 <= slot.index < tree.children.len() {
            lemma_depth_limit(
                tree.children[slot.index].below,
                slot.entry.path,
                config,
                prefix + segment_text(is_last),
                depth + 1,
            );
        }
        lemma_depth_limit_of_slots(tree, slots, from + 1, config, prefix, depth);
        lemma_every_line_joined(line, below, holds);
        lemma_every_line_joined(line + below, rest, holds);
    }
}

/// Without a depth limit, the walk goes into every directory that has a
/// line, however deep it stands.
pub proof fn lemma_no_limit_descends(
    tree: Tree,
    slots: Seq<SlotView>,
    at: int,
    config: Config,
    prefix: Seq<char>,
    depth: nat,
)
    requires
        config.max_depth == 0,
        0 <= at < slots.len(),
        slots[at].entry.kind == FileType::Directory,
        0 <= slots[at].index < tree.children.len(),
    ensures
        walk_below(tree, slots, at, config, prefix, depth) == walk(
            tree.children[slots[at].index].below,
            slots[at].entry.path,
            config,
            prefix + segment_text(at == slots.len() - 1),
            depth + 1,
        ),
{
}

/// The same options without a depth limit.
pub open spec fn unlimited(config: Config) -> Config {
    Config { max_depth: 0, ..config }
}

/// The depth limit cuts and does nothing else: the lines of a walk with a
/// limit are the lines of the walk without limit that stand no deeper than
/// the limit, in the same order.
pub proof fn lemma_limit_cuts_at_depth(
    tree: Tree,
    path: Seq<char>,
    config: Config,
    prefix: Seq<char>,
    depth: nat,
)
    requires
        config.max_depth > 0,
        depth <= config.max_depth,
    ensures
        lines_where(walk(tree, path, config, prefix, depth), any_line()) == lines_where(
            walk(tree, path, unlimited(config), prefix, depth),
            line_within(config.max_depth as nat),
        ),
    decreases tree, 1nat, 0nat,
{
    match tree.failure {
        Some(reason) => {
            let notice = EventView::ReadFailed { path, reason };
            lemma_lines_of_one(notice, any_line());
            lemma_lines_of_one(notice, line_within(config.max_depth as nat));
        },
        None => {
            lemma_visible_same_filters(tree.entries(), config, unlimited(config));
            lemma_limit_cuts_slots(tree, tree.slots(config), 0, config, prefix, depth);
        },
    }
}

/// The same for what the walks give out for `slots[from..]`.
pub proof fn lemma_limit_cuts_slots(
    tree: Tree,
    slots: Seq<SlotView>,
    from: int,
    config: Config,
    prefix: Seq<char>,
    depth: nat,
)
    requires
        config.max_depth > 0,
        depth <= config.max_depth,
        0 <= from,
    ensures
        lines_where(walk_slots(tree, slots, from, config, prefix, depth), any_line())
            == lines_where(
            walk_slots(tree, slots, from, unlimited(config), prefix, depth),
            line_within(config.max_depth as nat),
        ),
    decreases tree, 0nat, slots.len() - from,
{
    let free = unlimited(config);
    let within = line_within(config.max_depth as nat);
    if from < slots.len() {
        let slot = slots[from];
        let is_last = from == slots.len() - 1;
        let line = seq![EventView::Line(line_of(slot.entry, prefix, is_last, depth))];
        let below = walk_below(tree, slots, from, config, prefix, depth);
        let below_free = walk_below(tree, slots, from, free, prefix, depth);
        let rest = walk_slots(tree, slots, from + 1, config, prefix, depth);
        let rest_free = walk_slots(tree, slots, from + 1, free, prefix, depth);
        lemma_lines_of_one(line[0], any_line());
        lemma_lines_of_one(line[0], within);
        if slot.entry.kind == FileType::Directory && 0 <= slot.index < tree.children.len() {
            let child = tree.children[slot.index].below;
            let deeper = prefix + segment_text(is_last);
            if depth + 1 <= config.max_depth {
                lemma_limit_cuts_at_depth(child, slot.entry.path, config, deeper, depth + 1);
            } else {
                lemma_depth_at_least(child, slot.entry.path, free, deeper, depth + 1);
                lemma_lines_none(below_free, within);
            }
        }
        lemma_limit_cuts_slots(tree, slots, from + 1, config, prefix, depth);
        lemma_lines_joined(line, below, any_line());
        lemma_lines_joined(line + below, rest, any_line());
        lemma_lines_joined(line, below_free, within);
        lemma_lines_joined(line + below_free, rest_free, within);
    }
}

/// With both `directory_only` and `file_only`, no entry is shown.
pub proof fn lemma_conflict_shows_nothing(listing: Seq<EntryView>, config: Config)
    requires
        config.directory_only,
        config.file_only,
    ensures
        visible(listing, config).len() == 0,
{
    lemma_visible_arranges(listing, config);
    let slots = visible(listing, config);
    if slots.len() > 0 {
        assert(shown(slots[0].entry.name, slots[0].entry.kind, config));
    }
}

/// With both `directory_only` and `file_only`, the walk of a readable
/// directory gives out nothing.
pub proof fn lemma_conflict_walks_nothing(
    tree: Tree,
    path: Seq<char>,
    config: Config,
    prefix: Seq<char>,
    depth: nat,
)
    requires
        config.directory_only,
        config.file_only,
        tree.failure is None,
    ensures
        walk(tree, path, config, prefix, depth) == Seq::<EventView>::empty(),
{
    lemma_conflict_shows_nothing(tree.entries(), config);
}

} // verus!
