//! The order in which the entries of one directory are listed.

use vstd::prelude::*;
use vstd::std_specs::iter::IteratorSpec;
use crate::entry::{entry_views, shown, Config, Entry, EntryView, FileType};
use crate::text::{
    code, compare_text, hidden, lemma_lex_first_difference, lemma_lex_irreflexive, lemma_lex_total,
    lemma_lex_transitive, lex_less, lowercase, lowercase_of, Standing,
};

verus! {

/// Whether the name `a` is listed strictly before the name `b`, where
/// `low_a` and `low_b` are the two names in lowercase: the lowercase names
/// are compared first; names that are equal in lowercase are compared as
/// they are, in reverse, so that a lowercase letter comes before its
/// capital.
pub open spec fn folded_precedes(
    low_a: Seq<char>,
    a: Seq<char>,
    low_b: Seq<char>,
    b: Seq<char>,
) -> bool {
    lex_less(low_a, low_b) || (low_a == low_b && lex_less(b, a))
}

/// Whether the name `a` is listed strictly before the name `b`.
pub open spec fn name_precedes(a: Seq<char>, b: Seq<char>) -> bool {
    folded_precedes(lowercase_of(a), a, lowercase_of(b), b)
}

/// Whether the name `a` is listed strictly before the name `b`, given both
/// names in lowercase as well.
pub fn precedes_folded(low_a: &str, a: &str, low_b: &str, b: &str) -> (r: bool)
    ensures
        r == folded_precedes(low_a@, a@, low_b@, b@),
{
    match compare_text(low_a, low_b) {
        Standing::Before => true,
        Standing::After => {
            proof {
                lemma_lex_total(low_a@, low_b@);
            }
            false
        },
        Standing::Same => {
            proof {
                lemma_lex_irreflexive(low_a@);
                lemma_lex_irreflexive(a@);
            }
            matches!(compare_text(b, a), Standing::Before)
        },
    }
}

/// Whether the name `a` is listed strictly before the name `b`.
pub fn precedes(a: &str, b: &str) -> (r: bool)
    ensures
        r == name_precedes(a@, b@),
{
    let low_a = lowercase(a);
    let low_b = lowercase(b);
    precedes_folded(low_a.as_str(), a, low_b.as_str(), b)
}

/// A name with its lowercase form is never listed before itself, and of two
/// that differ exactly one is listed before the other.
pub proof fn lemma_folded_total(low_a: Seq<char>, a: Seq<char>, low_b: Seq<char>, b: Seq<char>)
    ensures
        low_a == low_b && a == b ==> !folded_precedes(low_a, a, low_b, b),
        !(low_a == low_b && a == b) ==> (folded_precedes(low_a, a, low_b, b)
            <==> !folded_precedes(low_b, b, low_a, a)),
{
    lemma_lex_total(low_a, low_b);
    lemma_lex_total(a, b);
}

/// Listing order is transitive.
pub proof fn lemma_folded_transitive(
    low_a: Seq<char>,
    a: Seq<char>,
    low_b: Seq<char>,
    b: Seq<char>,
    low_c: Seq<char>,
    c: Seq<char>,
)
    requires
        folded_precedes(low_a, a, low_b, b),
        folded_precedes(low_b, b, low_c, c),
    ensures
        folded_precedes(low_a, a, low_c, c),
{
    lemma_lex_total(low_a, low_b);
    lemma_lex_total(low_b, low_c);
    if lex_less(low_a, low_b) && lex_less(low_b, low_c) {
        lemma_lex_transitive(low_a, low_b, low_c);
    } else if low_a == low_b && low_b == low_c {
        lemma_lex_transitive(c, b, a);
    }
}

/// No name is listed before itself.
pub proof fn lemma_precedes_irreflexive(a: Seq<char>)
    ensures
        !name_precedes(a, a),
{
    lemma_folded_total(lowercase_of(a), a, lowercase_of(a), a);
}

/// Of two different names exactly one is listed before the other.
pub proof fn lemma_precedes_total(a: Seq<char>, b: Seq<char>)
    ensures
        a != b ==> (name_precedes(a, b) <==> !name_precedes(b, a)),
        a == b ==> !name_precedes(a, b),
{
    lemma_folded_total(lowercase_of(a), a, lowercase_of(b), b);
}

/// Listing order on names is transitive.
pub proof fn lemma_precedes_transitive(a: Seq<char>, b: Seq<char>, c: Seq<char>)
    requires
        name_precedes(a, b),
        name_precedes(b, c),
    ensures
        name_precedes(a, c),
{
    lemma_folded_transitive(lowercase_of(a), a, lowercase_of(b), b, lowercase_of(c), c);
}

/// Whether `upper` is the capital of the lowercase letter `lower`.
pub open spec fn capital_of(upper: char, lower: char) -> bool {
    97 <= code(lower) <= 122 && code(upper) == code(lower) - 32
}

/// Of two names that are equal in lowercase, the one with the greater
/// character at the first place where they differ is listed first.
pub proof fn lemma_ties_in_reverse(a: Seq<char>, b: Seq<char>, k: int)
    requires
        lowercase_of(a) == lowercase_of(b),
        0 <= k < a.len(),
        k < b.len(),
        forall|i: int| 0 <= i < k ==> a[i] == b[i],
        code(a[k]) > code(b[k]),
    ensures
        name_precedes(a, b),
        !name_precedes(b, a),
{
    lemma_lex_first_difference(b, a, k);
    lemma_precedes_total(a, b);
}

/// Of two names that are equal in lowercase and first differ where one has a
/// lowercase letter and the other its capital, the one with the lowercase
/// letter is listed first.
pub proof fn lemma_lowercase_leads(a: Seq<char>, b: Seq<char>, k: int)
    requires
        lowercase_of(a) == lowercase_of(b),
        0 <= k < a.len(),
        k < b.len(),
        forall|i: int| 0 <= i < k ==> a[i] == b[i],
        capital_of(b[k], a[k]),
    ensures
        name_precedes(a, b),
        !name_precedes(b, a),
{
    lemma_ties_in_reverse(a, b, k);
}

/// An entry with its position in the listing it came from and its name in
/// lowercase.
#[derive(Debug, PartialEq, Eq)]
pub struct Slot {
    /// The position of the entry in the listing as it was read.
    pub index: usize,
    /// The name of the entry in lowercase.
    pub folded: String,
    pub entry: Entry,
}

/// A slot as a plain value.
pub ghost struct SlotView {
    pub index: int,
    pub folded: Seq<char>,
    pub entry: EntryView,
}

impl View for Slot {
    type V = SlotView;

    open spec fn view(&self) -> SlotView {
        SlotView { index: self.index as int, folded: self.folded@, entry: self.entry@ }
    }
}

impl Clone for Slot {
    fn clone(&self) -> (copy: Self)
        ensures
            copy@ == self@,
    {
        Slot { index: self.index, folded: self.folded.clone(), entry: self.entry.clone() }
    }
}

/// Slots as plain values.
pub open spec fn slot_views(slots: Seq<Slot>) -> Seq<SlotView> {
    slots.map_values(|s: Slot| s@)
}

/// Whether the name of slot `x` is listed strictly before that of slot `y`.
pub open spec fn slot_before(x: SlotView, y: SlotView) -> bool {
    folded_precedes(x.folded, x.entry.name, y.folded, y.entry.name)
}

/// Whether two slots have the same name, in lowercase and as it is.
pub open spec fn same_name(x: SlotView, y: SlotView) -> bool {
    x.folded == y.folded && x.entry.name == y.entry.name
}

/// Whether no slot has a name that is listed strictly before the name of a
/// slot in front of it.
pub open spec fn sorted(slots: Seq<SlotView>) -> bool {
    forall|k: int, l: int| 0 <= k < l < slots.len() ==> !slot_before(slots[l], slots[k])
}

/// Where a new slot goes among slots: behind the leading slots whose names
/// are listed strictly before its name.
pub open spec fn insert_position(x: SlotView, slots: Seq<SlotView>) -> int
    decreases slots.len(),
{
    if slots.len() == 0 || !slot_before(slots[0], x) {
        0
    } else {
        1 + insert_position(x, slots.drop_first())
    }
}

/// The shown slots among `candidates[from..]`, sorted by name: each is put
/// in front of the first later one whose name is not listed strictly before
/// its own, so that slots of equal name keep their order.
pub open spec fn selected_from(candidates: Seq<SlotView>, config: Config, from: int) -> Seq<
    SlotView,
>
    decreases candidates.len() - from,
{
    if from < 0 || from >= candidates.len() {
        Seq::empty()
    } else {
        let rest = selected_from(candidates, config, from + 1);
        let x = candidates[from];
        if shown(x.entry.name, x.entry.kind, config) {
            rest.insert(insert_position(x, rest), x)
        } else {
            rest
        }
    }
}

/// The shown slots among the candidates, sorted by name, slots of equal
/// name in the order of the candidates.
pub open spec fn selected(candidates: Seq<SlotView>, config: Config) -> Seq<SlotView> {
    selected_from(candidates, config, 0)
}

/// The candidates of a listing: every entry, with its position and its name
/// in lowercase.
pub open spec fn candidates(listing: Seq<EntryView>) -> Seq<SlotView> {
    Seq::new(
        listing.len(),
        |i: int| SlotView { index: i, folded: lowercase_of(listing[i].name), entry: listing[i] },
    )
}

/// The slots of a listing: its shown entries, sorted by name, entries of
/// equal name in the order in which the listing holds them.
pub open spec fn visible(listing: Seq<EntryView>, config: Config) -> Seq<SlotView> {
    selected(candidates(listing), config)
}

/// Of two slots with different names exactly one is listed before the
/// other; of two with the same name neither is.
pub proof fn lemma_before_total(x: SlotView, y: SlotView)
    ensures
        same_name(x, y) ==> !slot_before(x, y) && !slot_before(y, x),
        !same_name(x, y) ==> (slot_before(x, y) <==> !slot_before(y, x)),
{
    lemma_folded_total(x.folded, x.entry.name, y.folded, y.entry.name);
    lemma_folded_total(y.folded, y.entry.name, x.folded, x.entry.name);
}

/// The insert position is the one place that has only strictly earlier
/// names before it and no strictly earlier name at it.
pub proof fn lemma_insert_position(x: SlotView, slots: Seq<SlotView>, p: int)
    requires
        0 <= p <= slots.len(),
        forall|k: int| 0 <= k < p ==> slot_before(#[trigger] slots[k], x),
        p < slots.len() ==> !slot_before(slots[p], x),
    ensures
        insert_position(x, slots) == p,
    decreases slots.len(),
{
    if p > 0 {
        let rest = slots.drop_first();
        assert(slot_before(slots[0], x));
        assert forall|k: int| 0 <= k < p - 1 implies slot_before(#[trigger] rest[k], x) by {
            assert(rest[k] == slots[k + 1]);
        }
        lemma_insert_position(x, rest, p - 1);
    }
}

/// What the insert position promises.
pub proof fn lemma_insert_position_bounds(x: SlotView, slots: Seq<SlotView>)
    ensures
        0 <= insert_position(x, slots) <= slots.len(),
        forall|k: int| 0 <= k < insert_position(x, slots) ==> slot_before(#[trigger] slots[k], x),
        insert_position(x, slots) < slots.len() ==> !slot_before(
            slots[insert_position(x, slots)],
            x,
        ),
    decreases slots.len(),
{
    if slots.len() > 0 && slot_before(slots[0], x) {
        let rest = slots.drop_first();
        lemma_insert_position_bounds(x, rest);
        let p = insert_position(x, slots);
        assert forall|k: int| 0 <= k < p implies slot_before(#[trigger] slots[k], x) by {
            if k > 0 {
                assert(rest[k - 1] == slots[k]);
            }
        }
        if p < slots.len() {
            assert(rest[p - 1] == slots[p]);
        }
    }
}

/// In sorted slots, the names that are listed strictly before a given name
/// come first: they reach up to every slot whose name is, and stop before
/// every slot whose name is not.
pub proof fn lemma_sorted_splits(slots: Seq<SlotView>, x: SlotView, at: int)
    requires
        sorted(slots),
        0 <= at < slots.len(),
    ensures
        slot_before(slots[at], x) ==> forall|k: int|
            0 <= k <= at ==> slot_before(#[trigger] slots[k], x),
        !slot_before(slots[at], x) ==> forall|k: int|
            at <= k < slots.len() ==> !slot_before(#[trigger] slots[k], x),
{
    let pivot = slots[at];
    if slot_before(pivot, x) {
        assert forall|k: int| 0 <= k <= at implies slot_before(#[trigger] slots[k], x) by {
            if k < at {
                assert(!slot_before(pivot, slots[k]));
                lemma_before_total(slots[k], pivot);
                if slot_before(slots[k], pivot) {
                    lemma_folded_transitive(
                        slots[k].folded,
                        slots[k].entry.name,
                        pivot.folded,
                        pivot.entry.name,
                        x.folded,
                        x.entry.name,
                    );
                }
            }
        }
    } else {
        assert forall|k: int| at <= k < slots.len() implies !slot_before(
            #[trigger] slots[k],
            x,
        ) by {
            if k > at && slot_before(slots[k], x) {
                assert(!slot_before(slots[k], pivot));
                lemma_before_total(pivot, slots[k]);
                if slot_before(pivot, slots[k]) {
                    lemma_folded_transitive(
                        pivot.folded,
                        pivot.entry.name,
                        slots[k].folded,
                        slots[k].entry.name,
                        x.folded,
                        x.entry.name,
                    );
                }
            }
        }
    }
}

/// Sorted slots stay sorted when a slot is put at its insert position.
pub proof fn lemma_insert_keeps_sorted(x: SlotView, slots: Seq<SlotView>)
    requires
        sorted(slots),
    ensures
        sorted(slots.insert(insert_position(x, slots), x)),
{
    let p = insert_position(x, slots);
    lemma_insert_position_bounds(x, slots);
    if p < slots.len() {
        lemma_sorted_splits(slots, x, p);
    }
    let out = slots.insert(p, x);
    assert forall|k: int, l: int| 0 <= k < l < out.len() implies !slot_before(out[l], out[k]) by {
        if l == p {
            assert(out[k] == slots[k]);
            lemma_before_total(slots[k], x);
        } else if k == p {
            assert(out[l] == slots[l - 1]);
        } else {
            let k0 = if k < p {
                k
            } else {
                k - 1
            };
            let l0 = if l < p {
                l
            } else {
                l - 1
            };
            assert(out[k] == slots[k0]);
            assert(out[l] == slots[l0]);
        }
    }
}

/// What is selected is sorted by name.
pub proof fn lemma_selected_sorted(candidates: Seq<SlotView>, config: Config, from: int)
    ensures
        sorted(selected_from(candidates, config, from)),
    decreases candidates.len() - from,
{
    if 0 <= from < candidates.len() {
        lemma_selected_sorted(candidates, config, from + 1);
        let x = candidates[from];
        if shown(x.entry.name, x.entry.kind, config) {
            lemma_insert_keeps_sorted(x, selected_from(candidates, config, from + 1));
        }
    }
}

/// What is selected depends on the options only by what is shown.
pub proof fn lemma_selected_same_filters(
    candidates: Seq<SlotView>,
    first: Config,
    second: Config,
    from: int,
)
    requires
        first.show_hidden == second.show_hidden,
        first.directory_only == second.directory_only,
        first.file_only == second.file_only,
    ensures
        selected_from(candidates, first, from) == selected_from(candidates, second, from),
    decreases candidates.len() - from,
{
    if 0 <= from < candidates.len() {
        lemma_selected_same_filters(candidates, first, second, from + 1);
    }
}

/// Whether slot `x` is listed before slot `y`: by name, and among equal
/// names by position in the listing.
pub open spec fn slot_precedes(x: SlotView, y: SlotView) -> bool {
    slot_before(x, y) || (same_name(x, y) && x.index < y.index)
}

/// Whether each slot is listed before all that follow it.
pub open spec fn ordered(slots: Seq<SlotView>) -> bool {
    forall|k: int, l: int| 0 <= k < l < slots.len() ==> slot_precedes(slots[k], slots[l])
}

/// Whether every slot holds a shown entry of `listing[from..]` under that
/// entry's own position, with its name in lowercase.
pub open spec fn drawn_from(
    slots: Seq<SlotView>,
    listing: Seq<EntryView>,
    config: Config,
    from: int,
) -> bool {
    forall|k: int|
        0 <= k < slots.len() ==> {
            let slot = #[trigger] slots[k];
            &&& from <= slot.index < listing.len()
            &&& slot.entry == listing[slot.index]
            &&& slot.folded == lowercase_of(slot.entry.name)
            &&& shown(slot.entry.name, slot.entry.kind, config)
        }
}

/// Whether some slot holds position `i` of the listing.
pub open spec fn holds_index(slots: Seq<SlotView>, i: int) -> bool {
    exists|k: int| 0 <= k < slots.len() && (#[trigger] slots[k]).index == i
}

/// Whether every shown entry of `listing[from..]` has a slot.
pub open spec fn covers(
    slots: Seq<SlotView>,
    listing: Seq<EntryView>,
    config: Config,
    from: int,
) -> bool {
    forall|i: int|
        from <= i < listing.len() && shown(listing[i].name, listing[i].kind, config)
            ==> #[trigger] holds_index(slots, i)
}

/// Whether the slots are exactly the shown entries of `listing[from..]`,
/// each under its own position, in listing order.
pub open spec fn arranges(
    slots: Seq<SlotView>,
    listing: Seq<EntryView>,
    config: Config,
    from: int,
) -> bool {
    &&& drawn_from(slots, listing, config, from)
    &&& covers(slots, listing, config, from)
    &&& ordered(slots)
}

/// Ordered slots are sorted.
pub proof fn lemma_ordered_sorted(slots: Seq<SlotView>)
    requires
        ordered(slots),
    ensures
        sorted(slots),
{
    assert forall|k: int, l: int| 0 <= k < l < slots.len() implies !slot_before(
        slots[l],
        slots[k],
    ) by {
        assert(slot_precedes(slots[k], slots[l]));
        lemma_before_total(slots[k], slots[l]);
    }
}

/// A slot whose position is smaller than all others keeps the order when it
/// is put at its insert position.
pub proof fn lemma_insert_keeps_order(x: SlotView, slots: Seq<SlotView>)
    requires
        ordered(slots),
        forall|k: int| 0 <= k < slots.len() ==> x.index < (#[trigger] slots[k]).index,
    ensures
        ordered(slots.insert(insert_position(x, slots), x)),
{
    let p = insert_position(x, slots);
    lemma_insert_position_bounds(x, slots);
    lemma_ordered_sorted(slots);
    if p < slots.len() {
        lemma_sorted_splits(slots, x, p);
    }
    let out = slots.insert(p, x);
    assert forall|k: int, l: int| 0 <= k < l < out.len() implies slot_precedes(
        out[k],
        out[l],
    ) by {
        if l == p {
            assert(out[k] == slots[k]);
        } else if k == p {
            let z = slots[l - 1];
            assert(out[l] == z);
            lemma_before_total(x, z);
        } else {
            let k0 = if k < p {
                k
            } else {
                k - 1
            };
            let l0 = if l < p {
                l
            } else {
                l - 1
            };
            assert(out[k] == slots[k0]);
            assert(out[l] == slots[l0]);
        }
    }
}

/// Every slot that is selected from `listing[from..]` is drawn from it.
proof fn lemma_visible_drawn(listing: Seq<EntryView>, config: Config, from: int)
    requires
        0 <= from,
    ensures
        drawn_from(selected_from(candidates(listing), config, from), listing, config, from),
    decreases listing.len() - from,
{
    if from < listing.len() {
        let rest = selected_from(candidates(listing), config, from + 1);
        lemma_visible_drawn(listing, config, from + 1);
        let x = candidates(listing)[from];
        let out = selected_from(candidates(listing), config, from);
        if shown(x.entry.name, x.entry.kind, config) {
            let p = insert_position(x, rest);
            lemma_insert_position_bounds(x, rest);
            assert forall|k: int| 0 <= k < out.len() implies {
                let slot = #[trigger] out[k];
                &&& from <= slot.index < listing.len()
                &&& slot.entry == listing[slot.index]
                &&& slot.folded == lowercase_of(slot.entry.name)
                &&& shown(slot.entry.name, slot.entry.kind, config)
            } by {
                if k < p {
                    assert(out[k] == rest[k]);
                } else if k > p {
                    assert(out[k] == rest[k - 1]);
                } else {
                    assert(out[k] == x);
                }
            }
        }
    }
}

/// What is selected from `listing[from..]` covers its shown entries.
proof fn lemma_visible_covers(listing: Seq<EntryView>, config: Config, from: int)
    requires
        0 <= from,
    ensures
        covers(selected_from(candidates(listing), config, from), listing, config, from),
    decreases listing.len() - from,
{
    if from < listing.len() {
        let rest = selected_from(candidates(listing), config, from + 1);
        lemma_visible_covers(listing, config, from + 1);
        let x = candidates(listing)[from];
        let out = selected_from(candidates(listing), config, from);
        let p = insert_position(x, rest);
        lemma_insert_position_bounds(x, rest);
        assert forall|i: int|
            from <= i < listing.len() && shown(
                listing[i].name,
                listing[i].kind,
                config,
            ) implies #[trigger] holds_index(out, i) by {
            if i == from {
                assert(out[p].index == i);
            } else {
                assert(holds_index(rest, i));
                let k0 = choose|k: int| 0 <= k < rest.len() && (#[trigger] rest[k]).index == i;
                if shown(x.entry.name, x.entry.kind, config) {
                    let k1 = if k0 < p {
                        k0
                    } else {
                        k0 + 1
                    };
                    assert(out[k1] == rest[k0]);
                } else {
                    assert(out[k0] == rest[k0]);
                }
            }
        }
    }
}

/// What is selected from `listing[from..]` is ordered.
proof fn lemma_visible_ordered(listing: Seq<EntryView>, config: Config, from: int)
    requires
        0 <= from,
    ensures
        ordered(selected_from(candidates(listing), config, from)),
    decreases listing.len() - from,
{
    if from < listing.len() {
        let rest = selected_from(candidates(listing), config, from + 1);
        lemma_visible_ordered(listing, config, from + 1);
        lemma_visible_drawn(listing, config, from + 1);
        let x = candidates(listing)[from];
        if shown(x.entry.name, x.entry.kind, config) {
            lemma_insert_keeps_order(x, rest);
        }
    }
}

/// What is listed of a directory: every shown entry of the listing and no
/// other, each under its own position, sorted by name, entries of equal
/// name in the order of the listing.
pub proof fn lemma_visible_arranges(listing: Seq<EntryView>, config: Config)
    ensures
        arranges(visible(listing, config), listing, config, 0),
{
    lemma_visible_drawn(listing, config, 0);
    lemma_visible_covers(listing, config, 0);
    lemma_visible_ordered(listing, config, 0);
}

/// An entry of a listing has a slot exactly when it is shown.
pub proof fn lemma_slot_iff_shown(listing: Seq<EntryView>, config: Config, i: int)
    requires
        0 <= i < listing.len(),
    ensures
        holds_index(visible(listing, config), i) <==> shown(
            listing[i].name,
            listing[i].kind,
            config,
        ),
{
    lemma_visible_arranges(listing, config);
    let slots = visible(listing, config);
    if holds_index(slots, i) {
        let k = choose|k: int| 0 <= k < slots.len() && (#[trigger] slots[k]).index == i;
        assert(slots[k].entry == listing[i]);
    }
}

/// An entry whose name starts with a dot, and which the kind filters let
/// pass, has a slot exactly when hidden entries are shown.
pub proof fn lemma_hidden_iff_show_hidden(listing: Seq<EntryView>, config: Config, i: int)
    requires
        0 <= i < listing.len(),
        hidden(listing[i].name),
        config.directory_only ==> listing[i].kind == FileType::Directory,
        config.file_only ==> listing[i].kind == FileType::File,
    ensures
        holds_index(visible(listing, config), i) <==> config.show_hidden,
{
    lemma_slot_iff_shown(listing, config, i);
}

/// The slots of a listing depend on the options only by what is shown.
pub proof fn lemma_visible_same_filters(listing: Seq<EntryView>, first: Config, second: Config)
    requires
        first.show_hidden == second.show_hidden,
        first.directory_only == second.directory_only,
        first.file_only == second.file_only,
    ensures
        visible(listing, first) == visible(listing, second),
{
    lemma_selected_same_filters(candidates(listing), first, second, 0);
}

/// No two slots of a directory hold the same position of the listing.
pub proof fn lemma_visible_distinct(listing: Seq<EntryView>, config: Config, k: int, l: int)
    requires
        0 <= k < visible(listing, config).len(),
        0 <= l < visible(listing, config).len(),
        visible(listing, config)[k].index == visible(listing, config)[l].index,
    ensures
        k == l,
{
    let slots = visible(listing, config);
    lemma_visible_arranges(listing, config);
    lemma_before_total(slots[k], slots[l]);
    if k < l {
        assert(slot_precedes(slots[k], slots[l]));
    } else if l < k {
        assert(slot_precedes(slots[l], slots[k]));
    }
}

/// The candidates of a listing: gives every entry its position and its
/// name in lowercase.
pub fn prepare(listing: Vec<Entry>) -> (found: Vec<Slot>)
    ensures
        slot_views(found@) == candidates(entry_views(listing@)),
{
    let mut found: Vec<Slot> = Vec::new();
    for entry in rest: listing
        invariant
            found@.len() == rest.index(),
            forall|i: int|
                0 <= i < found@.len() ==> (#[trigger] found@[i])@ == (SlotView {
                    index: i,
                    folded: lowercase_of(rest.seq()[i]@.name),
                    entry: rest.seq()[i]@,
                }),
    {
        let index = found.len();
        let folded = lowercase(entry.name.as_str());
        found.push(Slot { index, folded, entry });
    }
    assert(slot_views(found@) =~= candidates(entry_views(listing@)));
    found
}

/// Finds the insert position of a slot among sorted slots by halving.
fn find_position(slots: &Vec<Slot>, x: &Slot) -> (p: usize)
    requires
        sorted(slot_views(slots@)),
    ensures
        p == insert_position(x@, slot_views(slots@)),
        p <= slots@.len(),
{
    let ghost views = slot_views(slots@);
    let mut low: usize = 0;
    let mut high: usize = slots.len();
    while low < high
        invariant
            low <= high <= slots@.len(),
            views == slot_views(slots@),
            sorted(views),
            forall|k: int| 0 <= k < low ==> slot_before(#[trigger] views[k], x@),
            forall|k: int| high <= k < views.len() ==> !slot_before(#[trigger] views[k], x@),
        decreases high - low,
    {
        let mid = low + (high - low) / 2;
        proof {
            lemma_sorted_splits(views, x@, mid as int);
        }
        let pivot = &slots[mid];
        if precedes_folded(
            pivot.folded.as_str(),
            pivot.entry.name.as_str(),
            x.folded.as_str(),
            x.entry.name.as_str(),
        ) {
            low = mid + 1;
        } else {
            high = mid;
        }
    }
    proof {
        lemma_insert_position(x@, views, low as int);
    }
    low
}

/// Selects the candidates that are shown under `config` and sorts them by
/// name.
pub fn select(candidates: Vec<Slot>, config: &Config) -> (slots: Vec<Slot>)
    ensures
        slot_views(slots@) == selected(slot_views(candidates@), *config),
{
    let ghost all = slot_views(candidates@);
    let mut candidates = candidates;
    let mut slots: Vec<Slot> = Vec::new();
    while candidates.len() > 0
        invariant
            candidates@.len() <= all.len(),
            forall|i: int| 0 <= i < candidates@.len() ==> (#[trigger] candidates@[i])@ == all[i],
            slot_views(slots@) == selected_from(all, *config, candidates@.len() as int),
        decreases candidates@.len(),
    {
        let ghost at = candidates@.len() - 1;
        let last = candidates.pop();
        if let Some(slot) = last {
            assert(slot@ == all[at]);
            if slot.entry.is_shown(config) {
                let ghost before = slot_views(slots@);
                proof {
                    lemma_selected_sorted(all, *config, at + 1);
                }
                let p = find_position(&slots, &slot);
                let ghost x = slot@;
                slots.insert(p, slot);
                assert(slot_views(slots@) =~= before.insert(p as int, x));
            }
        }
    }
    slots
}

/// The slots of a listing: filters it by `config` and sorts what is left.
pub fn arrange(listing: Vec<Entry>, config: &Config) -> (slots: Vec<Slot>)
    ensures
        slot_views(slots@) == visible(entry_views(listing@), *config),
{
    select(prepare(listing), config)
}

} // verus!
