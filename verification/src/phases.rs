//! Named phases: running totals of the phases that are open, the order in
//! which phases were first started, and the totals of the phases that ended.

use crate::metrics::{combined_cost, delta_views, Cost, DeltaView, MetricsDelta};
use vstd::prelude::*;

verus! {

/// The names of a list as sequences of characters, in the list's order.
pub open spec fn name_views(names: Seq<String>) -> Seq<Seq<char>> {
    names.map_values(|name: String| name@)
}

/// The entry that was added last to `finished` under `name`, if there is one.
pub open spec fn latest_total(finished: Seq<DeltaView>, name: Seq<char>) -> Option<DeltaView>
    decreases finished.len(),
{
    if finished.len() == 0 {
        None
    } else if finished.last().name == name {
        Some(finished.last())
    } else {
        latest_total(finished.drop_last(), name)
    }
}

/// For each name of `order` under which `finished` has an entry, the latest
/// such entry; in the order of `order`.
pub open spec fn totals_in_order(order: Seq<Seq<char>>, finished: Seq<DeltaView>) -> Seq<
    DeltaView,
>
    decreases order.len(),
{
    if order.len() == 0 {
        Seq::empty()
    } else {
        let before = totals_in_order(order.drop_last(), finished);
        match latest_total(finished, order.last()) {
            Some(total) => before.push(total),
            None => before,
        }
    }
}

/// The phases of a run as a mathematical value.
pub struct PhasesView {
    /// The running total of each open phase, by the phase's name.
    pub open: Map<Seq<char>, Cost>,
    /// The names of all phases that were ever started, in the order of their
    /// first start.
    pub order: Seq<Seq<char>>,
    /// The totals of the phases that ended, in the order in which they ended.
    pub finished: Seq<DeltaView>,
}

impl PhasesView {
    /// No phase was started yet.
    pub open spec fn empty() -> PhasesView {
        PhasesView { open: Map::empty(), order: Seq::empty(), finished: Seq::empty() }
    }

    /// Phase `name` is started: its running total is zero, also where it was
    /// open before, and the name joins `order` if it is not there yet.
    pub open spec fn start(self, name: Seq<char>) -> PhasesView {
        PhasesView {
            open: self.open.insert(name, Cost::zero()),
            order: if self.order.contains(name) {
                self.order
            } else {
                self.order.push(name)
            },
            finished: self.finished,
        }
    }

    /// Phase `name` ends: where it is open, its running total leaves `open`
    /// and joins `finished`; where it is not, nothing changes.
    pub open spec fn end(self, name: Seq<char>) -> PhasesView {
        if self.open.dom().contains(name) {
            PhasesView {
                open: self.open.remove(name),
                order: self.order,
                finished: self.finished.push(DeltaView { name, cost: self.open[name] }),
            }
        } else {
            self
        }
    }

    /// An operation that cost `cost` is finished: every open phase takes the
    /// whole of it.
    pub open spec fn fold(self, cost: Cost) -> PhasesView {
        PhasesView {
            open: self.open.map_values(|total: Cost| total.combine(cost)),
            order: self.order,
            finished: self.finished,
        }
    }

    /// Operations that cost `costs` are finished, one after the other.
    pub open spec fn fold_all(self, costs: Seq<Cost>) -> PhasesView {
        costs.fold_left(self, |phases: PhasesView, cost: Cost| phases.fold(cost))
    }

    /// Whether a phase of this name has ended.
    pub open spec fn has_ended(self, name: Seq<char>) -> bool {
        exists|i: int| 0 <= i < self.finished.len() && (#[trigger] self.finished[i]).name == name
    }

    /// The totals to report: for each phase that has ended the total with
    /// which it ended last, in the order in which the phases were first
    /// started.
    pub open spec fn totals(self) -> Seq<DeltaView> {
        totals_in_order(self.order, self.finished)
    }

    /// What holds of the phases of every run: no name is twice in `order`,
    /// and every phase that is open or has ended is in `order`.
    pub open spec fn well_formed(self) -> bool {
        &&& self.order.no_duplicates()
        &&& forall|name: Seq<char>| #[trigger]
            self.open.dom().contains(name) ==> self.order.contains(name)
        &&& forall|i: int|
            0 <= i < self.finished.len() ==> self.order.contains(
                (#[trigger] self.finished[i]).name,
            )
    }
}

/// Whether `entries` has an entry under `name`.
spec fn has_name(entries: Seq<DeltaView>, name: Seq<char>) -> bool {
    exists|i: int| 0 <= i < entries.len() && (#[trigger] entries[i]).name == name
}

/// Where `entries` has an entry under `name`, the place of one.
spec fn place_of(entries: Seq<DeltaView>, name: Seq<char>) -> int {
    choose|i: int| 0 <= i < entries.len() && (#[trigger] entries[i]).name == name
}

/// Whether no two entries have the same name.
spec fn distinct_names(entries: Seq<DeltaView>) -> bool {
    forall|i: int, j: int|
        0 <= i < j < entries.len() ==> (#[trigger] entries[i]).name != (#[trigger] entries[j]).name
}

/// The costs of `entries`, each under its entry's name.
spec fn running_totals(entries: Seq<DeltaView>) -> Map<Seq<char>, Cost> {
    Map::new(
        |name: Seq<char>| has_name(entries, name),
        |name: Seq<char>| entries[place_of(entries, name)].cost,
    )
}

/// What the three lists of a `PhaseAggregator` always satisfy: no two open
/// phases have the same name, no name is twice in the order of first starts,
/// and every phase that is open or has ended is in that order.
spec fn consistent_lists(
    open: Seq<DeltaView>,
    order: Seq<Seq<char>>,
    finished: Seq<DeltaView>,
) -> bool {
    &&& distinct_names(open)
    &&& order.no_duplicates()
    &&& forall|i: int| 0 <= i < open.len() ==> order.contains((#[trigger] open[i]).name)
    &&& forall|i: int| 0 <= i < finished.len() ==> order.contains((#[trigger] finished[i]).name)
}

/// Among entries with distinct names, an entry is the one that stands for
/// its name.
proof fn lemma_place_of(entries: Seq<DeltaView>, i: int)
    requires
        distinct_names(entries),
        0 <= i < entries.len(),
    ensures
        has_name(entries, entries[i].name),
        place_of(entries, entries[i].name) == i,
        running_totals(entries).dom().contains(entries[i].name),
        running_totals(entries)[entries[i].name] == entries[i].cost,
{
}

/// A map that holds under every name what the entries hold is the map of
/// their running totals.
proof fn lemma_running_totals_are(entries: Seq<DeltaView>, totals: Map<Seq<char>, Cost>)
    requires
        distinct_names(entries),
        forall|name: Seq<char>| #[trigger] totals.dom().contains(name) <==> has_name(entries, name),
        forall|i: int|
            0 <= i < entries.len() ==> totals[(#[trigger] entries[i]).name] == entries[i].cost,
    ensures
        running_totals(entries) == totals,
{
    assert forall|name: Seq<char>| #[trigger]
        running_totals(entries).dom().contains(name) implies running_totals(entries)[name]
        == totals[name] by {
        let p = place_of(entries, name);
        assert(entries[p].name == name);
    }
    assert(running_totals(entries) =~= totals);
}

/// An entry under a new name joins the running totals under that name.
proof fn lemma_totals_after_push(entries: Seq<DeltaView>, entry: DeltaView)
    requires
        distinct_names(entries),
        !has_name(entries, entry.name),
    ensures
        distinct_names(entries.push(entry)),
        running_totals(entries.push(entry)) == running_totals(entries).insert(
            entry.name,
            entry.cost,
        ),
{
    let pushed = entries.push(entry);
    let totals = running_totals(entries).insert(entry.name, entry.cost);
    assert forall|name: Seq<char>| #[trigger] totals.dom().contains(name) <==> has_name(
        pushed,
        name,
    ) by {
        if has_name(entries, name) {
            assert(pushed[place_of(entries, name)].name == name);
        }
        if name == entry.name {
            assert(pushed[entries.len() as int].name == name);
        }
        if has_name(pushed, name) {
            let p = place_of(pushed, name);
            assert(p < entries.len() ==> entries[p].name == name);
        }
    }
    assert forall|i: int| 0 <= i < pushed.len() implies totals[(#[trigger] pushed[i]).name]
        == pushed[i].cost by {
        if i < entries.len() {
            lemma_place_of(entries, i);
        }
    }
    lemma_running_totals_are(pushed, totals);
}

/// An entry that takes the place of the entry of its name takes its place in
/// the running totals.
proof fn lemma_totals_after_update(entries: Seq<DeltaView>, i: int, entry: DeltaView)
    requires
        distinct_names(entries),
        0 <= i < entries.len(),
        entry.name == entries[i].name,
    ensures
        distinct_names(entries.update(i, entry)),
        running_totals(entries.update(i, entry)) == running_totals(entries).insert(
            entry.name,
            entry.cost,
        ),
{
    let updated = entries.update(i, entry);
    let totals = running_totals(entries).insert(entry.name, entry.cost);
    assert forall|name: Seq<char>| #[trigger] totals.dom().contains(name) <==> has_name(
        updated,
        name,
    ) by {
        if has_name(entries, name) {
            assert(updated[place_of(entries, name)].name == name);
        }
        if has_name(updated, name) {
            assert(entries[place_of(updated, name)].name == name);
        }
    }
    assert forall|k: int| 0 <= k < updated.len() implies totals[(#[trigger] updated[k]).name]
        == updated[k].cost by {
        if k != i {
            lemma_place_of(entries, k);
        }
    }
    lemma_running_totals_are(updated, totals);
}

/// Where the entry that stands at `k` after the entry at `i` left stood
/// before.
spec fn place_before_removal(k: int, i: int) -> int {
    if k < i {
        k
    } else {
        k + 1
    }
}

/// An entry that leaves takes its name out of the running totals.
proof fn lemma_totals_after_remove(entries: Seq<DeltaView>, i: int)
    requires
        distinct_names(entries),
        0 <= i < entries.len(),
    ensures
        distinct_names(entries.remove(i)),
        running_totals(entries.remove(i)) == running_totals(entries).remove(entries[i].name),
        forall|k: int|
            0 <= k < entries.remove(i).len() ==> has_name(
                entries,
                (#[trigger] entries.remove(i)[k]).name,
            ),
{
    let removed = entries.remove(i);
    let totals = running_totals(entries).remove(entries[i].name);
    assert forall|k: int| 0 <= k < removed.len() implies #[trigger] removed[k]
        == entries[place_before_removal(k, i)] by {}
    assert forall|name: Seq<char>| #[trigger] totals.dom().contains(name) <==> has_name(
        removed,
        name,
    ) by {
        if has_name(entries, name) && name != entries[i].name {
            let p = place_of(entries, name);
            if p < i {
                assert(removed[p] == entries[p]);
            } else {
                assert(removed[p - 1] == entries[p]);
            }
        }
        if has_name(removed, name) {
            let q = place_of(removed, name);
            assert(removed[q].name == name);
        }
    }
    assert forall|k: int| 0 <= k < removed.len() implies totals[(#[trigger] removed[k]).name]
        == removed[k].cost by {
        lemma_place_of(entries, place_before_removal(k, i));
    }
    lemma_running_totals_are(removed, totals);
}

/// Entries that each take a cost on top of their own make the running
/// totals that each took that cost.
proof fn lemma_totals_after_fold(entries: Seq<DeltaView>, folded: Seq<DeltaView>, cost: Cost)
    requires
        distinct_names(entries),
        folded.len() == entries.len(),
        forall|i: int|
            0 <= i < entries.len() ==> #[trigger] folded[i] == (DeltaView {
                name: entries[i].name,
                cost: entries[i].cost.combine(cost),
            }),
    ensures
        distinct_names(folded),
        running_totals(folded) == running_totals(entries).map_values(
            |total: Cost| total.combine(cost),
        ),
{
    let totals = running_totals(entries).map_values(|total: Cost| total.combine(cost));
    assert forall|name: Seq<char>| #[trigger] totals.dom().contains(name) <==> has_name(
        folded,
        name,
    ) by {
        if has_name(entries, name) {
            assert(folded[place_of(entries, name)].name == name);
        }
        if has_name(folded, name) {
            assert(entries[place_of(folded, name)].name == name);
        }
    }
    assert forall|k: int| 0 <= k < folded.len() implies totals[(#[trigger] folded[k]).name]
        == folded[k].cost by {
        lemma_place_of(entries, k);
    }
    lemma_running_totals_are(folded, totals);
}

/// Consistent lists are the lists of well-formed phases.
proof fn lemma_consistent_is_well_formed(
    open: Seq<DeltaView>,
    order: Seq<Seq<char>>,
    finished: Seq<DeltaView>,
)
    requires
        consistent_lists(open, order, finished),
    ensures
        (PhasesView { open: running_totals(open), order, finished }).well_formed(),
{
    assert forall|name: Seq<char>| #[trigger]
        running_totals(open).dom().contains(name) implies order.contains(name) by {
        assert(open[place_of(open, name)].name == name);
    }
}

/// The lists stay consistent when a phase starts: the open phases are those
/// of before and the one that starts, and its name joins the order if it is
/// not there yet.
proof fn lemma_start_keeps_consistent(
    open_before: Seq<DeltaView>,
    open: Seq<DeltaView>,
    order_before: Seq<Seq<char>>,
    order: Seq<Seq<char>>,
    finished: Seq<DeltaView>,
    name: Seq<char>,
)
    requires
        consistent_lists(open_before, order_before, finished),
        distinct_names(open),
        forall|i: int|
            0 <= i < open.len() ==> (#[trigger] open[i]).name == name || has_name(
                open_before,
                open[i].name,
            ),
        order == if order_before.contains(name) {
            order_before
        } else {
            order_before.push(name)
        },
    ensures
        consistent_lists(open, order, finished),
{
    lemma_order_after_start(order_before, name);
    assert forall|i: int| 0 <= i < open.len() implies order.contains(
        (#[trigger] open[i]).name,
    ) by {
        if open[i].name != name {
            let p = place_of(open_before, open[i].name);
            assert(order_before.contains(open_before[p].name));
        }
    }
    assert forall|i: int| 0 <= i < finished.len() implies order.contains(
        (#[trigger] finished[i]).name,
    ) by {
        assert(order_before.contains(finished[i].name));
    }
}

/// The order of first starts after a phase starts holds what it held and
/// the phase's name, and no name twice.
proof fn lemma_order_after_start(order: Seq<Seq<char>>, name: Seq<char>)
    requires
        order.no_duplicates(),
    ensures
        ({
            let after = if order.contains(name) {
                order
            } else {
                order.push(name)
            };
            &&& after.no_duplicates()
            &&& after.contains(name)
            &&& forall|other: Seq<char>| order.contains(other) ==> after.contains(other)
        }),
{
    let after = if order.contains(name) {
        order
    } else {
        order.push(name)
    };
    assert forall|other: Seq<char>| order.contains(other) implies after.contains(other) by {
        let k = choose|k: int| 0 <= k < order.len() && order[k] == other;
        assert(after[k] == other);
    }
    if !order.contains(name) {
        assert(after[order.len() as int] == name);
        assert forall|i: int, j: int|
            0 <= i < after.len() && 0 <= j < after.len() && i != j implies after[i]
            != after[j] by {
            if i < order.len() {
                assert(order[i] == after[i]);
            }
            if j < order.len() {
                assert(order[j] == after[j]);
            }
        }
    }
}

/// The last entry under a name with no later entry under it is the latest
/// total of that name.
proof fn lemma_latest_total_is(finished: Seq<DeltaView>, name: Seq<char>, at: int)
    requires
        0 <= at < finished.len(),
        finished[at].name == name,
        forall|k: int| at < k < finished.len() ==> (#[trigger] finished[k]).name != name,
    ensures
        latest_total(finished, name) == Some(finished[at]),
    decreases finished.len(),
{
    if at < finished.len() - 1 {
        assert(finished[finished.len() - 1].name != name);
        lemma_latest_total_is(finished.drop_last(), name, at);
    }
}

/// A name has a latest total exactly where there is an entry under it, and
/// the latest total is such an entry.
proof fn lemma_latest_total_found(finished: Seq<DeltaView>, name: Seq<char>)
    ensures
        has_name(finished, name) <==> latest_total(finished, name) is Some,
        latest_total(finished, name) matches Some(total) ==> total.name == name
            && finished.contains(total),
    decreases finished.len(),
{
    if finished.len() > 0 {
        let rest = finished.drop_last();
        lemma_latest_total_found(rest, name);
        if finished.last().name == name {
            assert(finished[finished.len() - 1] == finished.last());
        } else {
            if latest_total(rest, name) is Some {
                assert(finished[place_of(rest, name)].name == name);
                let total = latest_total(rest, name).unwrap();
                let k = choose|k: int| 0 <= k < rest.len() && rest[k] == total;
                assert(finished[k] == total);
            }
            if has_name(finished, name) {
                assert(rest[place_of(finished, name)].name == name);
            }
        }
    }
}

/// Where the last of `deltas` under `name` stands, if there is one.
fn last_named(deltas: &Vec<MetricsDelta>, name: &String) -> (found: Option<usize>)
    ensures
        match found {
            Some(i) => {
                &&& i < deltas@.len()
                &&& delta_views(deltas@)[i as int].name == name@
                &&& forall|k: int|
                    i < k < deltas@.len() ==> (#[trigger] delta_views(deltas@)[k]).name != name@
            },
            None => !has_name(delta_views(deltas@), name@),
        },
{
    let mut i: usize = deltas.len();
    while i > 0
        invariant
            i <= deltas@.len(),
            forall|k: int|
                i <= k < deltas@.len() ==> (#[trigger] delta_views(deltas@)[k]).name != name@,
        decreases i,
    {
        i -= 1;
        if deltas[i].name == *name {
            return Some(i);
        }
    }
    None
}

/// Whether `name` is among `names`.
fn holds_name(names: &Vec<String>, name: &String) -> (found: bool)
    ensures
        found == name_views(names@).contains(name@),
{
    let mut i: usize = 0;
    while i < names.len()
        invariant
            i <= names@.len(),
            forall|k: int| 0 <= k < i ==> name_views(names@)[k] != name@,
        decreases names@.len() - i,
    {
        if names[i] == *name {
            assert(name_views(names@)[i as int] == name@);
            return true;
        }
        i += 1;
    }
    false
}

/// The phases of a run: which are open and what each has cost so far, in
/// which order phases were first started, and what each phase that ended had
/// cost.
#[derive(Debug)]
pub struct PhaseAggregator {
    open: Vec<MetricsDelta>,
    order: Vec<String>,
    finished: Vec<MetricsDelta>,
}

impl View for PhaseAggregator {
    type V = PhasesView;

    closed spec fn view(&self) -> PhasesView {
        PhasesView {
            open: running_totals(delta_views(self.open@)),
            order: name_views(self.order@),
            finished: delta_views(self.finished@),
        }
    }
}

impl PhaseAggregator {
    #[verifier::type_invariant]
    spec fn consistent(self) -> bool {
        consistent_lists(
            delta_views(self.open@),
            name_views(self.order@),
            delta_views(self.finished@),
        )
    }

    /// The phases of a run in which none was started yet.
    pub fn new() -> (phases: PhaseAggregator)
        ensures
            phases@ == PhasesView::empty(),
            phases@.well_formed(),
    {
        let phases = PhaseAggregator { open: Vec::new(), order: Vec::new(), finished: Vec::new() };
        proof {
            assert(phases@.open =~= Map::<Seq<char>, Cost>::empty());
            assert(phases@.order =~= Seq::<Seq<char>>::empty());
            assert(phases@.finished =~= Seq::<DeltaView>::empty());
        }
        phases
    }

    /// Starts the phase `name` with a running total of zero. A phase of this
    /// name that is open starts anew; the name's place in the order of first
    /// starts stays as it is.
    pub fn start_phase(&mut self, name: &str)
        ensures
            final(self)@ == old(self)@.start(name@),
            final(self)@.well_formed(),
    {
        proof {
            use_type_invariant(&*self);
        }
        let owned: String = name.to_owned();
        let mut taken = PhaseAggregator::new();
        std::mem::swap(self, &mut taken);
        let PhaseAggregator { mut open, mut order, finished } = taken;
        let ghost open_before = delta_views(open@);
        let ghost order_before = name_views(order@);
        let zero = MetricsDelta::zero(owned.clone());
        match last_named(&open, &owned) {
            Some(i) => {
                open.set(i, zero);
                proof {
                    assert(delta_views(open@) =~= open_before.update(
                        i as int,
                        DeltaView::zero(name@),
                    ));
                    lemma_totals_after_update(open_before, i as int, DeltaView::zero(name@));
                }
            },
            None => {
                open.push(zero);
                proof {
                    assert(delta_views(open@) =~= open_before.push(DeltaView::zero(name@)));
                    lemma_totals_after_push(open_before, DeltaView::zero(name@));
                }
            },
        }
        if !holds_name(&order, &owned) {
            order.push(owned);
            proof {
                assert(name_views(order@) =~= order_before.push(name@));
            }
        }
        proof {
            lemma_start_keeps_consistent(
                open_before,
                delta_views(open@),
                order_before,
                name_views(order@),
                delta_views(finished@),
                name@,
            );
            lemma_consistent_is_well_formed(
                delta_views(open@),
                name_views(order@),
                delta_views(finished@),
            );
        }
        *self = PhaseAggregator { open, order, finished };
    }

    /// Ends the phase `name`: its running total leaves the open phases and
    /// is added to the totals of the phases that ended. Nothing changes where
    /// no phase of this name is open.
    pub fn end_phase(&mut self, name: &str)
        ensures
            final(self)@ == old(self)@.end(name@),
            final(self)@.well_formed(),
    {
        proof {
            use_type_invariant(&*self);
        }
        let owned: String = name.to_owned();
        let mut taken = PhaseAggregator::new();
        std::mem::swap(self, &mut taken);
        let PhaseAggregator { mut open, order, mut finished } = taken;
        let ghost open_before = delta_views(open@);
        let ghost finished_before = delta_views(finished@);
        match last_named(&open, &owned) {
            Some(i) => {
                let total = open.remove(i);
                finished.push(total);
                proof {
                    assert(delta_views(open@) =~= open_before.remove(i as int));
                    assert(delta_views(finished@) =~= finished_before.push(
                        open_before[i as int],
                    ));
                    lemma_place_of(open_before, i as int);
                    lemma_totals_after_remove(open_before, i as int);
                    assert forall|k: int| 0 <= k < open@.len() implies name_views(
                        order@,
                    ).contains((#[trigger] delta_views(open@)[k]).name) by {
                        let p = place_of(open_before, delta_views(open@)[k].name);
                        assert(name_views(order@).contains(open_before[p].name));
                    }
                }
            },
            None => {},
        }
        proof {
            lemma_consistent_is_well_formed(
                delta_views(open@),
                name_views(order@),
                delta_views(finished@),
            );
        }
        *self = PhaseAggregator { open, order, finished };
    }

    /// Adds the cost of a finished operation to every open phase: each takes
    /// the whole of it.
    pub fn fold(&mut self, delta: &MetricsDelta)
        ensures
            final(self)@ == old(self)@.fold(delta@.cost),
            final(self)@.well_formed(),
    {
        proof {
            use_type_invariant(&*self);
        }
        let mut taken = PhaseAggregator::new();
        std::mem::swap(self, &mut taken);
        let PhaseAggregator { mut open, order, finished } = taken;
        let ghost open_before = delta_views(open@);
        let count: usize = open.len();
        let mut i: usize = 0;
        while i < count
            invariant
                i <= count,
                count == open@.len(),
                count == open_before.len(),
                forall|k: int|
                    0 <= k < i ==> #[trigger] delta_views(open@)[k] == (DeltaView {
                        name: open_before[k].name,
                        cost: open_before[k].cost.combine(delta@.cost),
                    }),
                forall|k: int|
                    i <= k < count ==> #[trigger] delta_views(open@)[k] == open_before[k],
            decreases count - i,
        {
            let ghost entries = delta_views(open@);
            let combined = open[i].combine(delta);
            open.set(i, combined);
            proof {
                assert(entries[i as int] == open_before[i as int]);
                assert(delta_views(open@) =~= entries.update(i as int, combined@));
            }
            i += 1;
        }
        proof {
            lemma_totals_after_fold(open_before, delta_views(open@), delta@.cost);
            assert forall|k: int| 0 <= k < open@.len() implies name_views(order@).contains(
                (#[trigger] delta_views(open@)[k]).name,
            ) by {
                assert(name_views(order@).contains(open_before[k].name));
            }
            lemma_consistent_is_well_formed(
                delta_views(open@),
                name_views(order@),
                delta_views(finished@),
            );
        }
        *self = PhaseAggregator { open, order, finished };
    }

    /// The totals to report: for each phase that has ended the total with
    /// which it ended last, in the order in which the phases were first
    /// started.
    pub fn totals(&self) -> (totals: Vec<MetricsDelta>)
        ensures
            delta_views(totals@) == self@.totals(),
            self@.well_formed(),
    {
        proof {
            use_type_invariant(self);
            self.lemma_well_formed();
        }
        let ghost order = name_views(self.order@);
        let ghost finished = delta_views(self.finished@);
        let mut totals: Vec<MetricsDelta> = Vec::new();
        let mut i: usize = 0;
        while i < self.order.len()
            invariant
                i <= self.order@.len(),
                order == name_views(self.order@),
                finished == delta_views(self.finished@),
                delta_views(totals@) == totals_in_order(order.take(i as int), finished),
            decreases self.order@.len() - i,
        {
            let ghost before = delta_views(totals@);
            proof {
                assert(order.take(i + 1).drop_last() =~= order.take(i as int));
                lemma_latest_total_found(finished, order[i as int]);
            }
            match last_named(&self.finished, &self.order[i]) {
                Some(at) => {
                    totals.push(self.finished[at].clone());
                    proof {
                        lemma_latest_total_is(finished, order[i as int], at as int);
                        assert(delta_views(totals@) =~= before.push(finished[at as int]));
                    }
                },
                None => {},
            }
            i += 1;
        }
        proof {
            assert(order.take(i as int) =~= order);
        }
        totals
    }

    /// Whether a phase of this name is open.
    pub fn is_open(&self, name: &str) -> (open: bool)
        ensures
            open == self@.open.dom().contains(name@),
            self@.well_formed(),
    {
        proof {
            use_type_invariant(self);
            self.lemma_well_formed();
        }
        let owned: String = name.to_owned();
        let found = last_named(&self.open, &owned);
        found.is_some()
    }

    /// What the open phase of this name has cost so far, if one is open.
    pub fn running_total(&self, name: &str) -> (total: Option<MetricsDelta>)
        ensures
            match total {
                Some(delta) => self@.open.dom().contains(name@) && delta@ == (DeltaView {
                    name: name@,
                    cost: self@.open[name@],
                }),
                None => !self@.open.dom().contains(name@),
            },
            self@.well_formed(),
    {
        proof {
            use_type_invariant(self);
            self.lemma_well_formed();
        }
        let owned: String = name.to_owned();
        match last_named(&self.open, &owned) {
            Some(i) => {
                proof {
                    lemma_place_of(delta_views(self.open@), i as int);
                }
                Some(self.open[i].clone())
            },
            None => None,
        }
    }

    /// The names of all phases that were ever started, in the order of their
    /// first start.
    pub fn order(&self) -> (order: &Vec<String>)
        ensures
            name_views(order@) == self@.order,
            self@.well_formed(),
    {
        proof {
            use_type_invariant(self);
            self.lemma_well_formed();
        }
        &self.order
    }

    /// The totals of the phases that ended, in the order in which they ended.
    pub fn finished(&self) -> (finished: &Vec<MetricsDelta>)
        ensures
            delta_views(finished@) == self@.finished,
            self@.well_formed(),
    {
        proof {
            use_type_invariant(self);
            self.lemma_well_formed();
        }
        &self.finished
    }

    /// Phases whose lists are consistent are well formed.
    proof fn lemma_well_formed(&self)
        requires
            self.consistent(),
        ensures
            self@.well_formed(),
    {
        lemma_consistent_is_well_formed(
            delta_views(self.open@),
            name_views(self.order@),
            delta_views(self.finished@),
        );
    }
}

/// A phase has a latest total exactly where it has ended, and that total
/// is an entry of `finished` under the phase's name.
pub proof fn lemma_latest_total_of_ended(p: PhasesView, name: Seq<char>)
    ensures
        p.has_ended(name) <==> latest_total(p.finished, name) is Some,
        latest_total(p.finished, name) matches Some(total) ==> total.name == name
            && p.finished.contains(total),
{
    lemma_latest_total_found(p.finished, name);
}

/// The phases of a run are well formed from its start on, whatever phases
/// start and end and whatever operations finish.
pub proof fn lemma_well_formed_is_kept(p: PhasesView, name: Seq<char>, cost: Cost)
    requires
        p.well_formed(),
    ensures
        PhasesView::empty().well_formed(),
        p.start(name).well_formed(),
        p.end(name).well_formed(),
        p.fold(cost).well_formed(),
{
    lemma_order_after_start(p.order, name);
    let started = p.start(name);
    assert forall|i: int| 0 <= i < started.finished.len() implies started.order.contains(
        (#[trigger] started.finished[i]).name,
    ) by {
        assert(p.order.contains(p.finished[i].name));
    }
    let ended = p.end(name);
    assert forall|i: int| 0 <= i < ended.finished.len() implies ended.order.contains(
        (#[trigger] ended.finished[i]).name,
    ) by {
        if i < p.finished.len() {
            assert(ended.finished[i] == p.finished[i]);
        }
    }
}

/// The order of first starts and the totals of ended phases only grow:
/// whatever happens, what they held before stays where it was.
pub proof fn lemma_lists_only_grow(p: PhasesView, name: Seq<char>, cost: Cost)
    ensures
        p.order.is_prefix_of(p.start(name).order),
        p.start(name).finished == p.finished,
        p.end(name).order == p.order,
        p.finished.is_prefix_of(p.end(name).finished),
        p.fold(cost).order == p.order,
        p.fold(cost).finished == p.finished,
{
}

/// The totals to report stand in the order in which their phases were first
/// started, whatever the order in which the phases ended: their names are
/// the names of that order under which a phase has ended, and each is the
/// total with which its phase ended last.
pub proof fn lemma_totals_follow_start_order(p: PhasesView)
    ensures
        p.totals().map_values(|total: DeltaView| total.name) == p.order.filter(
            |name: Seq<char>| p.has_ended(name),
        ),
        forall|i: int|
            0 <= i < p.totals().len() ==> latest_total(
                p.finished,
                (#[trigger] p.totals()[i]).name,
            ) == Some(p.totals()[i]),
{
    lemma_totals_in_order(p, p.order);
}

/// What `lemma_totals_follow_start_order` says, of the totals of the first
/// names of the order of first starts.
proof fn lemma_totals_in_order(p: PhasesView, order: Seq<Seq<char>>)
    ensures
        totals_in_order(order, p.finished).map_values(|total: DeltaView| total.name)
            == order.filter(|name: Seq<char>| p.has_ended(name)),
        forall|i: int|
            0 <= i < totals_in_order(order, p.finished).len() ==> latest_total(
                p.finished,
                (#[trigger] totals_in_order(order, p.finished)[i]).name,
            ) == Some(totals_in_order(order, p.finished)[i]),
    decreases order.len(),
{
    reveal(Seq::filter);
    let ended = |name: Seq<char>| p.has_ended(name);
    let named = |total: DeltaView| total.name;
    let totals = totals_in_order(order, p.finished);
    if order.len() == 0 {
        assert(totals.map_values(named) =~= order.filter(ended));
    } else {
        let before = totals_in_order(order.drop_last(), p.finished);
        lemma_totals_in_order(p, order.drop_last());
        lemma_latest_total_found(p.finished, order.last());
        match latest_total(p.finished, order.last()) {
            Some(total) => {
                assert(totals.map_values(named) =~= before.map_values(named).push(total.name));
                assert forall|i: int| 0 <= i < totals.len() implies latest_total(
                    p.finished,
                    (#[trigger] totals[i]).name,
                ) == Some(totals[i]) by {
                    if i < before.len() {
                        assert(totals[i] == before[i]);
                    }
                }
            },
            None => {},
        }
    }
}

/// Of two totals to report, the one that is reported first belongs to the
/// phase that was first started first: the names of the two stand in the
/// order of first starts as the totals stand in the report.
pub proof fn lemma_totals_stand_as_their_phases_started(p: PhasesView, i: int, j: int)
    requires
        0 <= i < j < p.totals().len(),
    ensures
        exists|a: int, b: int|
            0 <= a < b < p.order.len() && #[trigger] p.order[a] == p.totals()[i].name
                && #[trigger] p.order[b] == p.totals()[j].name,
{
    lemma_place_of_total(p.order, p.finished, i);
    lemma_place_of_total(p.order, p.finished, j);
    lemma_places_of_totals_rise(p.order, p.finished, i, j);
    let a = place_of_total(p.order, p.finished, i);
    let b = place_of_total(p.order, p.finished, j);
    assert(p.order[a] == p.totals()[i].name && p.order[b] == p.totals()[j].name);
}

/// Where in `order` the name of the total stands that is reported at `at`.
spec fn place_of_total(order: Seq<Seq<char>>, finished: Seq<DeltaView>, at: int) -> int
    decreases order.len(),
{
    if order.len() == 0 {
        0
    } else if at < totals_in_order(order.drop_last(), finished).len() {
        place_of_total(order.drop_last(), finished, at)
    } else {
        order.len() - 1
    }
}

/// The place of a total is a place of `order`, and the name there is the
/// total's.
proof fn lemma_place_of_total(order: Seq<Seq<char>>, finished: Seq<DeltaView>, at: int)
    requires
        0 <= at < totals_in_order(order, finished).len(),
    ensures
        0 <= place_of_total(order, finished, at) < order.len(),
        order[place_of_total(order, finished, at)] == totals_in_order(order, finished)[at].name,
    decreases order.len(),
{
    if order.len() > 0 {
        let before = totals_in_order(order.drop_last(), finished);
        if at < before.len() {
            lemma_place_of_total(order.drop_last(), finished, at);
        } else {
            lemma_latest_total_found(finished, order.last());
        }
    }
}

/// The later a total is reported, the later its place in `order`.
proof fn lemma_places_of_totals_rise(
    order: Seq<Seq<char>>,
    finished: Seq<DeltaView>,
    i: int,
    j: int,
)
    requires
        0 <= i < j < totals_in_order(order, finished).len(),
    ensures
        place_of_total(order, finished, i) < place_of_total(order, finished, j),
    decreases order.len(),
{
    if order.len() > 0 {
        let before = totals_in_order(order.drop_last(), finished);
        if j < before.len() {
            lemma_places_of_totals_rise(order.drop_last(), finished, i, j);
        } else {
            lemma_place_of_total(order.drop_last(), finished, i);
        }
    }
}

/// Under well-formed phases there is a total to report exactly where a phase
/// has ended.
pub proof fn lemma_totals_empty_iff_none_ended(p: PhasesView)
    requires
        p.well_formed(),
    ensures
        p.totals().len() == 0 <==> p.finished.len() == 0,
{
    if p.finished.len() == 0 {
        lemma_no_totals_without_finished(p.order, p.finished);
    } else {
        let name = p.finished[0].name;
        assert(p.order.contains(name));
        let at = choose|at: int| 0 <= at < p.order.len() && p.order[at] == name;
        lemma_latest_total_found(p.finished, name);
        lemma_total_of_ended_is_reported(p.order, p.finished, at);
    }
}

/// Where no phase has ended there is no total to report.
proof fn lemma_no_totals_without_finished(order: Seq<Seq<char>>, finished: Seq<DeltaView>)
    requires
        finished.len() == 0,
    ensures
        totals_in_order(order, finished).len() == 0,
    decreases order.len(),
{
    if order.len() > 0 {
        lemma_no_totals_without_finished(order.drop_last(), finished);
    }
}

/// A name of the order that has a latest total makes a total to report.
proof fn lemma_total_of_ended_is_reported(
    order: Seq<Seq<char>>,
    finished: Seq<DeltaView>,
    at: int,
)
    requires
        0 <= at < order.len(),
        latest_total(finished, order[at]) is Some,
    ensures
        totals_in_order(order, finished).len() > 0,
    decreases order.len(),
{
    if at < order.len() - 1 {
        assert(order.drop_last()[at] == order[at]);
        lemma_total_of_ended_is_reported(order.drop_last(), finished, at);
    }
}

/// What finishes while a phase is open is what the phase has cost when it
/// ends: a phase that is started, then takes the costs of two operations and
/// then ends, ends with what the two cost together, whichever finished first.
pub proof fn lemma_phase_total_is_combined_cost(
    p: PhasesView,
    phase: Seq<char>,
    first: Cost,
    second: Cost,
)
    requires
        first.representable(),
        second.representable(),
    ensures
        p.start(phase).fold(first).fold(second).end(phase).finished == p.finished.push(
            DeltaView { name: phase, cost: first.combine(second) },
        ),
        p.start(phase).fold(second).fold(first).end(phase).finished == p.start(phase).fold(
            first,
        ).fold(second).end(phase).finished,
{
    let started = p.start(phase);
    assert(started.fold(first).fold(second).open[phase] == first.combine(second));
    assert(started.fold(second).fold(first).open[phase] == first.combine(second));
}

/// A phase ends with what all the operations cost together that finished
/// while it was open, however many they were. By
/// `lemma_combined_cost_ignores_order` the order in which they finished
/// makes no difference.
pub proof fn lemma_phase_total_is_cost_of_all(p: PhasesView, phase: Seq<char>, costs: Seq<Cost>)
    ensures
        p.start(phase).fold_all(costs).end(phase).finished == p.finished.push(
            DeltaView { name: phase, cost: combined_cost(costs) },
        ),
{
    lemma_running_total_after_all(p.start(phase), phase, costs);
}

/// A phase that is open with a total of zero has, after operations
/// finished, the total of what they cost together.
proof fn lemma_running_total_after_all(p: PhasesView, phase: Seq<char>, costs: Seq<Cost>)
    requires
        p.open.dom().contains(phase),
        p.open[phase] == Cost::zero(),
    ensures
        p.fold_all(costs).open.dom().contains(phase),
        p.fold_all(costs).open[phase] == combined_cost(costs),
        p.fold_all(costs).finished == p.finished,
        p.fold_all(costs).order == p.order,
    decreases costs.len(),
{
    if costs.len() > 0 {
        lemma_running_total_after_all(p, phase, costs.drop_last());
    }
}

/// An operation that finishes while several phases are open counts in full
/// for each of them: every open phase stays open, and its running total
/// grows by the whole cost of the operation.
pub proof fn lemma_every_open_phase_takes_full_cost(p: PhasesView, cost: Cost)
    ensures
        p.fold(cost).open.dom() == p.open.dom(),
        forall|name: Seq<char>| #[trigger]
            p.open.dom().contains(name) ==> p.fold(cost).open[name] == p.open[name].combine(
                cost,
            ),
        forall|name: Seq<char>| #[trigger]
            p.open.dom().contains(name) ==> p.fold(cost).end(name).finished == p.finished.push(
                DeltaView { name, cost: p.open[name].combine(cost) },
            ),
{
    assert(p.fold(cost).open.dom() =~= p.open.dom());
}

} // verus!
