//! Which sections are loaded: those that are reached by references.
use crate::symbol_id::SymbolId;
use crate::value_flags::ValueFlags;
use vstd::prelude::*;

verus! {

/// A relocation of a section.
#[derive(Clone, Copy, Debug, PartialEq, Eq, Structural)]
pub struct Reference {
    /// The definition of the symbol that the relocation refers to.
    pub symbol: SymbolId,
    /// What the relocation needs of the symbol.
    pub needed: ValueFlags,
}

/// A section of an input file.
#[derive(Clone, Copy, Debug, PartialEq, Eq, Structural)]
pub enum SectionNode {
    /// Its relocations are followed when it is loaded.
    Loadable,
    /// It leads nowhere: debug information, merged strings and the like.
    Leaf,
    /// It has no place in the output, so nothing may refer to it.
    Discarded,
}

/// The sections of all input files and what they refer to.
#[derive(Debug)]
pub struct ReferenceGraph {
    pub nodes: Vec<SectionNode>,
    /// The relocations of each section.
    pub references: Vec<Vec<Reference>>,
    /// The sections that are loaded when a symbol is needed: the one that it is in, or those that
    /// it marks the start or the end of.
    pub symbol_sections: Vec<Vec<usize>>,
}

/// What was found out by following references.
#[derive(Debug)]
pub struct Traversal {
    /// Whether each section is loaded.
    pub loaded: Vec<bool>,
    /// Whether each symbol has been asked for.
    pub requested: Vec<bool>,
    /// What is needed of each symbol.
    pub flags: Vec<ValueFlags>,
}

/// Whether some flags hold at least those of others.
pub open spec fn covers(flags: ValueFlags, others: ValueFlags) -> bool {
    flags.union(others) == flags
}

impl ReferenceGraph {
    pub open spec fn wf(&self) -> bool {
        &&& self.references@.len() == self.nodes@.len()
        &&& forall|s: int, k: int|
            #![trigger self.references@[s]@[k]]
            0 <= s < self.references@.len() && 0 <= k < self.references@[s]@.len()
                ==> self.references@[s]@[k].symbol.0 < self.symbol_sections@.len()
        &&& forall|id: int, k: int|
            #![trigger self.symbol_sections@[id]@[k]]
            0 <= id < self.symbol_sections@.len() && 0 <= k < self.symbol_sections@[id]@.len()
                ==> self.symbol_sections@[id]@[k] < self.nodes@.len()
    }

    /// Whether a section refers to a symbol, if its relocations are followed.
    pub open spec fn refers_to(&self, section: int, symbol: int) -> bool {
        self.nodes@[section] is Loadable && exists|k: int|
            0 <= k < self.references@[section]@.len() && (
            #[trigger] self.references@[section]@[k]).symbol.0 == symbol
    }

    /// Whether a symbol leads to a section.
    pub open spec fn symbol_leads_to(&self, symbol: int, section: int) -> bool {
        self.symbol_sections@[symbol]@.contains(section as usize)
    }

    /// Whether loading one section asks for another. Symbols that were needed from the start have
    /// been asked for already.
    pub open spec fn leads_to(&self, flags: Seq<ValueFlags>, from: int, to: int) -> bool {
        exists|symbol: int|
            0 <= symbol < self.symbol_sections@.len() && self.refers_to(from, symbol)
                && !flags[symbol].spec_has_resolution() && #[trigger] self.symbol_leads_to(
                symbol,
                to,
            )
    }

    /// Whether a section is asked for from the start.
    pub open spec fn is_root(
        &self,
        root_sections: Seq<usize>,
        root_symbols: Seq<SymbolId>,
        section: int,
    ) -> bool {
        root_sections.contains(section as usize) || exists|i: int|
            0 <= i < root_symbols.len() && #[trigger] self.symbol_leads_to(
                root_symbols[i].0 as int,
                section,
            )
    }

    /// Whether a section is reached from the roots in at most the given number of steps.
    pub open spec fn reached_in(
        &self,
        root_sections: Seq<usize>,
        root_symbols: Seq<SymbolId>,
        flags: Seq<ValueFlags>,
        section: int,
        steps: nat,
    ) -> bool
        decreases steps,
    {
        if steps == 0 {
            self.is_root(root_sections, root_symbols, section)
        } else {
            self.reached_in(root_sections, root_symbols, flags, section, (steps - 1) as nat)
                || exists|from: int|
                0 <= from < self.nodes@.len() && self.reached_in(
                    root_sections,
                    root_symbols,
                    flags,
                    from,
                    (steps - 1) as nat,
                ) && #[trigger] self.leads_to(flags, from, section)
        }
    }

    /// Whether a section is reached by references from the roots.
    pub open spec fn reachable(
        &self,
        root_sections: Seq<usize>,
        root_symbols: Seq<SymbolId>,
        flags: Seq<ValueFlags>,
        section: int,
    ) -> bool {
        exists|steps: nat|
            #[trigger] self.reached_in(root_sections, root_symbols, flags, section, steps)
    }
}

/// The flags of symbols after the needs of the first `count` references have been added.
pub open spec fn flags_after(
    flags: Seq<ValueFlags>,
    followed: Seq<Reference>,
    count: int,
) -> Seq<ValueFlags>
    decreases count,
{
    if count <= 0 {
        flags
    } else {
        let before = flags_after(flags, followed, count - 1);
        let reference = followed[count - 1];
        let id = reference.symbol.0 as int;
        before.update(id, before[id].union(reference.needed))
    }
}

proof fn lemma_flags_after(flags: Seq<ValueFlags>, followed: Seq<Reference>, count: int)
    requires
        0 <= count <= followed.len(),
        forall|i: int| 0 <= i < followed.len() ==> (#[trigger] followed[i]).symbol.0 < flags.len(),
    ensures
        flags_after(flags, followed, count).len() == flags.len(),
        forall|id: int|
            #![trigger flags_after(flags, followed, count)[id]]
            0 <= id < flags.len() ==> covers(flags_after(flags, followed, count)[id], flags[id]),
        forall|i: int|
            0 <= i < count ==> covers(
                flags_after(flags, followed, count)[followed[i].symbol.0 as int],
                (#[trigger] followed[i]).needed,
            ),
    decreases count,
{
    if count > 0 {
        lemma_flags_after(flags, followed, count - 1);
        let before = flags_after(flags, followed, count - 1);
        let after = flags_after(flags, followed, count);
        assert forall|i: int| 0 <= i < count implies covers(
            after[followed[i].symbol.0 as int],
            (#[trigger] followed[i]).needed,
        ) by {
            if i < count - 1 {
                assert(covers(before[followed[i].symbol.0 as int], followed[i].needed));
            }
        }
    }
}

proof fn lemma_flags_least(
    flags: Seq<ValueFlags>,
    followed: Seq<Reference>,
    count: int,
    id: int,
    bound: ValueFlags,
)
    requires
        0 <= count <= followed.len(),
        0 <= id < flags.len(),
        forall|i: int| 0 <= i < followed.len() ==> (#[trigger] followed[i]).symbol.0 < flags.len(),
        covers(bound, flags[id]),
        forall|i: int|
            0 <= i < count && (#[trigger] followed[i]).symbol.0 == id ==> covers(
                bound,
                followed[i].needed,
            ),
    ensures
        covers(bound, flags_after(flags, followed, count)[id]),
    decreases count,
{
    if count > 0 {
        lemma_flags_least(flags, followed, count - 1, id, bound);
        lemma_flags_after(flags, followed, count - 1);
        if followed[count - 1].symbol.0 == id {
            assert(covers(bound, followed[count - 1].needed));
        }
    }
}

/// A symbol that has become needed has been referred to.
proof fn lemma_needed_was_followed(
    flags: Seq<ValueFlags>,
    followed: Seq<Reference>,
    count: int,
    id: int,
)
    requires
        0 <= count <= followed.len(),
        0 <= id < flags.len(),
        forall|i: int| 0 <= i < followed.len() ==> (#[trigger] followed[i]).symbol.0 < flags.len(),
        !flags[id].spec_has_resolution(),
        flags_after(flags, followed, count)[id].spec_has_resolution(),
    ensures
        exists|i: int| 0 <= i < count && (#[trigger] followed[i]).symbol.0 == id,
    decreases count,
{
    if count > 0 {
        if followed[count - 1].symbol.0 != id {
            lemma_flags_after(flags, followed, count - 1);
            lemma_needed_was_followed(flags, followed, count - 1, id);
        }
    }
}

proof fn lemma_flags_prefix(
    flags: Seq<ValueFlags>,
    followed: Seq<Reference>,
    more: Reference,
    count: int,
)
    requires
        0 <= count <= followed.len(),
    ensures
        flags_after(flags, followed.push(more), count) == flags_after(flags, followed, count),
    decreases count,
{
    if count > 0 {
        lemma_flags_prefix(flags, followed, more, count - 1);
        assert(followed.push(more)[count - 1] == followed[count - 1]);
    }
}

/// The number of sections that are not loaded.
spec fn count_unloaded(loaded: Seq<bool>) -> nat
    decreases loaded.len(),
{
    if loaded.len() == 0 {
        0
    } else {
        count_unloaded(loaded.drop_last()) + if loaded.last() {
            0nat
        } else {
            1nat
        }
    }
}

proof fn lemma_count_unloaded(loaded: Seq<bool>, index: int)
    requires
        0 <= index < loaded.len(),
        !loaded[index],
    ensures
        count_unloaded(loaded.update(index, true)) < count_unloaded(loaded),
    decreases loaded.len(),
{
    let after = loaded.update(index, true);
    if index == loaded.len() - 1 {
        assert(after.drop_last() =~= loaded.drop_last());
    } else {
        assert(after.drop_last() =~= loaded.drop_last().update(index, true));
        lemma_count_unloaded(loaded.drop_last(), index);
    }
}

/// Whether a section is loaded or will be.
spec fn found(loaded: Seq<bool>, pending: Seq<usize>, section: int) -> bool {
    loaded[section] || pending.contains(section as usize)
}

/// What is known while references are followed.
spec fn in_progress(
    graph: &ReferenceGraph,
    root_sections: Seq<usize>,
    root_symbols: Seq<SymbolId>,
    flags: Seq<ValueFlags>,
    loaded: Seq<bool>,
    pending: Seq<usize>,
    requested: Seq<bool>,
    followed: Seq<Reference>,
) -> bool {
    &&& loaded.len() == graph.nodes@.len()
    &&& requested.len() == graph.symbol_sections@.len()
    &&& forall|i: int| 0 <= i < pending.len() ==> #[trigger] pending[i] < graph.nodes@.len()
    &&& forall|i: int|
        0 <= i < followed.len() ==> (#[trigger] followed[i]).symbol.0
            < graph.symbol_sections@.len()
    &&& forall|s: int|
        0 <= s < loaded.len() && #[trigger] found(loaded, pending, s) ==> graph.reachable(
            root_sections,
            root_symbols,
            flags,
            s,
        )
    &&& forall|s: int|
        0 <= s < loaded.len() && #[trigger] graph.is_root(root_sections, root_symbols, s) ==> found(
            loaded,
            pending,
            s,
        )
    &&& forall|i: int, s: int|
        #![trigger followed[i], found(loaded, pending, s)]
        0 <= i < followed.len() && 0 <= s < loaded.len()
            && !flags[followed[i].symbol.0 as int].spec_has_resolution() && graph.symbol_leads_to(
            followed[i].symbol.0 as int,
            s,
        ) ==> found(loaded, pending, s)
    &&& forall|id: int|
        #![trigger requested[id]]
        0 <= id < requested.len() ==> requested[id] == (was_asked(root_symbols, id) || (
        !flags[id].spec_has_resolution() && was_followed(followed, id)))
}

spec fn was_followed(followed: Seq<Reference>, id: int) -> bool {
    exists|i: int| 0 <= i < followed.len() && (#[trigger] followed[i]).symbol.0 == id
}

/// Whether a symbol is needed from the start.
pub open spec fn was_asked(root_symbols: Seq<SymbolId>, id: int) -> bool {
    exists|i: int| 0 <= i < root_symbols.len() && (#[trigger] root_symbols[i]).0 == id
}

/// Whether exactly the relocations of loaded sections have been followed.
spec fn follows_loaded(
    graph: &ReferenceGraph,
    loaded: Seq<bool>,
    followed: Seq<Reference>,
) -> bool {
    &&& forall|s: int, k: int|
        #![trigger graph.references@[s]@[k]]
        0 <= s < loaded.len() && loaded[s] && graph.nodes@[s] is Loadable && 0 <= k
            < graph.references@[s]@.len() ==> followed.contains(graph.references@[s]@[k])
    &&& forall|i: int|
        0 <= i < followed.len() ==> comes_from(graph, loaded, #[trigger] followed[i])
}

spec fn comes_from(graph: &ReferenceGraph, loaded: Seq<bool>, reference: Reference) -> bool {
    exists|s: int, k: int|
        0 <= s < loaded.len() && loaded[s] && graph.nodes@[s] is Loadable && 0 <= k
            < graph.references@[s]@.len() && #[trigger] graph.references@[s]@[k] == reference
}

/// A set of sections that holds the roots, and what each of its sections leads to, holds everything
/// that is reachable.
proof fn lemma_closed_holds_reachable(
    graph: &ReferenceGraph,
    root_sections: Seq<usize>,
    root_symbols: Seq<SymbolId>,
    flags: Seq<ValueFlags>,
    loaded: Seq<bool>,
    section: int,
    steps: nat,
)
    requires
        0 <= section < graph.nodes@.len(),
        loaded.len() == graph.nodes@.len(),
        forall|s: int|
            0 <= s < loaded.len() && #[trigger] graph.is_root(root_sections, root_symbols, s)
                ==> loaded[s],
        forall|from: int, to: int|
            0 <= from < loaded.len() && 0 <= to < loaded.len() && loaded[from]
                && #[trigger] graph.leads_to(flags, from, to) ==> loaded[to],
        graph.reached_in(root_sections, root_symbols, flags, section, steps),
    ensures
        loaded[section],
    decreases steps,
{
    if steps > 0 {
        let before = (steps - 1) as nat;
        if graph.reached_in(root_sections, root_symbols, flags, section, before) {
            lemma_closed_holds_reachable(
                graph,
                root_sections,
                root_symbols,
                flags,
                loaded,
                section,
                before,
            );
        } else {
            let from = choose|from: int|
                0 <= from < graph.nodes@.len() && graph.reached_in(
                    root_sections,
                    root_symbols,
                    flags,
                    from,
                    before,
                ) && #[trigger] graph.leads_to(flags, from, section);
            lemma_closed_holds_reachable(
                graph,
                root_sections,
                root_symbols,
                flags,
                loaded,
                from,
                before,
            );
        }
    }
}

/// What a reachable section leads to is reachable.
proof fn lemma_step_is_reachable(
    graph: &ReferenceGraph,
    root_sections: Seq<usize>,
    root_symbols: Seq<SymbolId>,
    flags: Seq<ValueFlags>,
    from: int,
    to: int,
)
    requires
        0 <= from < graph.nodes@.len(),
        graph.reachable(root_sections, root_symbols, flags, from),
        graph.leads_to(flags, from, to),
    ensures
        graph.reachable(root_sections, root_symbols, flags, to),
{
    let steps = choose|steps: nat|
        #[trigger] graph.reached_in(root_sections, root_symbols, flags, from, steps);
    assert(graph.reached_in(root_sections, root_symbols, flags, to, steps + 1));
}

/// Appends the sections that a symbol leads to.
fn ask_for_symbol(graph: &ReferenceGraph, symbol: SymbolId, pending: &mut Vec<usize>)
    requires
        symbol.0 < graph.symbol_sections@.len(),
    ensures
        final(pending)@ == old(pending)@ + graph.symbol_sections@[symbol.0 as int]@,
{
    let sections: &Vec<usize> = &graph.symbol_sections[symbol.as_usize()];
    let ghost before = pending@;
    let mut i: usize = 0;
    while i < sections.len()
        invariant
            i <= sections@.len(),
            pending@ == before + sections@.take(i as int),
        decreases sections@.len() - i,
    {
        pending.push(sections[i]);
        assert(sections@.take(i + 1) =~= sections@.take(i as int).push(sections@[i as int]));
        i = i + 1;
    }
    assert(sections@.take(sections@.len() as int) =~= sections@);
}

proof fn lemma_found_grows(
    loaded: Seq<bool>,
    pending: Seq<usize>,
    more: Seq<usize>,
    section: int,
)
    ensures
        found(loaded, pending, section) ==> found(loaded, pending + more, section),
        more.contains(section as usize) ==> found(loaded, pending + more, section),
        found(loaded, pending + more, section) ==> found(loaded, pending, section)
            || more.contains(section as usize),
{
    let all = pending + more;
    if pending.contains(section as usize) {
        let k = choose|k: int| 0 <= k < pending.len() && pending[k] == section as usize;
        assert(all[k] == section as usize);
    }
    if more.contains(section as usize) {
        let k = choose|k: int| 0 <= k < more.len() && more[k] == section as usize;
        assert(all[pending.len() + k] == section as usize);
    }
    if all.contains(section as usize) {
        let k = choose|k: int| 0 <= k < all.len() && all[k] == section as usize;
        if k < pending.len() {
            assert(pending[k] == section as usize);
        } else {
            assert(more[k - pending.len()] == section as usize);
        }
    }
}

/// One more reference of a loaded section has been followed: its symbol has been asked for, unless
/// that was done before.
proof fn lemma_reference_followed(
    graph: &ReferenceGraph,
    root_sections: Seq<usize>,
    root_symbols: Seq<SymbolId>,
    flags: Seq<ValueFlags>,
    loaded: Seq<bool>,
    pending: Seq<usize>,
    requested: Seq<bool>,
    followed: Seq<Reference>,
    section: int,
    k: int,
    asked: bool,
    pending_after: Seq<usize>,
    requested_after: Seq<bool>,
)
    requires
        graph.wf(),
        flags.len() == graph.symbol_sections@.len(),
        in_progress(
            graph,
            root_sections,
            root_symbols,
            flags,
            loaded,
            pending,
            requested,
            followed,
        ),
        0 <= section < loaded.len(),
        graph.reachable(root_sections, root_symbols, flags, section),
        graph.nodes@[section] is Loadable,
        0 <= k < graph.references@[section]@.len(),
        ({
            let id = graph.references@[section]@[k].symbol.0 as int;
            &&& asked == !flags_after(flags, followed, followed.len() as int)[id]
                .spec_has_resolution()
            &&& pending_after == if asked {
                pending + graph.symbol_sections@[id]@
            } else {
                pending
            }
            &&& requested_after == if asked {
                requested.update(id, true)
            } else {
                requested
            }
        }),
    ensures
        in_progress(
            graph,
            root_sections,
            root_symbols,
            flags,
            loaded,
            pending_after,
            requested_after,
            followed.push(graph.references@[section]@[k]),
        ),
{
    let reference = graph.references@[section]@[k];
    let id = reference.symbol.0 as int;
    let after = followed.push(reference);
    let more = if asked {
        graph.symbol_sections@[id]@
    } else {
        Seq::<usize>::empty()
    };
    assert(pending_after =~= pending + more);
    lemma_flags_after(flags, followed, followed.len() as int);
    if asked {
        assert(covers(flags_after(flags, followed, followed.len() as int)[id], flags[id]));
        assert(!flags[id].spec_has_resolution());
    } else if !flags[id].spec_has_resolution() {
        lemma_needed_was_followed(flags, followed, followed.len() as int, id);
    }
    assert(graph.refers_to(section, id));
    assert forall|i: int| 0 <= i < pending_after.len() implies #[trigger] pending_after[i]
        < graph.nodes@.len() by {
        if i >= pending.len() {
            assert(pending_after[i] == graph.symbol_sections@[id]@[i - pending.len()]);
        }
    }
    assert forall|s: int|
        0 <= s < loaded.len() && #[trigger] found(loaded, pending_after, s) implies graph.reachable(
        root_sections,
        root_symbols,
        flags,
        s,
    ) by {
        lemma_found_grows(loaded, pending, more, s);
        if !found(loaded, pending, s) {
            assert(graph.symbol_leads_to(id, s));
            assert(graph.leads_to(flags, section, s));
            lemma_step_is_reachable(graph, root_sections, root_symbols, flags, section, s);
        }
    }
    assert forall|s: int|
        0 <= s < loaded.len() && #[trigger] graph.is_root(
            root_sections,
            root_symbols,
            s,
        ) implies found(loaded, pending_after, s) by {
        assert(found(loaded, pending, s));
        lemma_found_grows(loaded, pending, more, s);
    }
    assert forall|i: int, s: int|
        #![trigger after[i], found(loaded, pending_after, s)]
        0 <= i < after.len() && 0 <= s < loaded.len()
            && !flags[after[i].symbol.0 as int].spec_has_resolution() && graph.symbol_leads_to(
            after[i].symbol.0 as int,
            s,
        ) implies found(loaded, pending_after, s) by {
        lemma_found_grows(loaded, pending, more, s);
        if i < followed.len() {
            assert(after[i] == followed[i]);
            assert(found(loaded, pending, s));
        } else if asked {
            assert(more.contains(s as usize));
        } else {
            let j = choose|j: int| 0 <= j < followed.len() && (#[trigger] followed[j]).symbol.0
                == id;
            assert(graph.symbol_leads_to(followed[j].symbol.0 as int, s));
            assert(found(loaded, pending, s));
        }
    }
    assert forall|other: int|
        #![trigger requested_after[other]]
        0 <= other < requested_after.len() implies requested_after[other] == (was_asked(
        root_symbols,
        other,
    ) || (!flags[other].spec_has_resolution() && was_followed(after, other))) by {
        if was_followed(followed, other) {
            let j = choose|j: int| 0 <= j < followed.len() && (#[trigger] followed[j]).symbol.0
                == other;
            assert(after[j].symbol.0 == other);
        }
        if was_followed(after, other) && other != id {
            let j = choose|j: int| 0 <= j < after.len() && (#[trigger] after[j]).symbol.0 == other;
            assert(followed[j].symbol.0 == other);
        }
        if other == id {
            assert(after[followed.len() as int].symbol.0 == id);
            assert(was_followed(after, id));
        }
        assert(requested[other] == (was_asked(root_symbols, other) || (
        !flags[other].spec_has_resolution() && was_followed(followed, other))));
    }
}

/// Follows the relocations of a section.
fn follow_references(
    graph: &ReferenceGraph,
    section: usize,
    traversal: &mut Traversal,
    pending: &mut Vec<usize>,
    Ghost(root_sections): Ghost<Seq<usize>>,
    Ghost(root_symbols): Ghost<Seq<SymbolId>>,
    Ghost(start): Ghost<Seq<ValueFlags>>,
    Ghost(followed): Ghost<Seq<Reference>>,
)
    requires
        graph.wf(),
        start.len() == graph.symbol_sections@.len(),
        section < graph.nodes@.len(),
        graph.nodes@[section as int] is Loadable,
        graph.reachable(root_sections, root_symbols, start, section as int),
        old(traversal).flags@ == flags_after(start, followed, followed.len() as int),
        in_progress(
            graph,
            root_sections,
            root_symbols,
            start,
            old(traversal).loaded@,
            old(pending)@,
            old(traversal).requested@,
            followed,
        ),
    ensures
        final(traversal).loaded@ == old(traversal).loaded@,
        ({
            let after = followed + graph.references@[section as int]@;
            &&& final(traversal).flags@ == flags_after(start, after, after.len() as int)
            &&& in_progress(
                graph,
                root_sections,
                root_symbols,
                start,
                final(traversal).loaded@,
                final(pending)@,
                final(traversal).requested@,
                after,
            )
        }),
{
    let references: &Vec<Reference> = &graph.references[section];
    let ghost mut log = followed;
    assert(followed + references@.take(0) =~= followed);
    let mut k: usize = 0;
    while k < references.len()
        invariant
            k <= references@.len(),
            references@ == graph.references@[section as int]@,
            graph.wf(),
            start.len() == graph.symbol_sections@.len(),
            section < graph.nodes@.len(),
            graph.nodes@[section as int] is Loadable,
            graph.reachable(root_sections, root_symbols, start, section as int),
            traversal.loaded@ == old(traversal).loaded@,
            log == followed + references@.take(k as int),
            traversal.flags@ == flags_after(start, log, log.len() as int),
            in_progress(
                graph,
                root_sections,
                root_symbols,
                start,
                traversal.loaded@,
                pending@,
                traversal.requested@,
                log,
            ),
        decreases references@.len() - k,
    {
        let reference: Reference = references[k];
        assert(graph.references@[section as int]@[k as int] == reference);
        let id: usize = reference.symbol.as_usize();
        proof {
            lemma_flags_after(start, log, log.len() as int);
        }
        let ghost pending_before = pending@;
        let ghost requested_before = traversal.requested@;
        let mut flags: ValueFlags = traversal.flags[id];
        let before: ValueFlags = flags.fetch_or(reference.needed);
        traversal.flags.set(id, flags);
        let asked: bool = !before.has_resolution();
        if asked {
            traversal.requested.set(id, true);
            ask_for_symbol(graph, reference.symbol, pending);
        }
        proof {
            lemma_reference_followed(
                graph,
                root_sections,
                root_symbols,
                start,
                traversal.loaded@,
                pending_before,
                requested_before,
                log,
                section as int,
                k as int,
                asked,
                pending@,
                traversal.requested@,
            );
            lemma_flags_prefix(start, log, reference, log.len() as int);
            assert(references@.take(k + 1) =~= references@.take(k as int).push(reference));
            log = log.push(reference);
            assert(log =~= followed + references@.take(k + 1));
        }
        k = k + 1;
    }
    assert(references@.take(references@.len() as int) =~= references@);
}

/// Marks sections and symbols that are needed from the start.
fn start_traversal(
    graph: &ReferenceGraph,
    root_sections: &Vec<usize>,
    root_symbols: &Vec<SymbolId>,
    flags: Vec<ValueFlags>,
) -> (started: (Traversal, Vec<usize>))
    requires
        graph.wf(),
        flags@.len() == graph.symbol_sections@.len(),
        forall|i: int|
            0 <= i < root_sections@.len() ==> #[trigger] root_sections@[i] < graph.nodes@.len(),
        forall|i: int|
            0 <= i < root_symbols@.len() ==> (#[trigger] root_symbols@[i]).0
                < graph.symbol_sections@.len(),
    ensures
        started.0.flags@ == flags@,
        forall|s: int| 0 <= s < started.0.loaded@.len() ==> !(#[trigger] started.0.loaded@[s]),
        in_progress(
            graph,
            root_sections@,
            root_symbols@,
            flags@,
            started.0.loaded@,
            started.1@,
            started.0.requested@,
            Seq::<Reference>::empty(),
        ),
{
    let mut loaded: Vec<bool> = Vec::new();
    let mut s: usize = 0;
    while s < graph.nodes.len()
        invariant
            s <= graph.nodes@.len(),
            loaded@.len() == s,
            forall|i: int| 0 <= i < s ==> !(#[trigger] loaded@[i]),
        decreases graph.nodes@.len() - s,
    {
        loaded.push(false);
        s = s + 1;
    }
    let mut requested: Vec<bool> = Vec::new();
    let mut id: usize = 0;
    while id < graph.symbol_sections.len()
        invariant
            id <= graph.symbol_sections@.len(),
            requested@.len() == id,
            forall|i: int| 0 <= i < id ==> !(#[trigger] requested@[i]),
        decreases graph.symbol_sections@.len() - id,
    {
        requested.push(false);
        id = id + 1;
    }
    let mut pending: Vec<usize> = Vec::new();
    let mut i: usize = 0;
    while i < root_sections.len()
        invariant
            i <= root_sections@.len(),
            pending@ == root_sections@.take(i as int),
        decreases root_sections@.len() - i,
    {
        pending.push(root_sections[i]);
        assert(root_sections@.take(i + 1) =~= root_sections@.take(i as int).push(
            root_sections@[i as int],
        ));
        i = i + 1;
    }
    assert(root_sections@.take(root_sections@.len() as int) =~= root_sections@);
    let ghost first = root_symbols@.take(0);
    assert(forall|s: int|
        #![trigger found(loaded@, pending@, s)]
        0 <= s < loaded@.len() ==> found(loaded@, pending@, s) == graph.is_root(
            root_sections@,
            first,
            s,
        ));
    let mut j: usize = 0;
    while j < root_symbols.len()
        invariant
            j <= root_symbols@.len(),
            graph.wf(),
            loaded@.len() == graph.nodes@.len(),
            requested@.len() == graph.symbol_sections@.len(),
            forall|i: int|
                0 <= i < root_symbols@.len() ==> (#[trigger] root_symbols@[i]).0
                    < graph.symbol_sections@.len(),
            forall|i: int| 0 <= i < pending@.len() ==> #[trigger] pending@[i] < graph.nodes@.len(),
            forall|s: int| 0 <= s < loaded@.len() ==> !(#[trigger] loaded@[s]),
            forall|s: int|
                #![trigger found(loaded@, pending@, s)]
                0 <= s < loaded@.len() ==> found(loaded@, pending@, s) == graph.is_root(
                    root_sections@,
                    root_symbols@.take(j as int),
                    s,
                ),
            forall|id: int|
                #![trigger requested@[id]]
                0 <= id < requested@.len() ==> requested@[id] == was_asked(
                    root_symbols@.take(j as int),
                    id,
                ),
        decreases root_symbols@.len() - j,
    {
        let symbol: SymbolId = root_symbols[j];
        let ghost before = pending@;
        let ghost requested_before = requested@;
        let ghost now = root_symbols@.take(j as int);
        let ghost next = root_symbols@.take(j + 1);
        requested.set(symbol.as_usize(), true);
        ask_for_symbol(graph, symbol, &mut pending);
        proof {
            let more = graph.symbol_sections@[symbol.0 as int]@;
            assert forall|i: int| 0 <= i < pending@.len() implies #[trigger] pending@[i]
                < graph.nodes@.len() by {
                if i >= before.len() {
                    assert(pending@[i] == graph.symbol_sections@[symbol.0 as int]@[i
                        - before.len()]);
                }
            }
            assert forall|s: int|
                #![trigger found(loaded@, pending@, s)]
                0 <= s < loaded@.len() implies found(loaded@, pending@, s) == graph.is_root(
                root_sections@,
                next,
                s,
            ) by {
                lemma_found_grows(loaded@, before, more, s);
                assert(found(loaded@, before, s) == graph.is_root(root_sections@, now, s));
                assert(next[j as int] == symbol);
                if more.contains(s as usize) {
                    assert(graph.symbol_leads_to(next[j as int].0 as int, s));
                }
                if graph.is_root(root_sections@, now, s) && !root_sections@.contains(s as usize) {
                    let k = choose|k: int|
                        0 <= k < now.len() && #[trigger] graph.symbol_leads_to(
                            now[k].0 as int,
                            s,
                        );
                    assert(next[k] == now[k]);
                    assert(graph.symbol_leads_to(next[k].0 as int, s));
                }
                if graph.is_root(root_sections@, next, s) && !root_sections@.contains(s as usize) {
                    let k = choose|k: int|
                        0 <= k < next.len() && #[trigger] graph.symbol_leads_to(
                            next[k].0 as int,
                            s,
                        );
                    if k < j {
                        assert(next[k] == now[k]);
                        assert(graph.symbol_leads_to(now[k].0 as int, s));
                    }
                }
            }
            assert forall|id: int|
                #![trigger requested@[id]]
                0 <= id < requested@.len() implies requested@[id] == was_asked(next, id) by {
                assert(requested_before[id] == was_asked(now, id));
                assert(next[j as int] == symbol);
                if was_asked(now, id) {
                    let k = choose|k: int| 0 <= k < now.len() && (#[trigger] now[k]).0 == id;
                    assert(next[k] == now[k]);
                }
                if was_asked(next, id) {
                    let k = choose|k: int| 0 <= k < next.len() && (#[trigger] next[k]).0 == id;
                    if k < j {
                        assert(now[k].0 == id);
                    }
                }
            }
        }
        j = j + 1;
    }
    assert(root_symbols@.take(root_symbols@.len() as int) =~= root_symbols@);
    proof {
        assert forall|s: int|
            0 <= s < loaded@.len() && #[trigger] found(loaded@, pending@, s) implies graph.reachable(
            root_sections@,
            root_symbols@,
            flags@,
            s,
        ) by {
            assert(graph.reached_in(root_sections@, root_symbols@, flags@, s, 0));
        }
        assert forall|s: int|
            0 <= s < loaded@.len() && #[trigger] graph.is_root(
                root_sections@,
                root_symbols@,
                s,
            ) implies found(loaded@, pending@, s) by {
        }
    }
    (Traversal { loaded, requested, flags }, pending)
}

/// Whether a traversal is complete: exactly the sections that are reached by references are loaded,
/// a symbol has been asked for if it was needed from the start or a loaded section refers to it, and
/// its flags are what it had and what the relocations of loaded sections need, and no more.
pub open spec fn traversed(
    graph: &ReferenceGraph,
    root_sections: Seq<usize>,
    root_symbols: Seq<SymbolId>,
    flags: Seq<ValueFlags>,
    traversal: &Traversal,
) -> bool {
    &&& traversal.loaded@.len() == graph.nodes@.len()
    &&& traversal.requested@.len() == flags.len()
    &&& traversal.flags@.len() == flags.len()
    &&& forall|s: int|
        0 <= s < graph.nodes@.len() ==> #[trigger] traversal.loaded@[s] == graph.reachable(
            root_sections,
            root_symbols,
            flags,
            s,
        )
    &&& forall|id: int|
        0 <= id < flags.len() ==> #[trigger] traversal.requested@[id] == (was_asked(
            root_symbols,
            id,
        ) || (!flags[id].spec_has_resolution() && exists|s: int|
            0 <= s < graph.nodes@.len() && traversal.loaded@[s] && #[trigger] graph.refers_to(
                s,
                id,
            )))
    &&& forall|id: int|
        0 <= id < flags.len() ==> covers(#[trigger] traversal.flags@[id], flags[id])
    &&& forall|s: int, k: int|
        #![trigger graph.references@[s]@[k]]
        0 <= s < graph.nodes@.len() && traversal.loaded@[s] && graph.nodes@[s] is Loadable && 0
            <= k < graph.references@[s]@.len() ==> covers(
            traversal.flags@[graph.references@[s]@[k].symbol.0 as int],
            graph.references@[s]@[k].needed,
        )
    &&& forall|id: int, bound: ValueFlags|
        #![trigger covers(bound, traversal.flags@[id])]
        0 <= id < flags.len() && covers(bound, flags[id]) && bounds_needs(
            graph,
            traversal.loaded@,
            id,
            bound,
        ) ==> covers(bound, traversal.flags@[id])
}

/// Whether flags hold at least what the relocations of loaded sections need of a symbol.
pub open spec fn bounds_needs(
    graph: &ReferenceGraph,
    loaded: Seq<bool>,
    id: int,
    bound: ValueFlags,
) -> bool {
    forall|s: int, k: int|
        #![trigger graph.references@[s]@[k]]
        0 <= s < graph.nodes@.len() && loaded[s] && graph.nodes@[s] is Loadable && 0 <= k
            < graph.references@[s]@.len() && graph.references@[s]@[k].symbol.0 == id ==> covers(
            bound,
            graph.references@[s]@[k].needed,
        )
}

proof fn lemma_traversed(
    graph: &ReferenceGraph,
    root_sections: Seq<usize>,
    root_symbols: Seq<SymbolId>,
    flags: Seq<ValueFlags>,
    traversal: &Traversal,
    followed: Seq<Reference>,
)
    requires
        graph.wf(),
        flags.len() == graph.symbol_sections@.len(),
        traversal.flags@ == flags_after(flags, followed, followed.len() as int),
        follows_loaded(graph, traversal.loaded@, followed),
        in_progress(
            graph,
            root_sections,
            root_symbols,
            flags,
            traversal.loaded@,
            Seq::<usize>::empty(),
            traversal.requested@,
            followed,
        ),
    ensures
        traversed(graph, root_sections, root_symbols, flags, traversal),
{
    let loaded = traversal.loaded@;
    let nothing = Seq::<usize>::empty();
    lemma_flags_after(flags, followed, followed.len() as int);
    assert forall|from: int, to: int|
        0 <= from < loaded.len() && 0 <= to < loaded.len() && loaded[from]
            && #[trigger] graph.leads_to(flags, from, to) implies loaded[to] by {
        let symbol = choose|symbol: int|
            0 <= symbol < graph.symbol_sections@.len() && graph.refers_to(from, symbol)
                && !flags[symbol].spec_has_resolution() && #[trigger] graph.symbol_leads_to(
                symbol,
                to,
            );
        let k = choose|k: int|
            0 <= k < graph.references@[from]@.len() && (
            #[trigger] graph.references@[from]@[k]).symbol.0 == symbol;
        let reference = graph.references@[from]@[k];
        assert(followed.contains(reference));
        let i = choose|i: int| 0 <= i < followed.len() && followed[i] == reference;
        assert(graph.symbol_leads_to(followed[i].symbol.0 as int, to));
        assert(found(loaded, nothing, to));
    }
    assert forall|s: int| 0 <= s < loaded.len() && graph.is_root(root_sections, root_symbols, s)
        implies loaded[s] by {
        assert(found(loaded, nothing, s));
    }
    assert forall|s: int| 0 <= s < graph.nodes@.len() implies #[trigger] loaded[s]
        == graph.reachable(root_sections, root_symbols, flags, s) by {
        if loaded[s] {
            assert(found(loaded, nothing, s));
        }
        if graph.reachable(root_sections, root_symbols, flags, s) {
            let steps = choose|steps: nat|
                #[trigger] graph.reached_in(root_sections, root_symbols, flags, s, steps);
            lemma_closed_holds_reachable(
                graph,
                root_sections,
                root_symbols,
                flags,
                loaded,
                s,
                steps,
            );
        }
    }
    assert forall|id: int| 0 <= id < flags.len() implies #[trigger] traversal.requested@[id] == (
    was_asked(root_symbols, id) || (!flags[id].spec_has_resolution() && exists|s: int|
        0 <= s < graph.nodes@.len() && traversal.loaded@[s] && #[trigger] graph.refers_to(
            s,
            id,
        ))) by {
        if was_followed(followed, id) {
            let i = choose|i: int| 0 <= i < followed.len() && (#[trigger] followed[i]).symbol.0
                == id;
            assert(comes_from(graph, loaded, followed[i]));
            let (s, k) = choose|s: int, k: int|
                0 <= s < loaded.len() && loaded[s] && graph.nodes@[s] is Loadable && 0 <= k
                    < graph.references@[s]@.len() && #[trigger] graph.references@[s]@[k]
                    == followed[i];
            assert(graph.refers_to(s, id));
        }
        if exists|s: int|
            0 <= s < graph.nodes@.len() && traversal.loaded@[s] && #[trigger] graph.refers_to(
                s,
                id,
            ) {
            let s = choose|s: int|
                0 <= s < graph.nodes@.len() && traversal.loaded@[s] && #[trigger] graph.refers_to(
                    s,
                    id,
                );
            let k = choose|k: int|
                0 <= k < graph.references@[s]@.len() && (
                #[trigger] graph.references@[s]@[k]).symbol.0 == id;
            assert(followed.contains(graph.references@[s]@[k]));
            let i = choose|i: int|
                0 <= i < followed.len() && followed[i] == graph.references@[s]@[k];
            assert(followed[i].symbol.0 == id);
        }
    }
    assert forall|s: int, k: int|
        #![trigger graph.references@[s]@[k]]
        0 <= s < graph.nodes@.len() && loaded[s] && graph.nodes@[s] is Loadable && 0 <= k
            < graph.references@[s]@.len() implies covers(
        traversal.flags@[graph.references@[s]@[k].symbol.0 as int],
        graph.references@[s]@[k].needed,
    ) by {
        assert(followed.contains(graph.references@[s]@[k]));
        let i = choose|i: int| 0 <= i < followed.len() && followed[i] == graph.references@[s]@[k];
        assert(covers(traversal.flags@[followed[i].symbol.0 as int], followed[i].needed));
    }
    assert forall|id: int, bound: ValueFlags|
        #![trigger covers(bound, traversal.flags@[id])]
        0 <= id < flags.len() && covers(bound, flags[id]) && bounds_needs(
            graph,
            loaded,
            id,
            bound,
        ) implies covers(bound, traversal.flags@[id]) by {
        assert forall|i: int|
            0 <= i < followed.len() && (#[trigger] followed[i]).symbol.0 == id implies covers(
            bound,
            followed[i].needed,
        ) by {
            assert(comes_from(graph, loaded, followed[i]));
            let (s, k) = choose|s: int, k: int|
                0 <= s < loaded.len() && loaded[s] && graph.nodes@[s] is Loadable && 0 <= k
                    < graph.references@[s]@.len() && #[trigger] graph.references@[s]@[k]
                    == followed[i];
            assert(covers(bound, graph.references@[s]@[k].needed));
        }
        lemma_flags_least(flags, followed, followed.len() as int, id, bound);
    }
}

/// A section has been taken off what is pending and is loaded.
proof fn lemma_section_loaded(
    graph: &ReferenceGraph,
    root_sections: Seq<usize>,
    root_symbols: Seq<SymbolId>,
    flags: Seq<ValueFlags>,
    loaded: Seq<bool>,
    pending: Seq<usize>,
    requested: Seq<bool>,
    followed: Seq<Reference>,
)
    requires
        pending.len() > 0,
        in_progress(
            graph,
            root_sections,
            root_symbols,
            flags,
            loaded,
            pending,
            requested,
            followed,
        ),
    ensures
        in_progress(
            graph,
            root_sections,
            root_symbols,
            flags,
            loaded.update(pending.last() as int, true),
            pending.drop_last(),
            requested,
            followed,
        ),
        graph.reachable(root_sections, root_symbols, flags, pending.last() as int),
{
    let section = pending.last() as int;
    assert(graph.nodes.len() == graph.nodes@.len());
    let after = loaded.update(section, true);
    let rest = pending.drop_last();
    assert(pending[pending.len() - 1] == section);
    assert(pending.contains(section as usize));
    assert(found(loaded, pending, section));
    assert forall|s: int| 0 <= s < loaded.len() implies #[trigger] found(after, rest, s) == found(
        loaded,
        pending,
        s,
    ) by {
        if pending.contains(s as usize) && s != section {
            let k = choose|k: int| 0 <= k < pending.len() && pending[k] == s as usize;
            assert(rest[k] == s as usize);
        }
        if rest.contains(s as usize) {
            let k = choose|k: int| 0 <= k < rest.len() && rest[k] == s as usize;
            assert(pending[k] == s as usize);
        }
    }
    assert forall|i: int| 0 <= i < rest.len() implies #[trigger] rest[i] < graph.nodes@.len() by {
        assert(rest[i] == pending[i]);
    }
    assert forall|s: int|
        0 <= s < after.len() && #[trigger] graph.is_root(
            root_sections,
            root_symbols,
            s,
        ) implies found(after, rest, s) by {
        assert(found(loaded, pending, s));
    }
    assert forall|i: int, s: int|
        #![trigger followed[i], found(after, rest, s)]
        0 <= i < followed.len() && 0 <= s < after.len()
            && !flags[followed[i].symbol.0 as int].spec_has_resolution() && graph.symbol_leads_to(
            followed[i].symbol.0 as int,
            s,
        ) implies found(after, rest, s) by {
        assert(found(loaded, pending, s));
    }
}

/// Follows references from what is needed from the start. This is where what is not used is left
/// out of the output. Fails if a section is reached that has no place in the output, and returns
/// such a section.
pub fn traverse_reference_graph(
    graph: &ReferenceGraph,
    root_sections: &Vec<usize>,
    root_symbols: &Vec<SymbolId>,
    flags: Vec<ValueFlags>,
) -> (result: Result<Traversal, usize>)
    requires
        graph.wf(),
        flags@.len() == graph.symbol_sections@.len(),
        forall|i: int|
            0 <= i < root_sections@.len() ==> #[trigger] root_sections@[i] < graph.nodes@.len(),
        forall|i: int|
            0 <= i < root_symbols@.len() ==> (#[trigger] root_symbols@[i]).0
                < graph.symbol_sections@.len(),
    ensures
        match result {
            Ok(traversal) => {
                &&& traversed(graph, root_sections@, root_symbols@, flags@, &traversal)
                &&& forall|s: int|
                    0 <= s < graph.nodes@.len() && #[trigger] graph.nodes@[s] is Discarded
                        ==> !graph.reachable(root_sections@, root_symbols@, flags@, s)
            },
            Err(section) => {
                &&& section < graph.nodes@.len()
                &&& graph.nodes@[section as int] is Discarded
                &&& graph.reachable(root_sections@, root_symbols@, flags@, section as int)
            },
        },
{
    let ghost start = flags@;
    let started: (Traversal, Vec<usize>) = start_traversal(
        graph,
        root_sections,
        root_symbols,
        flags,
    );
    let mut traversal: Traversal = started.0;
    let mut pending: Vec<usize> = started.1;
    let ghost mut followed = Seq::<Reference>::empty();
    while pending.len() > 0
        invariant
            graph.wf(),
            start == flags@,
            start.len() == graph.symbol_sections@.len(),
            traversal.flags@ == flags_after(start, followed, followed.len() as int),
            follows_loaded(graph, traversal.loaded@, followed),
            forall|s: int|
                0 <= s < traversal.loaded@.len() && #[trigger] traversal.loaded@[s]
                    ==> !(graph.nodes@[s] is Discarded),
            in_progress(
                graph,
                root_sections@,
                root_symbols@,
                start,
                traversal.loaded@,
                pending@,
                traversal.requested@,
                followed,
            ),
        decreases count_unloaded(traversal.loaded@), pending@.len(),
    {
        proof {
            lemma_section_loaded(
                graph,
                root_sections@,
                root_symbols@,
                start,
                traversal.loaded@,
                pending@,
                traversal.requested@,
                followed,
            );
            assert(pending@[pending@.len() - 1] < graph.nodes@.len());
        }
        let section: usize = pending[pending.len() - 1];
        pending.pop();
        if traversal.loaded[section] {
            assert(traversal.loaded@.update(section as int, true) =~= traversal.loaded@);
            continue ;
        }
        let node: SectionNode = graph.nodes[section];
        match node {
            SectionNode::Discarded => {
                return Err(section);
            },
            _ => {},
        }
        proof {
            lemma_count_unloaded(traversal.loaded@, section as int);
        }
        let ghost loaded_before = traversal.loaded@;
        let ghost followed_before = followed;
        traversal.loaded.set(section, true);
        let follow: bool = match node {
            SectionNode::Loadable => true,
            _ => false,
        };
        if follow {
            follow_references(
                graph,
                section,
                &mut traversal,
                &mut pending,
                Ghost(root_sections@),
                Ghost(root_symbols@),
                Ghost(start),
                Ghost(followed),
            );
            proof {
                followed = followed + graph.references@[section as int]@;
            }
        }
        proof {
            let loaded = traversal.loaded@;
            let references = graph.references@[section as int]@;
            assert forall|s: int, k: int|
                #![trigger graph.references@[s]@[k]]
                0 <= s < loaded.len() && loaded[s] && graph.nodes@[s] is Loadable && 0 <= k
                    < graph.references@[s]@.len() implies followed.contains(
                graph.references@[s]@[k],
            ) by {
                if s == section {
                    assert(followed[followed_before.len() + k] == references[k]);
                } else {
                    assert(loaded_before[s]);
                    assert(followed_before.contains(graph.references@[s]@[k]));
                    let i = choose|i: int|
                        0 <= i < followed_before.len() && followed_before[i]
                            == graph.references@[s]@[k];
                    assert(followed[i] == graph.references@[s]@[k]);
                }
            }
            assert forall|i: int| 0 <= i < followed.len() implies comes_from(
                graph,
                loaded,
                #[trigger] followed[i],
            ) by {
                if i < followed_before.len() {
                    assert(comes_from(graph, loaded_before, followed_before[i]));
                    let (s, k) = choose|s: int, k: int|
                        0 <= s < loaded_before.len() && loaded_before[s]
                            && graph.nodes@[s] is Loadable && 0 <= k
                            < graph.references@[s]@.len() && #[trigger] graph.references@[s]@[k]
                            == followed_before[i];
                    assert(loaded[s]);
                    assert(graph.references@[s]@[k] == followed[i]);
                } else {
                    assert(graph.references@[section as int]@[i - followed_before.len()]
                        == followed[i]);
                }
            }
        }
    }
    proof {
        assert(pending@ =~= Seq::<usize>::empty());
        lemma_traversed(
            graph,
            root_sections@,
            root_symbols@,
            start,
            &traversal,
            followed,
        );
    }
    Ok(traversal)
}

/// Without anything that is needed from the start, nothing is loaded.
pub proof fn lemma_nothing_needed_nothing_loaded(
    graph: &ReferenceGraph,
    flags: Seq<ValueFlags>,
    section: int,
)
    requires
        0 <= section < graph.nodes@.len(),
    ensures
        !graph.reachable(Seq::<usize>::empty(), Seq::<SymbolId>::empty(), flags, section),
{
    let no_sections = Seq::<usize>::empty();
    let no_symbols = Seq::<SymbolId>::empty();
    let loaded = Seq::new(graph.nodes@.len(), |s: int| false);
    if graph.reachable(no_sections, no_symbols, flags, section) {
        let steps = choose|steps: nat|
            #[trigger] graph.reached_in(no_sections, no_symbols, flags, section, steps);
        lemma_closed_holds_reachable(
            graph,
            no_sections,
            no_symbols,
            flags,
            loaded,
            section,
            steps,
        );
    }
}

/// What a loaded section refers to is loaded, so every relocation of the output finds its section.
pub proof fn lemma_references_are_loaded(
    graph: &ReferenceGraph,
    root_sections: Seq<usize>,
    root_symbols: Seq<SymbolId>,
    flags: Seq<ValueFlags>,
    traversal: &Traversal,
    section: int,
    reference: int,
    target: int,
)
    requires
        graph.wf(),
        flags.len() == graph.symbol_sections@.len(),
        traversed(graph, root_sections, root_symbols, flags, traversal),
        0 <= section < graph.nodes@.len(),
        traversal.loaded@[section],
        graph.nodes@[section] is Loadable,
        0 <= reference < graph.references@[section]@.len(),
        0 <= target < graph.nodes@.len(),
        graph.symbol_leads_to(graph.references@[section]@[reference].symbol.0 as int, target),
        !flags[graph.references@[section]@[reference].symbol.0 as int].spec_has_resolution()
            || was_asked(root_symbols, graph.references@[section]@[reference].symbol.0 as int),
    ensures
        traversal.loaded@[target],
{
    let id = graph.references@[section]@[reference].symbol.0 as int;
    if was_asked(root_symbols, id) {
        let i = choose|i: int| 0 <= i < root_symbols.len() && (#[trigger] root_symbols[i]).0 == id;
        assert(graph.symbol_leads_to(root_symbols[i].0 as int, target));
        assert(graph.reached_in(root_sections, root_symbols, flags, target, 0));
    } else {
        assert(graph.refers_to(section, id));
        assert(graph.leads_to(flags, section, target));
        lemma_step_is_reachable(graph, root_sections, root_symbols, flags, section, target);
    }
}

} // verus!
