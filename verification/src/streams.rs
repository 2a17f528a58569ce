//! The four streams that a view tree is lowered into.
//!
//! The streams name a widget by its number in the tree, and a property or an
//! event by its number among the tree's properties or events, so that one
//! widget has one identifier in all of them.

use vstd::prelude::*;
use crate::view::{EventBinding, PropertyAssignment, Reactivity, ViewTree, WidgetNode};

verus! {

/// One step of building the widgets.
#[derive(Clone, Copy, Debug, PartialEq, Eq, Structural)]
pub enum Construction {
    /// Constructs `widget` from its native type.
    Build { widget: usize },
    /// Attaches the built `child` to `parent` as its child number `position`.
    Attach { parent: usize, child: usize, position: usize },
    /// Takes `widget` from what the container handed back for `parent`.
    Receive { widget: usize, parent: usize },
}

/// Applies the property number `property` to `widget`.
#[derive(Clone, Copy, Debug, PartialEq, Eq, Structural)]
pub struct Assignment {
    pub widget: usize,
    pub property: usize,
}

/// Registers the handler of the event number `event` on `widget`, with the
/// captures that the event declares.
#[derive(Clone, Copy, Debug, PartialEq, Eq, Structural)]
pub struct Connection {
    pub widget: usize,
    pub event: usize,
}

/// Applies the property number `property` to `widget` again: always where
/// `guarded` is false, and only on a changed discriminant where it is true.
#[derive(Clone, Copy, Debug, PartialEq, Eq, Structural)]
pub struct Update {
    pub widget: usize,
    pub property: usize,
    pub guarded: bool,
}

/// The four streams of one view.
#[derive(Debug)]
pub struct TokenStreams {
    /// Construction: every widget, the root first.
    pub init: Vec<Construction>,
    /// Initial assignment: every property, once.
    pub assign: Vec<Assignment>,
    /// Connection: every event binding.
    pub connect: Vec<Connection>,
    /// Update: the properties that are applied again on a model update.
    pub update_view: Vec<Update>,
}

/// The number of built widgets among the first `n` of `nodes` whose parent is
/// `parent`.
pub open spec fn children_before(nodes: Seq<WidgetNode>, parent: usize, n: int) -> nat
    decreases n,
{
    if n <= 0 {
        0
    } else {
        let before = children_before(nodes, parent, n - 1);
        if nodes[n - 1].parent == Some(parent) && !nodes[n - 1].returned {
            before + 1
        } else {
            before
        }
    }
}

/// The construction steps of the widget number `i`: a returned widget is
/// received from its parent; any other widget is built and, where it has a
/// parent, attached behind the children that the parent already has.
pub open spec fn construction_steps(nodes: Seq<WidgetNode>, i: int) -> Seq<Construction> {
    match nodes[i].parent {
        Some(parent) => if nodes[i].returned {
            seq![Construction::Receive { widget: i as usize, parent }]
        } else {
            seq![
                Construction::Build { widget: i as usize },
                Construction::Attach {
                    parent,
                    child: i as usize,
                    position: children_before(nodes, parent, i) as usize,
                },
            ]
        },
        None => seq![Construction::Build { widget: i as usize }],
    }
}

/// The construction stream of the first `n` widgets.
pub open spec fn construction_upto(nodes: Seq<WidgetNode>, n: int) -> Seq<Construction>
    decreases n,
{
    if n <= 0 {
        Seq::empty()
    } else {
        construction_upto(nodes, n - 1) + construction_steps(nodes, n - 1)
    }
}

/// The construction stream: the steps of every widget, in the order of the
/// tree.
pub open spec fn construction_of(nodes: Seq<WidgetNode>) -> Seq<Construction> {
    construction_upto(nodes, nodes.len() as int)
}

/// The initial-assignment stream: one assignment for each property, in the
/// order declared.
pub open spec fn assignment_of(properties: Seq<PropertyAssignment>) -> Seq<Assignment> {
    Seq::new(
        properties.len(),
        |k: int| Assignment { widget: properties[k].target, property: k as usize },
    )
}

/// The connection stream: one connection for each event binding, in the order
/// declared.
pub open spec fn connection_of(events: Seq<EventBinding>) -> Seq<Connection> {
    Seq::new(events.len(), |k: int| Connection { widget: events[k].target, event: k as usize })
}

/// The update stream of the first `n` properties.
pub open spec fn update_upto(properties: Seq<PropertyAssignment>, n: int) -> Seq<Update>
    decreases n,
{
    if n <= 0 {
        Seq::empty()
    } else {
        let before = update_upto(properties, n - 1);
        match properties[n - 1].class {
            Reactivity::Static => before,
            Reactivity::Watched => before.push(
                Update {
                    widget: properties[n - 1].target,
                    property: (n - 1) as usize,
                    guarded: false,
                },
            ),
            Reactivity::ConditionalStream => before.push(
                Update {
                    widget: properties[n - 1].target,
                    property: (n - 1) as usize,
                    guarded: true,
                },
            ),
        }
    }
}

/// The update stream: the properties that are not static, in the order
/// declared; those of a conditional stream are guarded.
pub open spec fn update_of(properties: Seq<PropertyAssignment>) -> Seq<Update> {
    update_upto(properties, properties.len() as int)
}

/// Whether `step` introduces `widget`, by building or receiving it.
pub open spec fn brings(step: Construction, widget: usize) -> bool {
    step == (Construction::Build { widget }) || (step matches Construction::Receive {
        widget: w,
        ..
    } && w == widget)
}

/// Whether `stream` introduces `widget`.
pub open spec fn introduces(stream: Seq<Construction>, widget: usize) -> bool {
    exists|j: int| 0 <= j < stream.len() && brings(#[trigger] stream[j], widget)
}

/// A parent has at most as many children among the first `n` widgets as there
/// are widgets.
pub proof fn lemma_children_bounded(nodes: Seq<WidgetNode>, parent: usize, n: int)
    requires
        0 <= n,
    ensures
        children_before(nodes, parent, n) <= n,
    decreases n,
{
    if n > 0 {
        lemma_children_bounded(nodes, parent, n - 1);
    }
}

impl TokenStreams {
    /// The streams are those of `tree`.
    pub open spec fn lowers(&self, tree: ViewTree) -> bool {
        &&& self.init@ == construction_of(tree.nodes())
        &&& self.assign@ == assignment_of(tree.properties())
        &&& self.connect@ == connection_of(tree.events())
        &&& self.update_view@ == update_of(tree.properties())
    }
}

/// Lowers `tree` into its four streams.
pub fn generate_streams(tree: &ViewTree) -> (streams: TokenStreams)
    requires
        tree.wf(),
    ensures
        streams.lowers(*tree),
{
    let nodes = tree.widgets();
    let properties = tree.assignments();
    let events = tree.bindings();

    let mut counts: Vec<usize> = Vec::new();
    let mut c: usize = 0;
    while c < nodes.len()
        invariant
            c <= nodes.len(),
            counts.len() == c,
            forall|p: int| 0 <= p < c ==> counts[p] == 0,
        decreases nodes.len() - c,
    {
        counts.push(0);
        c += 1;
    }

    let mut init: Vec<Construction> = Vec::new();
    let mut i: usize = 0;
    while i < nodes.len()
        invariant
            nodes@ == tree.nodes(),
            tree.wf(),
            i <= nodes.len(),
            counts.len() == nodes.len(),
            forall|p: int|
                0 <= p < nodes.len() ==> #[trigger] counts[p] == children_before(
                    nodes@,
                    p as usize,
                    i as int,
                ),
            init@ == construction_upto(nodes@, i as int),
        decreases nodes.len() - i,
    {
        let ghost made = init@;
        match nodes[i].parent {
            Some(parent) => {
                assert(i > 0);
                assert(parent < i);
                if nodes[i].returned {
                    init.push(Construction::Receive { widget: i, parent });
                    assert(init@ =~= made + construction_steps(nodes@, i as int));
                } else {
                    let position: usize = counts[parent];
                    proof {
                        lemma_children_bounded(nodes@, parent, i as int);
                    }
                    init.push(Construction::Build { widget: i });
                    init.push(Construction::Attach { parent, child: i, position });
                    counts.set(parent, position + 1);
                    assert(init@ =~= made + construction_steps(nodes@, i as int));
                }
            },
            None => {
                init.push(Construction::Build { widget: i });
                assert(init@ =~= made + construction_steps(nodes@, i as int));
            },
        }
        i += 1;
    }

    let mut assign: Vec<Assignment> = Vec::new();
    let mut update_view: Vec<Update> = Vec::new();
    let mut k: usize = 0;
    while k < properties.len()
        invariant
            k <= properties.len(),
            assign.len() == k,
            forall|j: int|
                0 <= j < k ==> assign[j] == (Assignment {
                    widget: properties[j].target,
                    property: j as usize,
                }),
            update_view@ == update_upto(properties@, k as int),
        decreases properties.len() - k,
    {
        let widget: usize = properties[k].target;
        assign.push(Assignment { widget, property: k });
        match properties[k].class {
            Reactivity::Static => {},
            Reactivity::Watched => {
                update_view.push(Update { widget, property: k, guarded: false });
            },
            Reactivity::ConditionalStream => {
                update_view.push(Update { widget, property: k, guarded: true });
            },
        }
        k += 1;
    }
    assert(assign@ =~= assignment_of(properties@));

    let mut connect: Vec<Connection> = Vec::new();
    let mut e: usize = 0;
    while e < events.len()
        invariant
            e <= events.len(),
            connect.len() == e,
            forall|j: int|
                0 <= j < e ==> connect[j] == (Connection {
                    widget: events[j].target,
                    event: j as usize,
                }),
        decreases events.len() - e,
    {
        connect.push(Connection { widget: events[e].target, event: e });
        e += 1;
    }
    assert(connect@ =~= connection_of(events@));

    TokenStreams { init, assign, connect, update_view }
}

/// The construction stream of the first `n` widgets introduces each of
/// them.
pub proof fn lemma_construction_introduces(nodes: Seq<WidgetNode>, n: int, widget: usize)
    requires
        0 <= widget < n <= nodes.len(),
    ensures
        introduces(construction_upto(nodes, n), widget),
    decreases n,
{
    let before = construction_upto(nodes, n - 1);
    let steps = construction_steps(nodes, n - 1);
    let stream = construction_upto(nodes, n);
    if widget < n - 1 {
        lemma_construction_introduces(nodes, n - 1, widget);
        let j = choose|j: int| 0 <= j < before.len() && brings(#[trigger] before[j], widget);
        assert(stream[j] == before[j]);
    } else {
        assert(stream[before.len() as int] == steps[0]);
    }
}

/// Each entry of the update stream of the first `n` properties stands for
/// one of them that is not static, names that property's widget, and is
/// guarded exactly where the property is a conditional stream.
pub proof fn lemma_update_entries(properties: Seq<PropertyAssignment>, n: int, k: int)
    requires
        0 <= n <= properties.len() <= usize::MAX,
        0 <= k < update_upto(properties, n).len(),
    ensures
        ({
            let entry = update_upto(properties, n)[k];
            &&& entry.property < n
            &&& entry.widget == properties[entry.property as int].target
            &&& properties[entry.property as int].class != Reactivity::Static
            &&& entry.guarded == (properties[entry.property as int].class
                == Reactivity::ConditionalStream)
        }),
    decreases n,
{
    if n > 0 {
        let before = update_upto(properties, n - 1);
        if k < before.len() {
            lemma_update_entries(properties, n - 1, k);
        }
    }
}

/// Referential consistency. Every widget that the update stream, the
/// initial-assignment stream or the connection stream of a view tree names is
/// introduced by the tree's construction stream.
pub proof fn law_referential_consistency(tree: ViewTree)
    requires
        tree.wf(),
    ensures
        forall|k: int|
            0 <= k < update_of(tree.properties()).len() ==> introduces(
                construction_of(tree.nodes()),
                (#[trigger] update_of(tree.properties())[k]).widget,
            ),
        forall|k: int|
            0 <= k < assignment_of(tree.properties()).len() ==> introduces(
                construction_of(tree.nodes()),
                (#[trigger] assignment_of(tree.properties())[k]).widget,
            ),
        forall|k: int|
            0 <= k < connection_of(tree.events()).len() ==> introduces(
                construction_of(tree.nodes()),
                (#[trigger] connection_of(tree.events())[k]).widget,
            ),
{
    let nodes = tree.nodes();
    let properties = tree.properties();
    let events = tree.events();
    assert forall|k: int| 0 <= k < update_of(properties).len() implies introduces(
        construction_of(nodes),
        (#[trigger] update_of(properties)[k]).widget,
    ) by {
        lemma_update_entries(properties, properties.len() as int, k);
        let entry = update_of(properties)[k];
        assert(properties[entry.property as int].target < nodes.len());
        lemma_construction_introduces(nodes, nodes.len() as int, entry.widget);
    }
    assert forall|k: int| 0 <= k < assignment_of(properties).len() implies introduces(
        construction_of(nodes),
        (#[trigger] assignment_of(properties)[k]).widget,
    ) by {
        assert(properties[k].target < nodes.len());
        lemma_construction_introduces(nodes, nodes.len() as int, properties[k].target);
    }
    assert forall|k: int| 0 <= k < connection_of(events).len() implies introduces(
        construction_of(nodes),
        (#[trigger] connection_of(events)[k]).widget,
    ) by {
        assert(events[k].target < nodes.len());
        lemma_construction_introduces(nodes, nodes.len() as int, events[k].target);
    }
}

/// In the construction stream of the first `n` widgets, a child is built and
/// its parent introduced before the child is attached.
pub proof fn lemma_attach_order(nodes: Seq<WidgetNode>, n: int, j: int)
    requires
        0 <= n <= nodes.len() <= usize::MAX,
        forall|i: int|
            0 < i < nodes.len() ==> ((#[trigger] nodes[i]).parent matches Some(p) && p < i),
        nodes.len() > 0 ==> nodes[0].parent is None,
        0 <= j < construction_upto(nodes, n).len(),
        construction_upto(nodes, n)[j] is Attach,
    ensures
        ({
            let stream = construction_upto(nodes, n);
            &&& exists|a: int|
                0 <= a < j && #[trigger] stream[a] == (Construction::Build {
                    widget: stream[j]->child,
                })
            &&& exists|b: int| 0 <= b < j && brings(#[trigger] stream[b], stream[j]->Attach_parent)
        }),
    decreases n,
{
    let before = construction_upto(nodes, n - 1);
    let steps = construction_steps(nodes, n - 1);
    let stream = construction_upto(nodes, n);
    if j < before.len() {
        lemma_attach_order(nodes, n - 1, j);
        let a = choose|a: int|
            0 <= a < j && #[trigger] before[a] == (Construction::Build {
                widget: before[j]->child,
            });
        assert(stream[a] == before[a]);
        let b = choose|b: int|
            0 <= b < j && brings(#[trigger] before[b], before[j]->Attach_parent);
        assert(stream[b] == before[b]);
    } else {
        let parent = nodes[n - 1].parent->0;
        assert(stream[j] == steps[j - before.len()]);
        assert(j == before.len() + 1);
        assert(stream[before.len() as int] == steps[0]);
        lemma_construction_introduces(nodes, n - 1, parent);
        let b = choose|b: int| 0 <= b < before.len() && brings(#[trigger] before[b], parent);
        assert(stream[b] == before[b]);
    }
}

/// Child before attach. In the construction stream of a view tree, every
/// `Attach` comes after the step that builds its child and after the step that
/// introduces its parent.
pub proof fn law_child_before_attach(tree: ViewTree, j: int)
    requires
        tree.wf(),
        0 <= j < construction_of(tree.nodes()).len(),
        construction_of(tree.nodes())[j] is Attach,
    ensures
        ({
            let stream = construction_of(tree.nodes());
            &&& exists|a: int|
                0 <= a < j && #[trigger] stream[a] == (Construction::Build {
                    widget: stream[j]->child,
                })
            &&& exists|b: int| 0 <= b < j && brings(#[trigger] stream[b], stream[j]->Attach_parent)
        }),
{
    lemma_attach_order(tree.nodes(), tree.nodes().len() as int, j);
}

/// Among the update entries of the first `n` properties, an earlier entry
/// names a property with a lower number.
pub proof fn lemma_update_increasing(properties: Seq<PropertyAssignment>, n: int, i: int, j: int)
    requires
        0 <= n <= properties.len() <= usize::MAX,
        0 <= i < j < update_upto(properties, n).len(),
    ensures
        update_upto(properties, n)[i].property < update_upto(properties, n)[j].property,
    decreases n,
{
    let before = update_upto(properties, n - 1);
    if j < before.len() {
        lemma_update_increasing(properties, n - 1, i, j);
    } else {
        lemma_update_entries(properties, n - 1, i);
    }
}

/// Declaration order. The update stream names the properties in the order in
/// which they were declared: of two entries, the earlier names the property
/// with the lower number.
pub proof fn law_update_in_declaration_order(tree: ViewTree, i: int, j: int)
    requires
        tree.wf(),
        0 <= i < j < update_of(tree.properties()).len(),
    ensures
        update_of(tree.properties())[i].property < update_of(tree.properties())[j].property,
{
    lemma_update_increasing(tree.properties(), tree.properties().len() as int, i, j);
}

/// A call that sets the property number `property` on `widget`.
#[derive(Clone, Copy, Debug, PartialEq, Eq, Structural)]
pub struct SetProperty {
    pub widget: usize,
    pub property: usize,
}

/// The calls that the first `n` entries of `stream` make on an update, where
/// `last` holds the discriminant that each entry was last applied with and
/// `now` the one it has on this update: an entry that is not guarded is always
/// applied, a guarded one only where the two differ.
pub open spec fn calls_upto(
    stream: Seq<Update>,
    last: Seq<Option<u64>>,
    now: Seq<u64>,
    n: int,
) -> Seq<SetProperty>
    decreases n,
{
    if n <= 0 {
        Seq::empty()
    } else {
        let before = calls_upto(stream, last, now, n - 1);
        if !stream[n - 1].guarded || last[n - 1] != Some(now[n - 1]) {
            before.push(
                SetProperty { widget: stream[n - 1].widget, property: stream[n - 1].property },
            )
        } else {
            before
        }
    }
}

/// The calls that `stream` makes on an update.
pub open spec fn update_calls(stream: Seq<Update>, last: Seq<Option<u64>>, now: Seq<u64>) -> Seq<
    SetProperty,
> {
    calls_upto(stream, last, now, stream.len() as int)
}

/// The calls of the first `n` entries of `stream` that are not guarded.
pub open spec fn watched_upto(stream: Seq<Update>, n: int) -> Seq<SetProperty>
    decreases n,
{
    if n <= 0 {
        Seq::empty()
    } else {
        let before = watched_upto(stream, n - 1);
        if !stream[n - 1].guarded {
            before.push(
                SetProperty { widget: stream[n - 1].widget, property: stream[n - 1].property },
            )
        } else {
            before
        }
    }
}

/// The memory of an update stream after an update with the discriminants
/// `now`.
pub open spec fn remembered(now: Seq<u64>) -> Seq<Option<u64>> {
    Seq::new(now.len(), |i: int| Some(now[i]))
}

/// The memory of an update stream of `n` entries that has not run.
pub open spec fn unseen(n: nat) -> Seq<Option<u64>> {
    Seq::new(n, |i: int| None)
}

/// The memory for `stream` before its first update.
pub fn new_memory(stream: &Vec<Update>) -> (last: Vec<Option<u64>>)
    ensures
        last@ == unseen(stream@.len()),
{
    let mut last: Vec<Option<u64>> = Vec::new();
    let mut i: usize = 0;
    while i < stream.len()
        invariant
            i <= stream.len(),
            last.len() == i,
            forall|j: int| 0 <= j < i ==> last[j] is None,
        decreases stream.len() - i,
    {
        last.push(None);
        i += 1;
    }
    assert(last@ =~= unseen(stream@.len()));
    last
}

/// Runs the update stream once. `now` holds the current discriminant of each
/// entry; `last` is the stream's memory, which afterwards holds `now`. The
/// result is the calls to make on the native side, in the stream's order.
pub fn run_update(stream: &Vec<Update>, last: &mut Vec<Option<u64>>, now: &Vec<u64>) -> (calls:
    Vec<SetProperty>)
    requires
        old(last).len() == stream.len(),
        now.len() == stream.len(),
    ensures
        calls@ == update_calls(stream@, old(last)@, now@),
        final(last)@ == remembered(now@),
{
    let mut calls: Vec<SetProperty> = Vec::new();
    let mut i: usize = 0;
    while i < stream.len()
        invariant
            i <= stream.len(),
            last.len() == stream.len(),
            now.len() == stream.len(),
            calls@ == calls_upto(stream@, old(last)@, now@, i as int),
            forall|j: int| 0 <= j < i ==> last[j] == Some(now[j]),
            forall|j: int| i <= j < stream.len() ==> last[j] == old(last)[j],
        decreases stream.len() - i,
    {
        let entry = stream[i];
        let changed = match last[i] {
            Some(seen) => seen != now[i],
            None => true,
        };
        if !entry.guarded || changed {
            calls.push(SetProperty { widget: entry.widget, property: entry.property });
        }
        last.set(i, Some(now[i]));
        i += 1;
    }
    assert(last@ =~= remembered(now@));
    calls
}

/// With the memory of an update with `now`, the first `n` entries make the
/// calls of those among them that are not guarded.
pub proof fn lemma_unchanged_calls(stream: Seq<Update>, now: Seq<u64>, n: int)
    requires
        0 <= n <= stream.len(),
        now.len() == stream.len(),
    ensures
        calls_upto(stream, remembered(now), now, n) == watched_upto(stream, n),
    decreases n,
{
    if n > 0 {
        lemma_unchanged_calls(stream, now, n - 1);
    }
}

/// Idempotence of an update without change. After an update with the
/// discriminants `now`, whatever the memory was before, a second update with
/// the same discriminants makes the calls of the entries that are not guarded,
/// and no other: a guarded entry makes none.
pub proof fn law_unchanged_update(stream: Seq<Update>, now: Seq<u64>)
    requires
        now.len() == stream.len(),
    ensures
        update_calls(stream, remembered(now), now) == watched_upto(stream, stream.len() as int),
{
    lemma_unchanged_calls(stream, now, stream.len() as int);
}

} // verus!
