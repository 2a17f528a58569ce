//! The view tree: the widgets of a view, their property assignments and
//! their event bindings.
//!
//! A view is described by a list of declarations in document order. A widget
//! is known by its number among the widgets declared; the first widget is the
//! root, and every other widget names its parent by number. Properties and
//! events name the widget they belong to in the same way. [`parse_view`]
//! checks a description and sorts it into a [`ViewTree`].

use vstd::prelude::*;
use crate::diagnostics::{Diagnostic, DiagnosticKind, Malformation};

verus! {

/// When a property assignment is applied.
#[derive(Clone, Copy, Debug, PartialEq, Eq, Structural)]
pub enum Reactivity {
    /// Once, when the view is built.
    Static,
    /// When the view is built and on every update.
    Watched,
    /// When the view is built and on every update on which its discriminant
    /// differs from the one it was last applied with.
    ConditionalStream,
}

/// A widget of the view.
#[derive(Debug)]
pub struct WidgetNode {
    /// The native type to construct.
    pub widget_type: String,
    /// The name that the description gives the widget, if any.
    pub name: Option<String>,
    /// The number of the parent widget; none for the root.
    pub parent: Option<usize>,
    /// Whether the description marks the widget as the root.
    pub root: bool,
    /// Whether the widget is not constructed but handed back by the container
    /// when its parent is attached. Such a widget has no children.
    pub returned: bool,
}

/// The assignment of a value to a property of a widget.
#[derive(Debug)]
pub struct PropertyAssignment {
    /// The number of the widget.
    pub target: usize,
    pub name: String,
    /// The value expression, as written.
    pub value: String,
    pub class: Reactivity,
}

/// The binding of a handler to an event of a widget.
#[derive(Debug)]
pub struct EventBinding {
    /// The number of the widget.
    pub target: usize,
    pub event: String,
    /// The values moved into the handler, in the order declared.
    pub captures: Vec<String>,
    /// The handler's body, as written.
    pub handler: String,
}

/// A field that the component's author adds to the widget holder.
#[derive(Debug)]
pub struct AdditionalField {
    pub name: String,
    pub ty: String,
}

/// One declaration of a view description.
#[derive(Debug)]
pub enum Declaration {
    Widget(WidgetNode),
    Property(PropertyAssignment),
    Event(EventBinding),
}

/// The texts of `names`.
pub open spec fn names_of(names: Seq<String>) -> Seq<Seq<char>> {
    Seq::new(names.len(), |i: int| names[i]@)
}

/// The widgets that `declarations` declare, in order.
pub open spec fn widgets_of(declarations: Seq<Declaration>) -> Seq<WidgetNode>
    decreases declarations.len(),
{
    if declarations.len() == 0 {
        Seq::empty()
    } else {
        let before = widgets_of(declarations.drop_last());
        match declarations.last() {
            Declaration::Widget(widget) => before.push(widget),
            _ => before,
        }
    }
}

/// The property assignments that `declarations` declare, in order.
pub open spec fn properties_of(declarations: Seq<Declaration>) -> Seq<PropertyAssignment>
    decreases declarations.len(),
{
    if declarations.len() == 0 {
        Seq::empty()
    } else {
        let before = properties_of(declarations.drop_last());
        match declarations.last() {
            Declaration::Property(property) => before.push(property),
            _ => before,
        }
    }
}

/// The event bindings that `declarations` declare, in order.
pub open spec fn events_of(declarations: Seq<Declaration>) -> Seq<EventBinding>
    decreases declarations.len(),
{
    if declarations.len() == 0 {
        Seq::empty()
    } else {
        let before = events_of(declarations.drop_last());
        match declarations.last() {
            Declaration::Event(event) => before.push(event),
            _ => before,
        }
    }
}

/// Whether one of `widgets` has the name `name`.
pub open spec fn name_taken(widgets: Seq<WidgetNode>, name: Option<String>) -> bool {
    name matches Some(n) && exists|k: int|
        0 <= k < widgets.len() && ((#[trigger] widgets[k]).name matches Some(m) && m@ == n@)
}

/// What is wrong with the widget `widget`, declared after `before`.
pub open spec fn widget_fault(before: Seq<WidgetNode>, widget: WidgetNode) -> Option<
    Malformation,
> {
    if before.len() == 0 {
        if widget.parent is Some || widget.returned {
            Some(Malformation::Parent)
        } else {
            None
        }
    } else if widget.root {
        Some(Malformation::DuplicateRoot)
    } else if !(widget.parent matches Some(p) && p < before.len() && !before[p as int].returned) {
        Some(Malformation::Parent)
    } else if name_taken(before, widget.name) {
        Some(Malformation::DuplicateName)
    } else {
        None
    }
}

/// What is wrong with the declaration at `at`, given the declarations before
/// it and the names `known` of the events that the toolkit has.
pub open spec fn fault(declarations: Seq<Declaration>, known: Seq<Seq<char>>, at: int) -> Option<
    Malformation,
> {
    let before = widgets_of(declarations.take(at));
    match declarations[at] {
        Declaration::Widget(widget) => widget_fault(before, widget),
        Declaration::Property(property) => if property.target >= before.len() {
            Some(Malformation::UnknownTarget)
        } else {
            None
        },
        Declaration::Event(event) => if event.target >= before.len() {
            Some(Malformation::UnknownTarget)
        } else if !known.contains(event.event@) {
            Some(Malformation::UnknownEvent)
        } else {
            None
        },
    }
}

/// The rules of a view tree, for a tree that may still be empty: the first
/// widget has no parent and is built; every other widget has a built parent
/// before it and is not marked as the root; no name is given twice; every
/// property and event belongs to a widget.
pub open spec fn well_formed(
    nodes: Seq<WidgetNode>,
    properties: Seq<PropertyAssignment>,
    events: Seq<EventBinding>,
) -> bool {
    &&& nodes.len() > 0 ==> nodes[0].parent is None && !nodes[0].returned
    &&& forall|i: int|
        0 < i < nodes.len() ==> !(#[trigger] nodes[i]).root && (nodes[i].parent matches Some(p)
            && p < i && !nodes[p as int].returned)
    &&& forall|i: int, j: int|
        0 <= i < j < nodes.len() ==> !((#[trigger] nodes[i]).name matches Some(m)
            && (#[trigger] nodes[j]).name matches Some(n) && m@ == n@)
    &&& forall|k: int| 0 <= k < properties.len() ==> (#[trigger] properties[k]).target < nodes.len()
    &&& forall|k: int| 0 <= k < events.len() ==> (#[trigger] events[k]).target < nodes.len()
}

/// A checked view: one tree of widgets with the properties and events of each.
#[derive(Debug)]
pub struct ViewTree {
    nodes: Vec<WidgetNode>,
    properties: Vec<PropertyAssignment>,
    events: Vec<EventBinding>,
}

impl ViewTree {
    /// The widgets, the root first and each after its parent.
    pub closed spec fn nodes(&self) -> Seq<WidgetNode> {
        self.nodes@
    }

    /// The property assignments, in the order declared.
    pub closed spec fn properties(&self) -> Seq<PropertyAssignment> {
        self.properties@
    }

    /// The event bindings, in the order declared.
    pub closed spec fn events(&self) -> Seq<EventBinding> {
        self.events@
    }

    /// The tree has a root and keeps the rules of [`well_formed`], and its
    /// widgets, properties and events can be numbered.
    pub open spec fn wf(&self) -> bool {
        &&& 0 < self.nodes().len() <= usize::MAX
        &&& self.properties().len() <= usize::MAX
        &&& self.events().len() <= usize::MAX
        &&& well_formed(self.nodes(), self.properties(), self.events())
    }

    /// The tree is the checked form of `declarations`.
    pub open spec fn holds(&self, declarations: Seq<Declaration>) -> bool {
        &&& self.wf()
        &&& self.nodes() == widgets_of(declarations)
        &&& self.properties() == properties_of(declarations)
        &&& self.events() == events_of(declarations)
    }

    /// The widgets, the root first and each after its parent.
    pub fn widgets(&self) -> (nodes: &Vec<WidgetNode>)
        ensures
            nodes@ == self.nodes(),
    {
        &self.nodes
    }

    /// The property assignments, in the order declared.
    pub fn assignments(&self) -> (properties: &Vec<PropertyAssignment>)
        ensures
            properties@ == self.properties(),
    {
        &self.properties
    }

    /// The event bindings, in the order declared.
    pub fn bindings(&self) -> (events: &Vec<EventBinding>)
        ensures
            events@ == self.events(),
    {
        &self.events
    }
}

/// Whether `names` holds the text of `name`.
pub fn contains_name(names: &Vec<String>, name: &String) -> (found: bool)
    ensures
        found == names_of(names@).contains(name@),
{
    let mut i: usize = 0;
    while i < names.len()
        invariant
            i <= names.len(),
            forall|k: int| 0 <= k < i ==> names_of(names@)[k] != name@,
        decreases names.len() - i,
    {
        if names[i] == *name {
            assert(names_of(names@)[i as int] == name@);
            return true;
        }
        i += 1;
    }
    false
}

/// Whether one of `widgets` has the name `name`.
fn has_name(widgets: &Vec<WidgetNode>, name: &Option<String>) -> (taken: bool)
    ensures
        taken == name_taken(widgets@, *name),
{
    match name {
        None => false,
        Some(n) => {
            let mut k: usize = 0;
            while k < widgets.len()
                invariant
                    *name == Some(*n),
                    k <= widgets.len(),
                    forall|j: int|
                        0 <= j < k ==> !((#[trigger] widgets[j]).name matches Some(m) && m@
                            == n@),
                decreases widgets.len() - k,
            {
                match &widgets[k].name {
                    Some(m) => {
                        if *m == *n {
                            assert(widgets@[k as int].name matches Some(m) && m@ == n@);
                            return true;
                        }
                    },
                    None => {},
                }
                k += 1;
            }
            false
        },
    }
}

/// What is wrong with `widget`, declared after `before`.
fn check_widget(before: &Vec<WidgetNode>, widget: &WidgetNode) -> (reason: Option<Malformation>)
    ensures
        reason == widget_fault(before@, *widget),
{
    if before.len() == 0 {
        if widget.parent.is_some() || widget.returned {
            Some(Malformation::Parent)
        } else {
            None
        }
    } else if widget.root {
        Some(Malformation::DuplicateRoot)
    } else {
        let placed = match widget.parent {
            Some(p) => p < before.len() && !before[p].returned,
            None => false,
        };
        if !placed {
            Some(Malformation::Parent)
        } else if has_name(before, &widget.name) {
            Some(Malformation::DuplicateName)
        } else {
            None
        }
    }
}

/// The finding about a declaration of a view.
pub open spec fn malformed(reason: Malformation, at: usize) -> Diagnostic {
    Diagnostic { kind: DiagnosticKind::MalformedView(reason), at }
}

/// The finding about the first faulty declaration among the first `n`.
pub open spec fn first_fault(
    declarations: Seq<Declaration>,
    known: Seq<Seq<char>>,
    n: int,
) -> Option<Diagnostic>
    decreases n,
{
    if n <= 0 {
        None
    } else {
        match first_fault(declarations, known, n - 1) {
            Some(diagnostic) => Some(diagnostic),
            None => match fault(declarations, known, n - 1) {
                Some(reason) => Some(malformed(reason, (n - 1) as usize)),
                None => None,
            },
        }
    }
}

/// The finding about a description, if it has one: the fault of its first
/// faulty declaration, or, where no declaration is faulty and none declares a
/// widget, the missing root, found at the description's end.
pub open spec fn finding(declarations: Seq<Declaration>, known: Seq<Seq<char>>) -> Option<
    Diagnostic,
> {
    match first_fault(declarations, known, declarations.len() as int) {
        Some(diagnostic) => Some(diagnostic),
        None => if widgets_of(declarations).len() == 0 {
            Some(malformed(Malformation::MissingRoot, declarations.len() as usize))
        } else {
            None
        },
    }
}

/// The first fault among the first `n` declarations is the fault of one of
/// them, and no declaration before that one is faulty.
pub proof fn lemma_first_fault(declarations: Seq<Declaration>, known: Seq<Seq<char>>, n: int)
    requires
        0 <= n <= declarations.len() <= usize::MAX,
    ensures
        match first_fault(declarations, known, n) {
            Some(diagnostic) => {
                &&& diagnostic.at < n
                &&& fault(declarations, known, diagnostic.at as int) matches Some(reason)
                    && diagnostic == malformed(reason, diagnostic.at)
                &&& forall|j: int| 0 <= j < diagnostic.at ==> fault(declarations, known, j) is None
            },
            None => forall|j: int| 0 <= j < n ==> fault(declarations, known, j) is None,
        },
    decreases n,
{
    if n > 0 {
        lemma_first_fault(declarations, known, n - 1);
    }
}

/// A fault found among the first `n` declarations is the one found among
/// the first `m`, for `m` from `n` on.
pub proof fn lemma_fault_stays(
    declarations: Seq<Declaration>,
    known: Seq<Seq<char>>,
    n: int,
    m: int,
)
    requires
        n <= m,
        first_fault(declarations, known, n) is Some,
    ensures
        first_fault(declarations, known, m) == first_fault(declarations, known, n),
    decreases m - n,
{
    if n < m {
        lemma_fault_stays(declarations, known, n, m - 1);
    }
}

/// Checks the description `declarations` and sorts it into a view tree.
/// `known` holds the names of the events that the toolkit has.
///
/// The description is refused at its first faulty declaration, with what is
/// wrong with it; a description without a fault that declares no widget is
/// refused at its end, for want of a root.
pub fn parse_view(declarations: Vec<Declaration>, known: &Vec<String>) -> (result: Result<
    ViewTree,
    Diagnostic,
>)
    ensures
        match result {
            Ok(tree) => finding(declarations@, names_of(known@)) is None && tree.holds(
                declarations@,
            ),
            Err(diagnostic) => finding(declarations@, names_of(known@)) == Some(diagnostic),
        },
        result is Ok <==> widgets_of(declarations@).len() > 0 && forall|j: int|
            0 <= j < declarations@.len() ==> fault(declarations@, names_of(known@), j) is None,
{
    let ghost all = declarations@;
    let ghost names = names_of(known@);
    let mut rest = declarations;
    proof {
        let _ = rest.len();
        lemma_first_fault(all, names, all.len() as int);
    }
    let mut nodes: Vec<WidgetNode> = Vec::new();
    let mut properties: Vec<PropertyAssignment> = Vec::new();
    let mut events: Vec<EventBinding> = Vec::new();
    let mut at: usize = 0;
    let total: usize = rest.len();
    assert(all.take(0) =~= Seq::empty());
    while rest.len() > 0
        invariant
            all == declarations@,
            all.len() == total,
            names == names_of(known@),
            at + rest.len() == all.len(),
            rest@ == all.skip(at as int),
            nodes@ == widgets_of(all.take(at as int)),
            properties@ == properties_of(all.take(at as int)),
            events@ == events_of(all.take(at as int)),
            first_fault(all, names, at as int) is None,
            well_formed(nodes@, properties@, events@),
        decreases rest.len(),
    {
        let declaration = rest.remove(0);
        proof {
            assert(declaration == all[at as int]);
            assert(rest@ =~= all.skip(at + 1));
            assert(all.take(at + 1).drop_last() =~= all.take(at as int));
            assert(all.take(at + 1).last() == all[at as int]);
        }
        let reason = match &declaration {
            Declaration::Widget(widget) => check_widget(&nodes, widget),
            Declaration::Property(property) => if property.target >= nodes.len() {
                Some(Malformation::UnknownTarget)
            } else {
                None
            },
            Declaration::Event(event) => if event.target >= nodes.len() {
                Some(Malformation::UnknownTarget)
            } else if !contains_name(known, &event.event) {
                Some(Malformation::UnknownEvent)
            } else {
                None
            },
        };
        assert(reason == fault(all, names, at as int));
        match reason {
            Some(reason) => {
                proof {
                    lemma_fault_stays(all, names, at + 1, all.len() as int);
                }
                return Err(Diagnostic { kind: DiagnosticKind::MalformedView(reason), at });
            },
            None => {},
        }
        match declaration {
            Declaration::Widget(widget) => {
                nodes.push(widget);
            },
            Declaration::Property(property) => {
                properties.push(property);
            },
            Declaration::Event(event) => {
                events.push(event);
            },
        }
        at += 1;
    }
    assert(all.take(at as int) =~= all);
    if nodes.len() == 0 {
        return Err(
            Diagnostic { kind: DiagnosticKind::MalformedView(Malformation::MissingRoot), at },
        );
    }
    assert(nodes.len() <= usize::MAX && properties.len() <= usize::MAX && events.len()
        <= usize::MAX);
    Ok(ViewTree { nodes, properties, events })
}

} // verus!
