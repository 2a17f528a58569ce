//! The lifecycle injector: where the generated view code goes in the
//! component's initialization routine, and how its update routine is put
//! together.

use vstd::prelude::*;
use crate::diagnostics::{Diagnostic, DiagnosticKind};
use crate::view::{AdditionalField, ViewTree};

verus! {

/// A statement of a body that the component's author wrote.
#[derive(Debug)]
pub struct Statement {
    /// The statement, as written.
    pub text: String,
    /// Whether the statement is the explicit marker of the injection point.
    pub marker: bool,
}

/// The body of the initialization routine, as the author wrote it.
#[derive(Debug)]
pub struct Body {
    pub statements: Vec<Statement>,
    /// Whether the last statement is the body's final expression.
    pub tail: bool,
}

/// One step of the initialization routine after the injection.
#[derive(Clone, Copy, Debug, PartialEq, Eq, Structural)]
pub enum InitStep {
    /// The author's statement number `statement`.
    User { statement: usize },
    /// The generated view code: construction, initial assignment and
    /// connection, in a scope of their own.
    View,
    /// The construction of the widget holder, the routine's final expression.
    Widgets,
}

/// A field of the widget holder.
#[derive(Clone, Copy, Debug, PartialEq, Eq, Structural)]
pub enum HolderField {
    /// The handle of the widget number `widget`.
    Widget { widget: usize },
    /// The additional field number `field`.
    Additional { field: usize },
}

/// One step of the update routine.
#[derive(Clone, Copy, Debug, PartialEq, Eq, Structural)]
pub enum UpdateStep {
    /// Takes the widget holder apart into its fields.
    Destructure,
    /// Binds the model under the name that the author declared for it.
    Rebind,
    /// Runs the author's code for before the update, the function at
    /// `function`; `None` where there is none.
    PreView { function: Option<usize> },
    /// Runs the generated update stream.
    Update,
    /// Runs the author's code for after the update, the function at
    /// `function`, and discards its result; `None` where there is none.
    PostView { function: Option<usize> },
}

/// The first marker among the first `n` of `statements`.
pub open spec fn first_marker(statements: Seq<Statement>, n: int) -> Option<int>
    decreases n,
{
    if n <= 0 {
        None
    } else {
        match first_marker(statements, n - 1) {
            Some(p) => Some(p),
            None => if statements[n - 1].marker {
                Some(n - 1)
            } else {
                None
            },
        }
    }
}

/// The injection point of `body`: its first marker; without a marker its
/// final expression; without either, none.
pub open spec fn injection_point(body: Body) -> Option<int> {
    match first_marker(body.statements@, body.statements@.len() as int) {
        Some(p) => Some(p),
        None => if body.tail && body.statements@.len() > 0 {
            Some(body.statements@.len() - 1)
        } else {
            None
        },
    }
}

/// The routine of `len` statements after the injection at `point`: the
/// statements before the point, the view code, the statements from the point
/// on, and the widget holder as the final expression.
pub open spec fn injected(len: int, point: int) -> Seq<InitStep> {
    Seq::new(
        (len + 2) as nat,
        |i: int|
            if i < point {
                InitStep::User { statement: i as usize }
            } else if i == point {
                InitStep::View
            } else if i <= len {
                InitStep::User { statement: (i - 1) as usize }
            } else {
                InitStep::Widgets
            },
    )
}

/// The first marker is a marker, and no statement before it is one.
pub proof fn lemma_first_marker(statements: Seq<Statement>, n: int)
    requires
        0 <= n <= statements.len(),
    ensures
        match first_marker(statements, n) {
            Some(p) => 0 <= p < n && statements[p].marker && forall|j: int|
                0 <= j < p ==> !(#[trigger] statements[j]).marker,
            None => forall|j: int| 0 <= j < n ==> !(#[trigger] statements[j]).marker,
        },
    decreases n,
{
    if n > 0 {
        lemma_first_marker(statements, n - 1);
    }
}

/// The finding for a routine without an injection point, given at `at`.
pub open spec fn no_injection_point(at: usize) -> Diagnostic {
    Diagnostic { kind: DiagnosticKind::InjectionPointNotFound, at }
}

/// Splices the view code into the initialization routine `body`, immediately
/// before its injection point, and makes the widget holder the routine's final
/// expression. A body without an injection point is refused, with a finding
/// at `at`.
pub fn inject_view_code(body: &Body, at: usize) -> (result: Result<Vec<InitStep>, Diagnostic>)
    ensures
        match injection_point(*body) {
            Some(point) => result matches Ok(steps) && steps@ == injected(
                body.statements@.len() as int,
                point,
            ),
            None => result == Err::<Vec<InitStep>, Diagnostic>(no_injection_point(at)),
        },
{
    let len: usize = body.statements.len();
    let mut point: Option<usize> = None;
    let mut i: usize = 0;
    while i < len
        invariant
            len == body.statements@.len(),
            i <= len,
            match point {
                Some(p) => first_marker(body.statements@, i as int) == Some(p as int),
                None => first_marker(body.statements@, i as int) is None,
            },
        decreases len - i,
    {
        if point.is_none() && body.statements[i].marker {
            point = Some(i);
        }
        i += 1;
    }
    if point.is_none() && body.tail && len > 0 {
        point = Some(len - 1);
    }
    match point {
        None => Err(Diagnostic { kind: DiagnosticKind::InjectionPointNotFound, at }),
        Some(p) => {
            proof {
                lemma_first_marker(body.statements@, len as int);
            }
            let mut steps: Vec<InitStep> = Vec::new();
            let mut k: usize = 0;
            while k < len
                invariant
                    len == body.statements@.len(),
                    p < len,
                    k <= len,
                    steps.len() == (if k <= p { k as int } else { k + 1 }),
                    forall|j: int|
                        0 <= j < steps.len() ==> steps[j] == injected(len as int, p as int)[j],
                decreases len - k,
            {
                if k == p {
                    steps.push(InitStep::View);
                }
                steps.push(InitStep::User { statement: k });
                k += 1;
            }
            steps.push(InitStep::Widgets);
            assert(steps@ =~= injected(len as int, p as int));
            Ok(steps)
        },
    }
}

/// The fields of the widget holder of a view with `widgets` widgets and
/// `additional` additional fields: the widgets' handles, then the additional
/// fields.
pub open spec fn holder_of(widgets: int, additional: int) -> Seq<HolderField> {
    Seq::new(
        (widgets + additional) as nat,
        |i: int|
            if i < widgets {
                HolderField::Widget { widget: i as usize }
            } else {
                HolderField::Additional { field: (i - widgets) as usize }
            },
    )
}

/// The fields of the widget holder for `tree` and the additional fields
/// `additional`.
pub fn holder_fields(tree: &ViewTree, additional: &Vec<AdditionalField>) -> (fields: Vec<
    HolderField,
>)
    ensures
        fields@ == holder_of(tree.nodes().len() as int, additional@.len() as int),
{
    let widgets: usize = tree.widgets().len();
    let mut fields: Vec<HolderField> = Vec::new();
    let mut i: usize = 0;
    while i < widgets
        invariant
            i <= widgets,
            fields.len() == i,
            forall|j: int| 0 <= j < i ==> fields[j] == (HolderField::Widget { widget: j as usize }),
        decreases widgets - i,
    {
        fields.push(HolderField::Widget { widget: i });
        i += 1;
    }
    let mut k: usize = 0;
    while k < additional.len()
        invariant
            k <= additional.len(),
            fields.len() == widgets + k,
            forall|j: int|
                0 <= j < widgets ==> fields[j] == (HolderField::Widget { widget: j as usize }),
            forall|j: int|
                widgets <= j < widgets + k ==> fields[j] == (HolderField::Additional {
                    field: (j - widgets) as usize,
                }),
        decreases additional.len() - k,
    {
        fields.push(HolderField::Additional { field: k });
        k += 1;
    }
    assert(fields@ =~= holder_of(widgets as int, additional@.len() as int));
    fields
}

/// The update routine in the order in which it runs: the code for before
/// the update sees the model and the widgets, the update stream sees what that
/// code did, and the code for after the update runs last.
pub open spec fn update_routine(pre_view: Option<usize>, post_view: Option<usize>) -> Seq<
    UpdateStep,
> {
    seq![
        UpdateStep::Destructure,
        UpdateStep::Rebind,
        UpdateStep::PreView { function: pre_view },
        UpdateStep::Update,
        UpdateStep::PostView { function: post_view },
    ]
}

/// Puts the update routine together: the widget holder is taken apart, the
/// model is bound under its name, the author's code for before the update
/// runs, then the generated update stream, and last the author's code for
/// after the update. `pre_view` and `post_view` are the positions of the
/// author's two functions.
pub fn assemble_update_view(pre_view: Option<usize>, post_view: Option<usize>) -> (steps: Vec<
    UpdateStep,
>)
    ensures
        steps@ == update_routine(pre_view, post_view),
{
    let mut steps: Vec<UpdateStep> = Vec::new();
    steps.push(UpdateStep::Destructure);
    steps.push(UpdateStep::Rebind);
    steps.push(UpdateStep::PreView { function: pre_view });
    steps.push(UpdateStep::Update);
    steps.push(UpdateStep::PostView { function: post_view });
    assert(steps@ =~= update_routine(pre_view, post_view));
    steps
}

} // verus!
