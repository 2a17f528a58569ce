//! The compiler's entry point: from the parts of a component, as its author
//! wrote them, to the generated component.

use vstd::prelude::*;
use crate::diagnostics::{combine, Diagnostic, DiagnosticKind, Report};
use crate::inject::{
    assemble_update_view, holder_fields, holder_of, inject_view_code, injected, injection_point,
    no_injection_point, update_routine, Body, HolderField, InitStep, UpdateStep,
};
use crate::streams::{generate_streams, TokenStreams};
use crate::view::{finding, names_of, parse_view, AdditionalField, Declaration, ViewTree};
use crate::visitors::{
    functions_of, macros_of, types_of, ComponentFunctions, ComponentMacros, ComponentTypes,
    ImplItem,
};

verus! {

/// A component as its author wrote it.
#[derive(Debug)]
pub struct ComponentSource {
    /// The component's items, in the order visited.
    pub items: Vec<ImplItem>,
    /// The view description.
    pub view: Vec<Declaration>,
    /// The names of the events that the toolkit has.
    pub known_events: Vec<String>,
    /// The fields that the author adds to the widget holder.
    pub additional_fields: Vec<AdditionalField>,
    /// The body of the initialization routine; empty where there is none.
    pub init: Body,
    /// The name under which the update routine binds the model.
    pub model_name: String,
}

/// A generated component.
#[derive(Debug)]
pub struct Component {
    /// The visibility of the widget holder.
    pub visibility: Option<String>,
    pub model_name: String,
    pub types: ComponentTypes,
    pub macros: ComponentMacros,
    pub functions: ComponentFunctions,
    pub tree: ViewTree,
    pub additional_fields: Vec<AdditionalField>,
    /// The fields of the widget holder.
    pub fields: Vec<HolderField>,
    pub streams: TokenStreams,
    /// The initialization routine, with the view code spliced in.
    pub init: Vec<InitStep>,
    /// The update routine.
    pub update_view: Vec<UpdateStep>,
}

/// The place of a finding about the initialization routine of `items`: the
/// position of the routine, or, where there is none, the number of items.
pub open spec fn init_place(items: Seq<ImplItem>) -> usize {
    match functions_of(items).init {
        Some(at) => at,
        None => items.len() as usize,
    }
}

/// The findings for which `data` is refused, if it is: the duplicate macro
/// sections; without such, the duplicate functions; without such, the finding
/// about the view; without one, the missing injection point, where the
/// component has no initialization routine or the routine's body has no
/// injection point.
pub open spec fn findings(data: ComponentSource) -> Option<Seq<Diagnostic>> {
    if macros_of(data.items@).errors.len() > 0 {
        Some(macros_of(data.items@).errors)
    } else if functions_of(data.items@).errors.len() > 0 {
        Some(functions_of(data.items@).errors)
    } else if finding(data.view@, names_of(data.known_events@)) is Some {
        Some(seq![finding(data.view@, names_of(data.known_events@))->0])
    } else if functions_of(data.items@).init is None || injection_point(data.init) is None {
        Some(seq![no_injection_point(init_place(data.items@))])
    } else {
        None
    }
}

impl Component {
    /// The component is what `data` compiles to, with the visibility `vis`.
    pub open spec fn compiled_from(&self, vis: Option<String>, data: ComponentSource) -> bool {
        &&& self.visibility == vis
        &&& self.model_name == data.model_name
        &&& self.types@ == types_of(data.items@)
        &&& self.macros@ == macros_of(data.items@)
        &&& self.functions@ == functions_of(data.items@)
        &&& self.tree.holds(data.view@)
        &&& self.additional_fields == data.additional_fields
        &&& self.fields@ == holder_of(
            self.tree.nodes().len() as int,
            data.additional_fields@.len() as int,
        )
        &&& self.streams.lowers(self.tree)
        &&& self.functions.init is Some
        &&& injection_point(data.init) matches Some(point) && self.init@ == injected(
            data.init.statements@.len() as int,
            point,
        )
        &&& self.update_view@ == update_routine(
            functions_of(data.items@).pre_view,
            functions_of(data.items@).post_view,
        )
    }
}

/// Compiles a component. The sections are collected from the items; the view
/// is checked and lowered into its streams; the view code is spliced into the
/// initialization routine; and the update routine is put together.
///
/// A component with findings is refused with one report of them: all the
/// duplicate macro sections together, or all the duplicate functions together,
/// or the one finding about the view or about the injection point.
pub fn generate_tokens(vis: Option<String>, data: ComponentSource) -> (result: Result<
    Component,
    Report,
>)
    ensures
        match result {
            Ok(component) => findings(data) is None && component.compiled_from(vis, data),
            Err(report) => report.wf() && findings(data) == Some(report.diagnostics@),
        },
{
    let ComponentSource { items, view, known_events, additional_fields, init, model_name } = data;
    let mut types = ComponentTypes::new();
    let mut macros = ComponentMacros::new();
    let mut functions = ComponentFunctions::new();
    let mut i: usize = 0;
    assert(items@.take(0) =~= Seq::empty());
    while i < items.len()
        invariant
            i <= items.len(),
            types@ == types_of(items@.take(i as int)),
            macros@ == macros_of(items@.take(i as int)),
            functions@ == functions_of(items@.take(i as int)),
        decreases items.len() - i,
    {
        proof {
            assert(items@.take(i + 1).drop_last() =~= items@.take(i as int));
            assert(items@.take(i + 1).last() == items@[i as int]);
        }
        match &items[i] {
            ImplItem::Type(ty) => {
                types.visit_impl_item_type(ty);
            },
            ImplItem::Macro(mac) => {
                macros.visit_impl_item_macro(mac);
            },
            ImplItem::Method(func) => {
                functions.visit_impl_item_method(func);
            },
            ImplItem::Other => {},
        }
        i += 1;
    }
    assert(items@.take(i as int) =~= items@);

    if macros.errors.len() > 0 {
        let ComponentMacros { errors, .. } = macros;
        return Err(combine(errors).unwrap());
    }
    if functions.errors.len() > 0 {
        let ComponentFunctions { errors, .. } = functions;
        return Err(combine(errors).unwrap());
    }
    let tree = match parse_view(view, &known_events) {
        Ok(tree) => tree,
        Err(diagnostic) => {
            return Err(Report::single(diagnostic));
        },
    };
    let place: usize = match functions.init {
        Some(at) => at,
        None => items.len(),
    };
    if functions.init.is_none() {
        return Err(
            Report::single(Diagnostic { kind: DiagnosticKind::InjectionPointNotFound, at: place }),
        );
    }
    let steps = match inject_view_code(&init, place) {
        Ok(steps) => steps,
        Err(diagnostic) => {
            return Err(Report::single(diagnostic));
        },
    };
    let streams = generate_streams(&tree);
    let fields = holder_fields(&tree, &additional_fields);
    let update_view = assemble_update_view(functions.pre_view, functions.post_view);
    Ok(
        Component {
            visibility: vis,
            model_name,
            types,
            macros,
            functions,
            tree,
            additional_fields,
            fields,
            streams,
            init: steps,
            update_view,
        },
    )
}

} // verus!
