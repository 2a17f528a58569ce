//! Visitors that collect the named sections of a component.
//!
//! A component is written as a list of items: associated types, macro
//! sections and functions. Each visitor is shown the items of one kind, one
//! after the other, and keeps what it has found in an accumulator. An item is
//! remembered by its position, the number under which the caller finds it
//! again. A section given twice is recorded as a finding; the later occurrence
//! is the one that is kept.

use vstd::prelude::*;
use crate::diagnostics::{Diagnostic, DiagnosticKind, Section};

verus! {

/// An associated type of a component: its position and its name.
#[derive(Debug)]
pub struct TypeItem {
    pub at: usize,
    pub name: String,
}

/// A macro section of a component: its position and, where the macro is
/// called by a single identifier, that identifier.
#[derive(Debug)]
pub struct MacroItem {
    pub at: usize,
    pub name: Option<String>,
}

/// A function of a component: its position and its name.
#[derive(Debug)]
pub struct MethodItem {
    pub at: usize,
    pub name: String,
}

/// One item of a component.
#[derive(Debug)]
pub enum ImplItem {
    Type(TypeItem),
    Macro(MacroItem),
    Method(MethodItem),
    Other,
}

/// Whether `name` is the text `literal`.
pub fn is_named(name: &String, literal: &str) -> (same: bool)
    ensures
        same == (name@ == literal@),
{
    let other = String::from_str(literal);
    *name == other
}

/// The section that a macro called `name` holds, if any.
pub open spec fn macro_section(name: Seq<char>) -> Option<Section> {
    if name == Section::View.name() {
        Some(Section::View)
    } else if name == Section::AdditionalFields.name() {
        Some(Section::AdditionalFields)
    } else if name == Section::Menu.name() {
        Some(Section::Menu)
    } else {
        None
    }
}

/// The section that a function called `name` holds, if any.
pub open spec fn method_section(name: Seq<char>) -> Option<Section> {
    if name == Section::Init.name() {
        Some(Section::Init)
    } else if name == Section::PreView.name() {
        Some(Section::PreView)
    } else if name == Section::PostView.name() {
        Some(Section::PostView)
    } else {
        None
    }
}

/// The finding for a section given once more at `at`.
pub open spec fn duplicate(section: Section, at: usize) -> Diagnostic {
    Diagnostic { kind: DiagnosticKind::DuplicateSection(section), at }
}

/// `errors`, with a finding for `section` at `at` where the section was
/// found before.
pub open spec fn noted(
    errors: Seq<Diagnostic>,
    found: Option<usize>,
    section: Section,
    at: usize,
) -> Seq<Diagnostic> {
    if found is Some {
        errors.push(duplicate(section, at))
    } else {
        errors
    }
}

/// The associated types of a component: the one called `Widgets`, and the
/// others in the order visited.
#[derive(Debug)]
pub struct ComponentTypes {
    pub widget_type_item: Option<usize>,
    pub other_type_items: Vec<usize>,
}

/// What a [`ComponentTypes`] holds.
pub struct TypesView {
    pub widget_type_item: Option<usize>,
    pub other_type_items: Seq<usize>,
}

impl TypesView {
    pub open spec fn empty() -> TypesView {
        TypesView { widget_type_item: None, other_type_items: Seq::empty() }
    }

    /// The accumulator after one more associated type.
    pub open spec fn visit(self, ty: TypeItem) -> TypesView {
        if ty.name@ == "Widgets"@ {
            TypesView { widget_type_item: Some(ty.at), ..self }
        } else {
            TypesView { other_type_items: self.other_type_items.push(ty.at), ..self }
        }
    }
}

impl View for ComponentTypes {
    type V = TypesView;

    open spec fn view(&self) -> TypesView {
        TypesView {
            widget_type_item: self.widget_type_item,
            other_type_items: self.other_type_items@,
        }
    }
}

impl ComponentTypes {
    /// An accumulator that has seen nothing.
    pub fn new() -> (types: Self)
        ensures
            types@ == TypesView::empty(),
    {
        ComponentTypes { widget_type_item: None, other_type_items: Vec::new() }
    }

    /// Records the associated type `ty`: as the widgets type where it is
    /// called `Widgets`, among the others where it is not.
    pub fn visit_impl_item_type(&mut self, ty: &TypeItem)
        ensures
            final(self)@ == old(self)@.visit(*ty),
    {
        if is_named(&ty.name, "Widgets") {
            self.widget_type_item = Some(ty.at);
        } else {
            self.other_type_items.push(ty.at);
        }
    }
}

impl Default for ComponentTypes {
    fn default() -> (types: Self)
        ensures
            types@ == TypesView::empty(),
    {
        ComponentTypes::new()
    }
}

/// The macro sections of a component, and the findings about them.
#[derive(Debug)]
pub struct ComponentMacros {
    pub view_widgets: Option<usize>,
    pub additional_fields: Option<usize>,
    pub menu: Option<usize>,
    pub errors: Vec<Diagnostic>,
}

/// What a [`ComponentMacros`] holds.
pub struct MacrosView {
    pub view_widgets: Option<usize>,
    pub additional_fields: Option<usize>,
    pub menu: Option<usize>,
    pub errors: Seq<Diagnostic>,
}

impl MacrosView {
    pub open spec fn empty() -> MacrosView {
        MacrosView {
            view_widgets: None,
            additional_fields: None,
            menu: None,
            errors: Seq::empty(),
        }
    }

    /// The accumulator after one more macro: a macro that holds a section
    /// takes the section's place, with a finding where the place was taken; any
    /// other macro changes nothing.
    pub open spec fn visit(self, mac: MacroItem) -> MacrosView {
        match mac.name {
            Some(name) => match macro_section(name@) {
                Some(Section::View) => MacrosView {
                    view_widgets: Some(mac.at),
                    errors: noted(self.errors, self.view_widgets, Section::View, mac.at),
                    ..self
                },
                Some(Section::AdditionalFields) => MacrosView {
                    additional_fields: Some(mac.at),
                    errors: noted(
                        self.errors,
                        self.additional_fields,
                        Section::AdditionalFields,
                        mac.at,
                    ),
                    ..self
                },
                Some(Section::Menu) => MacrosView {
                    menu: Some(mac.at),
                    errors: noted(self.errors, self.menu, Section::Menu, mac.at),
                    ..self
                },
                _ => self,
            },
            None => self,
        }
    }
}

impl View for ComponentMacros {
    type V = MacrosView;

    open spec fn view(&self) -> MacrosView {
        MacrosView {
            view_widgets: self.view_widgets,
            additional_fields: self.additional_fields,
            menu: self.menu,
            errors: self.errors@,
        }
    }
}

impl ComponentMacros {
    /// An accumulator that has seen nothing.
    pub fn new() -> (macros: Self)
        ensures
            macros@ == MacrosView::empty(),
    {
        ComponentMacros {
            view_widgets: None,
            additional_fields: None,
            menu: None,
            errors: Vec::new(),
        }
    }

    /// Records the macro `mac` where it holds the view, the additional fields
    /// or the menu, and notes a finding where that section was given before.
    pub fn visit_impl_item_macro(&mut self, mac: &MacroItem)
        ensures
            final(self)@ == old(self)@.visit(*mac),
    {
        match &mac.name {
            Some(name) => {
                if is_named(name, "view") {
                    if self.view_widgets.is_some() {
                        self.errors.push(
                            Diagnostic {
                                kind: DiagnosticKind::DuplicateSection(Section::View),
                                at: mac.at,
                            },
                        );
                    }
                    self.view_widgets = Some(mac.at);
                } else if is_named(name, "additional_fields") {
                    if self.additional_fields.is_some() {
                        self.errors.push(
                            Diagnostic {
                                kind: DiagnosticKind::DuplicateSection(Section::AdditionalFields),
                                at: mac.at,
                            },
                        );
                    }
                    self.additional_fields = Some(mac.at);
                } else if is_named(name, "menu") {
                    if self.menu.is_some() {
                        self.errors.push(
                            Diagnostic {
                                kind: DiagnosticKind::DuplicateSection(Section::Menu),
                                at: mac.at,
                            },
                        );
                    }
                    self.menu = Some(mac.at);
                }
            },
            None => {},
        }
    }
}

impl Default for ComponentMacros {
    fn default() -> (macros: Self)
        ensures
            macros@ == MacrosView::empty(),
    {
        ComponentMacros::new()
    }
}

/// The functions of a component: the three that the compiler reads, the
/// others in the order visited, and the findings about them.
#[derive(Debug)]
pub struct ComponentFunctions {
    pub init: Option<usize>,
    pub pre_view: Option<usize>,
    pub post_view: Option<usize>,
    pub other_functions: Vec<usize>,
    pub errors: Vec<Diagnostic>,
}

/// What a [`ComponentFunctions`] holds.
pub struct FunctionsView {
    pub init: Option<usize>,
    pub pre_view: Option<usize>,
    pub post_view: Option<usize>,
    pub other_functions: Seq<usize>,
    pub errors: Seq<Diagnostic>,
}

impl FunctionsView {
    pub open spec fn empty() -> FunctionsView {
        FunctionsView {
            init: None,
            pre_view: None,
            post_view: None,
            other_functions: Seq::empty(),
            errors: Seq::empty(),
        }
    }

    /// The accumulator after one more function: a function that holds a
    /// section takes the section's place, with a finding where the place was
    /// taken; any other function joins the others.
    pub open spec fn visit(self, func: MethodItem) -> FunctionsView {
        match method_section(func.name@) {
            Some(Section::Init) => FunctionsView {
                init: Some(func.at),
                errors: noted(self.errors, self.init, Section::Init, func.at),
                ..self
            },
            Some(Section::PreView) => FunctionsView {
                pre_view: Some(func.at),
                errors: noted(self.errors, self.pre_view, Section::PreView, func.at),
                ..self
            },
            Some(Section::PostView) => FunctionsView {
                post_view: Some(func.at),
                errors: noted(self.errors, self.post_view, Section::PostView, func.at),
                ..self
            },
            _ => FunctionsView { other_functions: self.other_functions.push(func.at), ..self },
        }
    }
}

impl View for ComponentFunctions {
    type V = FunctionsView;

    open spec fn view(&self) -> FunctionsView {
        FunctionsView {
            init: self.init,
            pre_view: self.pre_view,
            post_view: self.post_view,
            other_functions: self.other_functions@,
            errors: self.errors@,
        }
    }
}

impl ComponentFunctions {
    /// An accumulator that has seen nothing.
    pub fn new() -> (functions: Self)
        ensures
            functions@ == FunctionsView::empty(),
    {
        ComponentFunctions {
            init: None,
            pre_view: None,
            post_view: None,
            other_functions: Vec::new(),
            errors: Vec::new(),
        }
    }

    /// Records the function `func`: as `init`, `pre_view` or `post_view` where
    /// it has that name, with a finding where that function was given before,
    /// and among the others where it has another name.
    pub fn visit_impl_item_method(&mut self, func: &MethodItem)
        ensures
            final(self)@ == old(self)@.visit(*func),
    {
        if is_named(&func.name, "init") {
            if self.init.is_some() {
                self.errors.push(
                    Diagnostic {
                        kind: DiagnosticKind::DuplicateSection(Section::Init),
                        at: func.at,
                    },
                );
            }
            self.init = Some(func.at);
        } else if is_named(&func.name, "pre_view") {
            if self.pre_view.is_some() {
                self.errors.push(
                    Diagnostic {
                        kind: DiagnosticKind::DuplicateSection(Section::PreView),
                        at: func.at,
                    },
                );
            }
            self.pre_view = Some(func.at);
        } else if is_named(&func.name, "post_view") {
            if self.post_view.is_some() {
                self.errors.push(
                    Diagnostic {
                        kind: DiagnosticKind::DuplicateSection(Section::PostView),
                        at: func.at,
                    },
                );
            }
            self.post_view = Some(func.at);
        } else {
            self.other_functions.push(func.at);
        }
    }
}

impl Default for ComponentFunctions {
    fn default() -> (functions: Self)
        ensures
            functions@ == FunctionsView::empty(),
    {
        ComponentFunctions::new()
    }
}

/// What a [`ComponentTypes`] holds after `items`, visited in order.
pub open spec fn types_of(items: Seq<ImplItem>) -> TypesView
    decreases items.len(),
{
    if items.len() == 0 {
        TypesView::empty()
    } else {
        let before = types_of(items.drop_last());
        match items.last() {
            ImplItem::Type(ty) => before.visit(ty),
            _ => before,
        }
    }
}

/// What a [`ComponentMacros`] holds after `items`, visited in order.
pub open spec fn macros_of(items: Seq<ImplItem>) -> MacrosView
    decreases items.len(),
{
    if items.len() == 0 {
        MacrosView::empty()
    } else {
        let before = macros_of(items.drop_last());
        match items.last() {
            ImplItem::Macro(mac) => before.visit(mac),
            _ => before,
        }
    }
}

/// What a [`ComponentFunctions`] holds after `items`, visited in order.
pub open spec fn functions_of(items: Seq<ImplItem>) -> FunctionsView
    decreases items.len(),
{
    if items.len() == 0 {
        FunctionsView::empty()
    } else {
        let before = functions_of(items.drop_last());
        match items.last() {
            ImplItem::Method(func) => before.visit(func),
            _ => before,
        }
    }
}

} // verus!
