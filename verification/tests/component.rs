use reactive_view::component::{generate_tokens, ComponentSource};
use reactive_view::diagnostics::{
    combine, to_syn_error, Diagnostic, DiagnosticKind, Malformation, Report, Section,
};
use reactive_view::inject::{Body, HolderField, InitStep, Statement, UpdateStep};
use reactive_view::routing::{deliver, forward, FactoryComponent};
use reactive_view::streams::Construction;
use reactive_view::view::{AdditionalField, Declaration, PropertyAssignment, Reactivity, WidgetNode};
use reactive_view::visitors::{
    is_named, ComponentFunctions, ComponentMacros, ComponentTypes, ImplItem, MacroItem,
    MethodItem, TypeItem,
};

fn ty(at: usize, name: &str) -> TypeItem {
    TypeItem { at, name: name.to_string() }
}

fn mac(at: usize, name: &str) -> MacroItem {
    MacroItem { at, name: Some(name.to_string()) }
}

fn func(at: usize, name: &str) -> MethodItem {
    MethodItem { at, name: name.to_string() }
}

fn duplicate(section: Section, at: usize) -> Diagnostic {
    Diagnostic { kind: DiagnosticKind::DuplicateSection(section), at }
}

#[test]
fn widgets_type_is_told_from_the_others() {
    let mut types = ComponentTypes::new();
    types.visit_impl_item_type(&ty(0, "Init"));
    types.visit_impl_item_type(&ty(1, "Widgets"));
    types.visit_impl_item_type(&ty(2, "Input"));
    types.visit_impl_item_type(&ty(3, "widgets"));
    assert_eq!(types.widget_type_item, Some(1));
    assert_eq!(types.other_type_items, vec![0, 2, 3]);
    types.visit_impl_item_type(&ty(7, "Widgets"));
    assert_eq!(types.widget_type_item, Some(7));
    assert_eq!(types.other_type_items, vec![0, 2, 3]);
}

#[test]
fn visitors_start_empty() {
    let types = ComponentTypes::default();
    assert_eq!(types.widget_type_item, None);
    assert!(types.other_type_items.is_empty());
    let macros = ComponentMacros::default();
    assert_eq!((macros.view_widgets, macros.additional_fields, macros.menu), (None, None, None));
    assert!(macros.errors.is_empty());
    let functions = ComponentFunctions::default();
    assert_eq!((functions.init, functions.pre_view, functions.post_view), (None, None, None));
    assert!(functions.other_functions.is_empty());
    assert!(functions.errors.is_empty());
}

#[test]
fn macro_sections_are_collected() {
    let mut macros = ComponentMacros::new();
    macros.visit_impl_item_macro(&mac(2, "view"));
    macros.visit_impl_item_macro(&mac(3, "menu"));
    macros.visit_impl_item_macro(&mac(4, "additional_fields"));
    macros.visit_impl_item_macro(&mac(5, "println"));
    macros.visit_impl_item_macro(&MacroItem { at: 6, name: None });
    assert_eq!(macros.view_widgets, Some(2));
    assert_eq!(macros.menu, Some(3));
    assert_eq!(macros.additional_fields, Some(4));
    assert!(macros.errors.is_empty());
}

#[test]
fn macro_section_given_twice_is_a_finding() {
    let mut macros = ComponentMacros::new();
    macros.visit_impl_item_macro(&mac(0, "view"));
    macros.visit_impl_item_macro(&mac(1, "menu"));
    macros.visit_impl_item_macro(&mac(2, "view"));
    macros.visit_impl_item_macro(&mac(3, "additional_fields"));
    macros.visit_impl_item_macro(&mac(4, "menu"));
    macros.visit_impl_item_macro(&mac(5, "additional_fields"));
    macros.visit_impl_item_macro(&mac(6, "view"));
    assert_eq!(
        macros.errors,
        vec![
            duplicate(Section::View, 2),
            duplicate(Section::Menu, 4),
            duplicate(Section::AdditionalFields, 5),
            duplicate(Section::View, 6),
        ]
    );
    assert_eq!(macros.view_widgets, Some(6));
    assert_eq!(macros.menu, Some(4));
    assert_eq!(macros.additional_fields, Some(5));
}

#[test]
fn functions_are_collected() {
    let mut functions = ComponentFunctions::new();
    functions.visit_impl_item_method(&func(0, "init"));
    functions.visit_impl_item_method(&func(1, "update"));
    functions.visit_impl_item_method(&func(2, "pre_view"));
    functions.visit_impl_item_method(&func(3, "post_view"));
    functions.visit_impl_item_method(&func(4, "shutdown"));
    assert_eq!(functions.init, Some(0));
    assert_eq!(functions.pre_view, Some(2));
    assert_eq!(functions.post_view, Some(3));
    assert_eq!(functions.other_functions, vec![1, 4]);
    assert!(functions.errors.is_empty());
    functions.visit_impl_item_method(&func(5, "post_view"));
    functions.visit_impl_item_method(&func(6, "init"));
    functions.visit_impl_item_method(&func(7, "pre_view"));
    assert_eq!(
        functions.errors,
        vec![
            duplicate(Section::PostView, 5),
            duplicate(Section::Init, 6),
            duplicate(Section::PreView, 7),
        ]
    );
    assert_eq!(functions.init, Some(6));
    assert_eq!(functions.other_functions, vec![1, 4]);
}

#[test]
fn is_named_compares_the_whole_text() {
    assert!(is_named(&"view".to_string(), "view"));
    assert!(!is_named(&"view".to_string(), "views"));
    assert!(!is_named(&"View".to_string(), "view"));
    assert!(!is_named(&String::new(), "view"));
}

#[test]
fn findings_are_combined_at_the_first() {
    assert!(combine(Vec::new()).is_none());
    let report = combine(vec![duplicate(Section::Menu, 9), duplicate(Section::View, 3)]).unwrap();
    assert_eq!(report.anchor, 9);
    assert_eq!(report.diagnostics, vec![duplicate(Section::Menu, 9), duplicate(Section::View, 3)]);
    let single = Report::single(duplicate(Section::Init, 1));
    assert_eq!(single.anchor, 1);
    assert_eq!(single.diagnostics, vec![duplicate(Section::Init, 1)]);
}

#[test]
fn each_finding_has_its_message() {
    let at = 0;
    let message = |kind: DiagnosticKind| Diagnostic { kind, at }.message();
    assert_eq!(message(DiagnosticKind::DuplicateSection(Section::View)), "duplicate view macro");
    assert_eq!(
        message(DiagnosticKind::DuplicateSection(Section::AdditionalFields)),
        "duplicate additional_fields macro"
    );
    assert_eq!(message(DiagnosticKind::DuplicateSection(Section::Menu)), "duplicate menu macro");
    assert_eq!(message(DiagnosticKind::DuplicateSection(Section::Init)), "duplicate init function");
    assert_eq!(
        message(DiagnosticKind::DuplicateSection(Section::PreView)),
        "duplicate pre_view function"
    );
    assert_eq!(
        message(DiagnosticKind::DuplicateSection(Section::PostView)),
        "duplicate post_view function"
    );
    assert_eq!(
        message(DiagnosticKind::InjectionPointNotFound),
        "expected an injection point for the view code"
    );
    assert_eq!(
        message(DiagnosticKind::MalformedView(Malformation::MissingRoot)),
        "view without a root widget"
    );
    assert_eq!(
        message(DiagnosticKind::MalformedView(Malformation::DuplicateRoot)),
        "duplicate root widget"
    );
    assert_eq!(
        message(DiagnosticKind::MalformedView(Malformation::Parent)),
        "widget without a parent"
    );
    assert_eq!(
        message(DiagnosticKind::MalformedView(Malformation::DuplicateName)),
        "duplicate widget name"
    );
    assert_eq!(
        message(DiagnosticKind::MalformedView(Malformation::UnknownTarget)),
        "assignment without a target widget"
    );
    assert_eq!(message(DiagnosticKind::MalformedView(Malformation::UnknownEvent)), "unknown event");
}

#[test]
fn report_becomes_one_error_with_all_messages() {
    let report = combine(vec![
        duplicate(Section::View, 1),
        duplicate(Section::Menu, 0),
        duplicate(Section::View, 1),
    ])
    .unwrap();
    let spans: Vec<proc_macro2::TokenStream> =
        vec!["menu ! { }".parse().unwrap(), proc_macro2::TokenStream::new()];
    let error = to_syn_error(&report, &spans).unwrap();
    let messages: Vec<String> = error.into_iter().map(|e| e.to_string()).collect();
    assert_eq!(
        messages,
        vec![
            "duplicate view macro".to_string(),
            "duplicate menu macro".to_string(),
            "duplicate view macro".to_string(),
        ]
    );
    let single = Report::single(duplicate(Section::Init, 0));
    let error = to_syn_error(&single, &spans).unwrap();
    assert_eq!(error.to_string(), "duplicate init function");
    assert_eq!(
        error.to_compile_error().to_string(),
        "compile_error ! { \"duplicate init function\" }"
    );
}

#[test]
fn report_without_a_span_becomes_no_error() {
    let spans = vec![proc_macro2::TokenStream::new()];
    let report = combine(vec![duplicate(Section::View, 0), duplicate(Section::Menu, 1)]).unwrap();
    assert!(to_syn_error(&report, &spans).is_none());
    let report = Report::single(duplicate(Section::View, 1));
    assert!(to_syn_error(&report, &spans).is_none());
    let empty = Report { anchor: 0, diagnostics: Vec::new() };
    assert!(to_syn_error(&empty, &spans).is_none());
}

fn source(items: Vec<ImplItem>) -> ComponentSource {
    ComponentSource {
        items,
        view: vec![
            Declaration::Widget(WidgetNode {
                widget_type: "gtk::Window".to_string(),
                name: None,
                parent: None,
                root: false,
                returned: false,
            }),
            Declaration::Widget(WidgetNode {
                widget_type: "gtk::Label".to_string(),
                name: Some("label".to_string()),
                parent: Some(0),
                root: false,
                returned: false,
            }),
            Declaration::Property(PropertyAssignment {
                target: 1,
                name: "set_label".to_string(),
                value: "&model.text".to_string(),
                class: Reactivity::Watched,
            }),
        ],
        known_events: vec!["connect_clicked".to_string()],
        additional_fields: vec![AdditionalField { name: "test".to_string(), ty: "u8".to_string() }],
        init: Body {
            statements: vec![
                Statement { text: "let model = App { text };".to_string(), marker: false },
                Statement { text: "let widgets = view_output!();".to_string(), marker: true },
                Statement { text: "ComponentParts { model, widgets }".to_string(), marker: false },
            ],
            tail: true,
        },
        model_name: "model".to_string(),
    }
}

fn items() -> Vec<ImplItem> {
    vec![
        ImplItem::Type(ty(0, "Widgets")),
        ImplItem::Type(ty(1, "Init")),
        ImplItem::Macro(mac(2, "view")),
        ImplItem::Other,
        ImplItem::Macro(mac(4, "additional_fields")),
        ImplItem::Method(func(5, "init")),
        ImplItem::Method(func(6, "update")),
        ImplItem::Method(func(7, "post_view")),
    ]
}

#[test]
fn component_is_generated() {
    let component = generate_tokens(Some("pub".to_string()), source(items())).unwrap();
    assert_eq!(component.visibility.as_deref(), Some("pub"));
    assert_eq!(component.model_name, "model");
    assert_eq!(component.types.widget_type_item, Some(0));
    assert_eq!(component.types.other_type_items, vec![1]);
    assert_eq!(component.macros.view_widgets, Some(2));
    assert_eq!(component.macros.additional_fields, Some(4));
    assert_eq!(component.macros.menu, None);
    assert_eq!(component.functions.init, Some(5));
    assert_eq!(component.functions.other_functions, vec![6]);
    assert_eq!(component.tree.widgets().len(), 2);
    assert_eq!(component.additional_fields.len(), 1);
    assert_eq!(
        component.fields,
        vec![
            HolderField::Widget { widget: 0 },
            HolderField::Widget { widget: 1 },
            HolderField::Additional { field: 0 },
        ]
    );
    assert_eq!(
        component.streams.init,
        vec![
            Construction::Build { widget: 0 },
            Construction::Build { widget: 1 },
            Construction::Attach { parent: 0, child: 1, position: 0 },
        ]
    );
    assert_eq!(component.streams.update_view.len(), 1);
    assert_eq!(
        component.init,
        vec![
            InitStep::User { statement: 0 },
            InitStep::View,
            InitStep::User { statement: 1 },
            InitStep::User { statement: 2 },
            InitStep::Widgets,
        ]
    );
    assert_eq!(
        component.update_view,
        vec![
            UpdateStep::Destructure,
            UpdateStep::Rebind,
            UpdateStep::PreView { function: None },
            UpdateStep::Update,
            UpdateStep::PostView { function: Some(7) },
        ]
    );
}

#[test]
fn duplicate_macros_are_reported_together() {
    let mut all = items();
    all.push(ImplItem::Macro(mac(8, "view")));
    all.push(ImplItem::Method(func(9, "init")));
    all.push(ImplItem::Macro(mac(10, "additional_fields")));
    let report = generate_tokens(None, source(all)).unwrap_err();
    assert_eq!(report.anchor, 8);
    assert_eq!(
        report.diagnostics,
        vec![duplicate(Section::View, 8), duplicate(Section::AdditionalFields, 10)]
    );
}

#[test]
fn duplicate_functions_are_reported_together() {
    let mut all = items();
    all.push(ImplItem::Method(func(8, "post_view")));
    all.push(ImplItem::Method(func(9, "init")));
    let report = generate_tokens(None, source(all)).unwrap_err();
    assert_eq!(report.anchor, 8);
    assert_eq!(
        report.diagnostics,
        vec![duplicate(Section::PostView, 8), duplicate(Section::Init, 9)]
    );
}

#[test]
fn malformed_view_is_reported() {
    let mut data = source(items());
    data.view.push(Declaration::Property(PropertyAssignment {
        target: 5,
        name: "set_label".to_string(),
        value: "\"x\"".to_string(),
        class: Reactivity::Static,
    }));
    let report = generate_tokens(None, data).unwrap_err();
    assert_eq!(report.anchor, 3);
    assert_eq!(
        report.diagnostics,
        vec![Diagnostic { kind: DiagnosticKind::MalformedView(Malformation::UnknownTarget), at: 3 }]
    );
}

#[test]
fn missing_injection_point_is_reported_at_init() {
    let mut data = source(items());
    data.init = Body {
        statements: vec![Statement { text: "let model = App::new();".to_string(), marker: false }],
        tail: false,
    };
    let report = generate_tokens(None, data).unwrap_err();
    assert_eq!(report.anchor, 5);
    assert_eq!(
        report.diagnostics,
        vec![Diagnostic { kind: DiagnosticKind::InjectionPointNotFound, at: 5 }]
    );
    let mut data = source(vec![ImplItem::Macro(mac(0, "view"))]);
    data.init = Body { statements: Vec::new(), tail: false };
    let report = generate_tokens(None, data).unwrap_err();
    assert_eq!(
        report.diagnostics,
        vec![Diagnostic { kind: DiagnosticKind::InjectionPointNotFound, at: 1 }]
    );
}

#[test]
fn component_without_init_has_no_injection_point() {
    let data = source(vec![ImplItem::Macro(mac(0, "view")), ImplItem::Method(func(1, "update"))]);
    let report = generate_tokens(None, data).unwrap_err();
    assert_eq!(report.anchor, 2);
    assert_eq!(
        report.diagnostics,
        vec![Diagnostic { kind: DiagnosticKind::InjectionPointNotFound, at: 2 }]
    );
}

#[derive(Debug, PartialEq)]
enum CounterOutput {
    SendFront(usize),
    MoveUp(usize),
    Changed,
}

#[derive(Debug, PartialEq)]
enum AppMsg {
    SendFront(usize),
    MoveUp(usize),
}

struct Counter;

impl FactoryComponent for Counter {
    type Output = CounterOutput;
    type ParentMsg = AppMsg;

    fn output_to_parent_msg(output: CounterOutput) -> Option<AppMsg> {
        match output {
            CounterOutput::SendFront(index) => Some(AppMsg::SendFront(index)),
            CounterOutput::MoveUp(index) => Some(AppMsg::MoveUp(index)),
            CounterOutput::Changed => None,
        }
    }
}

#[test]
fn suppressed_output_delivers_nothing() {
    let mut inbox: Vec<AppMsg> = vec![AppMsg::MoveUp(1)];
    assert!(!forward::<Counter>(CounterOutput::Changed, &mut inbox));
    assert_eq!(inbox, vec![AppMsg::MoveUp(1)]);
    deliver(None, &mut inbox);
    assert_eq!(inbox, vec![AppMsg::MoveUp(1)]);
}

#[test]
fn forwarded_output_delivers_one_message() {
    let mut inbox: Vec<AppMsg> = Vec::new();
    assert!(forward::<Counter>(CounterOutput::SendFront(2), &mut inbox));
    assert_eq!(inbox, vec![AppMsg::SendFront(2)]);
    assert!(forward::<Counter>(CounterOutput::MoveUp(0), &mut inbox));
    assert_eq!(inbox, vec![AppMsg::SendFront(2), AppMsg::MoveUp(0)]);
    deliver(Some(AppMsg::MoveUp(5)), &mut inbox);
    assert_eq!(inbox, vec![AppMsg::SendFront(2), AppMsg::MoveUp(0), AppMsg::MoveUp(5)]);
}
