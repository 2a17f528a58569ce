use reactive_view::diagnostics::{Diagnostic, DiagnosticKind, Malformation};
use reactive_view::inject::{
    assemble_update_view, holder_fields, inject_view_code, Body, HolderField, InitStep, Statement,
    UpdateStep,
};
use reactive_view::streams::{
    generate_streams, new_memory, run_update, Assignment, Connection, Construction, SetProperty,
    Update,
};
use reactive_view::view::{
    contains_name, parse_view, AdditionalField, Declaration, EventBinding, PropertyAssignment,
    Reactivity, WidgetNode,
};

fn widget(ty: &str, name: Option<&str>, parent: Option<usize>) -> Declaration {
    Declaration::Widget(WidgetNode {
        widget_type: ty.to_string(),
        name: name.map(|n| n.to_string()),
        parent,
        root: false,
        returned: false,
    })
}

fn returned(ty: &str, parent: usize) -> Declaration {
    Declaration::Widget(WidgetNode {
        widget_type: ty.to_string(),
        name: None,
        parent: Some(parent),
        root: false,
        returned: true,
    })
}

fn property(target: usize, name: &str, value: &str, class: Reactivity) -> Declaration {
    Declaration::Property(PropertyAssignment {
        target,
        name: name.to_string(),
        value: value.to_string(),
        class,
    })
}

fn event(target: usize, name: &str, captures: &[&str]) -> Declaration {
    Declaration::Event(EventBinding {
        target,
        event: name.to_string(),
        captures: captures.iter().map(|c| c.to_string()).collect(),
        handler: "sender.input(Msg::Clicked)".to_string(),
    })
}

fn known() -> Vec<String> {
    vec!["connect_clicked".to_string(), "connect_toggled".to_string()]
}

fn malformed(reason: Malformation, at: usize) -> Diagnostic {
    Diagnostic { kind: DiagnosticKind::MalformedView(reason), at }
}

/// A window with a box that holds a label, two buttons and a tab view.
fn window() -> Vec<Declaration> {
    vec![
        widget("adw::Window", None, None),
        property(0, "set_title", "Some(\"Tabs\")", Reactivity::Static),
        widget("gtk::Box", None, Some(0)),
        property(1, "set_spacing", "5", Reactivity::Static),
        widget("gtk::Label", Some("label"), Some(1)),
        property(2, "set_label", "&model.value.to_string()", Reactivity::Watched),
        widget("gtk::Button", None, Some(1)),
        property(3, "set_label", "\"Add\"", Reactivity::Static),
        event(3, "connect_clicked", &["sender"]),
        property(3, "set_visible", "model.shown", Reactivity::ConditionalStream),
        widget("gtk::Button", None, Some(1)),
        event(4, "connect_clicked", &["sender", "index"]),
        widget("adw::TabView", Some("tabs"), Some(1)),
        returned("adw::TabPage", 5),
        property(6, "set_title", "model.title", Reactivity::Watched),
    ]
}

#[test]
fn parse_sorts_the_declarations() {
    let tree = parse_view(window(), &known()).unwrap();
    assert_eq!(tree.widgets().len(), 7);
    assert_eq!(tree.assignments().len(), 6);
    assert_eq!(tree.bindings().len(), 2);
    assert_eq!(tree.widgets()[0].widget_type, "adw::Window");
    assert_eq!(tree.widgets()[0].parent, None);
    assert_eq!(tree.widgets()[2].name.as_deref(), Some("label"));
    assert_eq!(tree.widgets()[5].parent, Some(1));
    assert!(tree.widgets()[6].returned);
    assert_eq!(tree.assignments()[2].name, "set_label");
    assert_eq!(tree.assignments()[2].target, 2);
    assert_eq!(tree.assignments()[4].class, Reactivity::ConditionalStream);
    assert_eq!(tree.bindings()[1].captures, vec!["sender".to_string(), "index".to_string()]);
    assert_eq!(tree.bindings()[1].target, 4);
}

#[test]
fn a_widget_alone_is_a_view() {
    let tree = parse_view(vec![widget("gtk::Box", None, None)], &Vec::new()).unwrap();
    assert_eq!(tree.widgets().len(), 1);
    let streams = generate_streams(&tree);
    assert_eq!(streams.init, vec![Construction::Build { widget: 0 }]);
    assert!(streams.assign.is_empty());
    assert!(streams.connect.is_empty());
    assert!(streams.update_view.is_empty());
}

#[test]
fn marked_first_widget_is_the_root() {
    let root = Declaration::Widget(WidgetNode {
        widget_type: "gtk::Box".to_string(),
        name: None,
        parent: None,
        root: true,
        returned: false,
    });
    let tree = parse_view(vec![root, widget("gtk::Label", None, Some(0))], &Vec::new()).unwrap();
    assert!(tree.widgets()[0].root);
}

#[test]
fn empty_description_has_no_root() {
    assert_eq!(
        parse_view(Vec::new(), &known()).unwrap_err(),
        malformed(Malformation::MissingRoot, 0)
    );
}

#[test]
fn second_root_marker_is_refused() {
    let second = Declaration::Widget(WidgetNode {
        widget_type: "gtk::Box".to_string(),
        name: None,
        parent: Some(0),
        root: true,
        returned: false,
    });
    let declarations = vec![
        widget("gtk::Window", None, None),
        property(0, "set_title", "None", Reactivity::Static),
        second,
    ];
    assert_eq!(
        parse_view(declarations, &known()).unwrap_err(),
        malformed(Malformation::DuplicateRoot, 2)
    );
}

#[test]
fn widget_without_a_parent_is_refused() {
    let declarations = vec![widget("gtk::Window", None, None), widget("gtk::Box", None, None)];
    assert_eq!(
        parse_view(declarations, &known()).unwrap_err(),
        malformed(Malformation::Parent, 1)
    );
    let declarations = vec![widget("gtk::Window", None, None), widget("gtk::Box", None, Some(1))];
    assert_eq!(
        parse_view(declarations, &known()).unwrap_err(),
        malformed(Malformation::Parent, 1)
    );
    let declarations = vec![widget("gtk::Window", None, Some(0))];
    assert_eq!(
        parse_view(declarations, &known()).unwrap_err(),
        malformed(Malformation::Parent, 0)
    );
    let declarations = vec![
        widget("gtk::Window", None, None),
        widget("gtk::Stack", None, Some(0)),
        returned("gtk::StackPage", 1),
        widget("gtk::Label", None, Some(2)),
    ];
    assert_eq!(
        parse_view(declarations, &known()).unwrap_err(),
        malformed(Malformation::Parent, 3)
    );
}

#[test]
fn name_given_twice_is_refused() {
    let declarations = vec![
        widget("gtk::Window", Some("main"), None),
        widget("gtk::Box", Some("row"), Some(0)),
        widget("gtk::Box", None, Some(0)),
        widget("gtk::Box", Some("main"), Some(1)),
    ];
    assert_eq!(
        parse_view(declarations, &known()).unwrap_err(),
        malformed(Malformation::DuplicateName, 3)
    );
}

#[test]
fn property_without_a_target_is_refused() {
    let declarations = vec![
        widget("gtk::Window", None, None),
        property(1, "set_title", "None", Reactivity::Static),
        widget("gtk::Box", None, Some(0)),
    ];
    assert_eq!(
        parse_view(declarations, &known()).unwrap_err(),
        malformed(Malformation::UnknownTarget, 1)
    );
    let declarations = vec![property(0, "set_title", "None", Reactivity::Static)];
    assert_eq!(
        parse_view(declarations, &known()).unwrap_err(),
        malformed(Malformation::UnknownTarget, 0)
    );
    let declarations = vec![widget("gtk::Window", None, None), event(3, "connect_clicked", &[])];
    assert_eq!(
        parse_view(declarations, &known()).unwrap_err(),
        malformed(Malformation::UnknownTarget, 1)
    );
}

#[test]
fn unknown_event_is_refused() {
    let declarations = vec![
        widget("gtk::Window", None, None),
        event(0, "connect_clicked", &[]),
        event(0, "connect_swiped", &[]),
    ];
    assert_eq!(
        parse_view(declarations, &known()).unwrap_err(),
        malformed(Malformation::UnknownEvent, 2)
    );
}

#[test]
fn the_first_fault_is_the_one_reported() {
    let declarations = vec![
        widget("gtk::Window", None, None),
        event(0, "connect_swiped", &[]),
        property(9, "set_title", "None", Reactivity::Static),
    ];
    assert_eq!(
        parse_view(declarations, &known()).unwrap_err(),
        malformed(Malformation::UnknownEvent, 1)
    );
}

#[test]
fn contains_name_compares_texts() {
    assert!(contains_name(&known(), &"connect_toggled".to_string()));
    assert!(!contains_name(&known(), &"connect".to_string()));
    assert!(!contains_name(&Vec::new(), &"connect_clicked".to_string()));
}

#[test]
fn four_streams_of_a_window() {
    let tree = parse_view(window(), &known()).unwrap();
    let streams = generate_streams(&tree);
    assert_eq!(
        streams.init,
        vec![
            Construction::Build { widget: 0 },
            Construction::Build { widget: 1 },
            Construction::Attach { parent: 0, child: 1, position: 0 },
            Construction::Build { widget: 2 },
            Construction::Attach { parent: 1, child: 2, position: 0 },
            Construction::Build { widget: 3 },
            Construction::Attach { parent: 1, child: 3, position: 1 },
            Construction::Build { widget: 4 },
            Construction::Attach { parent: 1, child: 4, position: 2 },
            Construction::Build { widget: 5 },
            Construction::Attach { parent: 1, child: 5, position: 3 },
            Construction::Receive { widget: 6, parent: 5 },
        ]
    );
    assert_eq!(
        streams.assign,
        vec![
            Assignment { widget: 0, property: 0 },
            Assignment { widget: 1, property: 1 },
            Assignment { widget: 2, property: 2 },
            Assignment { widget: 3, property: 3 },
            Assignment { widget: 3, property: 4 },
            Assignment { widget: 6, property: 5 },
        ]
    );
    assert_eq!(
        streams.connect,
        vec![Connection { widget: 3, event: 0 }, Connection { widget: 4, event: 1 }]
    );
    assert_eq!(
        streams.update_view,
        vec![
            Update { widget: 2, property: 2, guarded: false },
            Update { widget: 3, property: 4, guarded: true },
            Update { widget: 6, property: 5, guarded: false },
        ]
    );
}

#[test]
fn every_widget_of_the_update_stream_is_constructed() {
    let tree = parse_view(window(), &known()).unwrap();
    let streams = generate_streams(&tree);
    let introduced = |widget: usize| {
        streams.init.iter().any(|step| match *step {
            Construction::Build { widget: w } => w == widget,
            Construction::Receive { widget: w, .. } => w == widget,
            Construction::Attach { .. } => false,
        })
    };
    assert!(streams.update_view.iter().all(|u| introduced(u.widget)));
    assert!(streams.assign.iter().all(|a| introduced(a.widget)));
    assert!(streams.connect.iter().all(|c| introduced(c.widget)));
}

#[test]
fn second_update_without_change_applies_only_the_watched() {
    let tree = parse_view(window(), &known()).unwrap();
    let streams = generate_streams(&tree);
    let mut memory = new_memory(&streams.update_view);
    assert_eq!(memory, vec![None, None, None]);
    let now = vec![11, 22, 33];
    let first = run_update(&streams.update_view, &mut memory, &now);
    assert_eq!(
        first,
        vec![
            SetProperty { widget: 2, property: 2 },
            SetProperty { widget: 3, property: 4 },
            SetProperty { widget: 6, property: 5 },
        ]
    );
    assert_eq!(memory, vec![Some(11), Some(22), Some(33)]);
    let second = run_update(&streams.update_view, &mut memory, &now);
    assert_eq!(
        second,
        vec![SetProperty { widget: 2, property: 2 }, SetProperty { widget: 6, property: 5 }]
    );
    let third = run_update(&streams.update_view, &mut memory, &vec![11, 23, 33]);
    assert_eq!(third, first);
    assert_eq!(memory, vec![Some(11), Some(23), Some(33)]);
}

#[test]
fn empty_update_stream_does_nothing() {
    let stream: Vec<Update> = Vec::new();
    let mut memory = new_memory(&stream);
    assert!(run_update(&stream, &mut memory, &Vec::new()).is_empty());
    assert!(memory.is_empty());
}

fn statement(text: &str, marker: bool) -> Statement {
    Statement { text: text.to_string(), marker }
}

fn no_injection_point(at: usize) -> Diagnostic {
    Diagnostic { kind: DiagnosticKind::InjectionPointNotFound, at }
}

#[test]
fn view_code_goes_before_the_marker() {
    let body = Body {
        statements: vec![
            statement("let model = App::new(counter);", false),
            statement("let widgets = view_output!();", true),
            statement("ComponentParts { model, widgets }", false),
        ],
        tail: true,
    };
    assert_eq!(
        inject_view_code(&body, 4),
        Ok(vec![
            InitStep::User { statement: 0 },
            InitStep::View,
            InitStep::User { statement: 1 },
            InitStep::User { statement: 2 },
            InitStep::Widgets,
        ])
    );
}

#[test]
fn first_marker_wins() {
    let body = Body {
        statements: vec![statement("a", true), statement("b", true)],
        tail: false,
    };
    assert_eq!(
        inject_view_code(&body, 0),
        Ok(vec![
            InitStep::View,
            InitStep::User { statement: 0 },
            InitStep::User { statement: 1 },
            InitStep::Widgets,
        ])
    );
}

#[test]
fn view_code_goes_before_the_final_expression() {
    let body = Body {
        statements: vec![statement("let model = App::new();", false), statement("model", false)],
        tail: true,
    };
    assert_eq!(
        inject_view_code(&body, 0),
        Ok(vec![
            InitStep::User { statement: 0 },
            InitStep::View,
            InitStep::User { statement: 1 },
            InitStep::Widgets,
        ])
    );
}

#[test]
fn body_without_an_injection_point_is_refused() {
    let body = Body { statements: vec![statement("let model = App::new();", false)], tail: false };
    assert_eq!(inject_view_code(&body, 3), Err(no_injection_point(3)));
    let empty = Body { statements: Vec::new(), tail: true };
    assert_eq!(inject_view_code(&empty, 5), Err(no_injection_point(5)));
    let empty = Body { statements: Vec::new(), tail: false };
    assert_eq!(inject_view_code(&empty, 0), Err(no_injection_point(0)));
}

#[test]
fn holder_has_the_widgets_and_then_the_additional_fields() {
    let tree = parse_view(
        vec![widget("gtk::Window", None, None), widget("gtk::Box", None, Some(0))],
        &known(),
    )
    .unwrap();
    let additional = vec![AdditionalField { name: "test".to_string(), ty: "u8".to_string() }];
    assert_eq!(
        holder_fields(&tree, &additional),
        vec![
            HolderField::Widget { widget: 0 },
            HolderField::Widget { widget: 1 },
            HolderField::Additional { field: 0 },
        ]
    );
    assert_eq!(
        holder_fields(&tree, &Vec::new()),
        vec![HolderField::Widget { widget: 0 }, HolderField::Widget { widget: 1 }]
    );
}

#[test]
fn update_routine_runs_in_order() {
    assert_eq!(
        assemble_update_view(Some(4), None),
        vec![
            UpdateStep::Destructure,
            UpdateStep::Rebind,
            UpdateStep::PreView { function: Some(4) },
            UpdateStep::Update,
            UpdateStep::PostView { function: None },
        ]
    );
    assert_eq!(
        assemble_update_view(None, Some(2))[4],
        UpdateStep::PostView { function: Some(2) }
    );
}
