//! Diagnostics of the view compiler.
//!
//! A diagnostic says what is wrong and where. Several diagnostics of one pass
//! are reported together, as one [`Report`] anchored at the first of them.

use vstd::prelude::*;

verus! {

/// A section of a component that may be given at most once.
#[derive(Clone, Copy, Debug, PartialEq, Eq, Structural)]
pub enum Section {
    View,
    AdditionalFields,
    Menu,
    Init,
    PreView,
    PostView,
}

/// What is wrong with a declaration of a view description.
#[derive(Clone, Copy, Debug, PartialEq, Eq, Structural)]
pub enum Malformation {
    /// The description declares no widget.
    MissingRoot,
    /// A widget other than the first is marked as the root.
    DuplicateRoot,
    /// A widget other than the first has no parent among the widgets declared
    /// before it, or its parent is a returned widget; or the first widget has a
    /// parent or is itself a returned widget.
    Parent,
    /// A widget has the name of a widget declared before it.
    DuplicateName,
    /// A property or an event names no widget declared before it.
    UnknownTarget,
    /// An event binding names an event that the toolkit does not have.
    UnknownEvent,
}

#[derive(Clone, Copy, Debug, PartialEq, Eq, Structural)]
pub enum DiagnosticKind {
    MalformedView(Malformation),
    DuplicateSection(Section),
    InjectionPointNotFound,
}

/// One finding, with the place it is about: for a section the position of
/// the item among the items visited, for a view the position of the
/// declaration in the description.
#[derive(Clone, Copy, Debug, PartialEq, Eq, Structural)]
pub struct Diagnostic {
    pub kind: DiagnosticKind,
    pub at: usize,
}

/// One or more findings reported together. The anchor is the place of the
/// first.
#[derive(Debug)]
pub struct Report {
    pub anchor: usize,
    pub diagnostics: Vec<Diagnostic>,
}

impl Section {
    /// The name under which the section is written.
    pub open spec fn name(self) -> Seq<char> {
        match self {
            Section::View => "view"@,
            Section::AdditionalFields => "additional_fields"@,
            Section::Menu => "menu"@,
            Section::Init => "init"@,
            Section::PreView => "pre_view"@,
            Section::PostView => "post_view"@,
        }
    }
}

impl Diagnostic {
    /// The message of the finding.
    pub open spec fn text(self) -> Seq<char> {
        match self.kind {
            DiagnosticKind::MalformedView(Malformation::MissingRoot) =>
                "view without a root widget"@,
            DiagnosticKind::MalformedView(Malformation::DuplicateRoot) => "duplicate root widget"@,
            DiagnosticKind::MalformedView(Malformation::Parent) => "widget without a parent"@,
            DiagnosticKind::MalformedView(Malformation::DuplicateName) => "duplicate widget name"@,
            DiagnosticKind::MalformedView(Malformation::UnknownTarget) =>
                "assignment without a target widget"@,
            DiagnosticKind::MalformedView(Malformation::UnknownEvent) => "unknown event"@,
            DiagnosticKind::DuplicateSection(Section::View) => "duplicate view macro"@,
            DiagnosticKind::DuplicateSection(Section::AdditionalFields) =>
                "duplicate additional_fields macro"@,
            DiagnosticKind::DuplicateSection(Section::Menu) => "duplicate menu macro"@,
            DiagnosticKind::DuplicateSection(Section::Init) => "duplicate init function"@,
            DiagnosticKind::DuplicateSection(Section::PreView) => "duplicate pre_view function"@,
            DiagnosticKind::DuplicateSection(Section::PostView) => "duplicate post_view function"@,
            DiagnosticKind::InjectionPointNotFound =>
                "expected an injection point for the view code"@,
        }
    }

    /// The message of the finding.
    pub fn message(&self) -> (message: &'static str)
        ensures
            message@ == self.text(),
    {
        match self.kind {
            DiagnosticKind::MalformedView(Malformation::MissingRoot) =>
                "view without a root widget",
            DiagnosticKind::MalformedView(Malformation::DuplicateRoot) => "duplicate root widget",
            DiagnosticKind::MalformedView(Malformation::Parent) => "widget without a parent",
            DiagnosticKind::MalformedView(Malformation::DuplicateName) => "duplicate widget name",
            DiagnosticKind::MalformedView(Malformation::UnknownTarget) =>
                "assignment without a target widget",
            DiagnosticKind::MalformedView(Malformation::UnknownEvent) => "unknown event",
            DiagnosticKind::DuplicateSection(Section::View) => "duplicate view macro",
            DiagnosticKind::DuplicateSection(Section::AdditionalFields) =>
                "duplicate additional_fields macro",
            DiagnosticKind::DuplicateSection(Section::Menu) => "duplicate menu macro",
            DiagnosticKind::DuplicateSection(Section::Init) => "duplicate init function",
            DiagnosticKind::DuplicateSection(Section::PreView) => "duplicate pre_view function",
            DiagnosticKind::DuplicateSection(Section::PostView) => "duplicate post_view function",
            DiagnosticKind::InjectionPointNotFound =>
                "expected an injection point for the view code",
        }
    }
}

impl Report {
    /// A report holds at least one finding and is anchored at the first.
    pub open spec fn wf(&self) -> bool {
        &&& self.diagnostics@.len() > 0
        &&& self.anchor == self.diagnostics@[0].at
    }

    /// The report of one finding.
    pub fn single(diagnostic: Diagnostic) -> (report: Report)
        ensures
            report.wf(),
            report.anchor == diagnostic.at,
            report.diagnostics@ == seq![diagnostic],
    {
        let mut diagnostics: Vec<Diagnostic> = Vec::new();
        diagnostics.push(diagnostic);
        Report { anchor: diagnostic.at, diagnostics }
    }
}

/// Combines the findings of one pass into one report, in their order and
/// anchored at the first. Without findings there is no report.
pub fn combine(findings: Vec<Diagnostic>) -> (report: Option<Report>)
    ensures
        findings@.len() == 0 ==> report is None,
        findings@.len() > 0 ==> (report matches Some(r) && r.wf() && r.diagnostics@ == findings@
            && r.anchor == findings@[0].at),
{
    if findings.len() == 0 {
        None
    } else {
        let anchor: usize = findings[0].at;
        Some(Report { anchor, diagnostics: findings })
    }
}

/// The error type of the parser library. One error holds one or more
/// messages, each with its place in the source.
#[verifier::external_type_specification]
#[verifier::external_body]
pub struct ExError(syn::Error);

/// A run of source tokens, each with its place in the source.
#[verifier::external_type_specification]
#[verifier::external_body]
pub struct ExTokenStream(proc_macro2::TokenStream);

/// The messages that an error of the parser library holds, in order.
pub uninterp spec fn error_messages(error: syn::Error) -> Seq<Seq<char>>;

/// `syn::Error::new_spanned`: an error that holds the one message `message`,
/// placed at `tokens`.
#[verifier::external_body]
fn new_spanned(tokens: &proc_macro2::TokenStream, message: &str) -> (error: syn::Error)
    ensures
        error_messages(error) == seq![message@],
{
    syn::Error::new_spanned(tokens, message)
}

/// `syn::Error::combine`: the messages of `another` are put behind those of
/// `first`.
#[verifier::external_body]
fn combine_errors(first: &mut syn::Error, another: syn::Error)
    ensures
        error_messages(*final(first)) == error_messages(*old(first)) + error_messages(another),
{
    first.combine(another)
}

/// The messages of `diagnostics`, in order.
pub open spec fn texts(diagnostics: Seq<Diagnostic>) -> Seq<Seq<char>> {
    Seq::new(diagnostics.len(), |i: int| diagnostics[i].text())
}

/// Whether each of `diagnostics` is about one of `sources` places.
pub open spec fn placed(diagnostics: Seq<Diagnostic>, sources: int) -> bool {
    forall|k: int| 0 <= k < diagnostics.len() ==> (#[trigger] diagnostics[k]).at < sources
}

/// Turns `report` into one error of the parser library: the first finding
/// makes the error and the others are combined into it in order, each placed
/// at the tokens that `sources` holds for its place. There is no error for a
/// report without findings, nor where a finding's place has no tokens.
pub fn to_syn_error(report: &Report, sources: &Vec<proc_macro2::TokenStream>) -> (error: Option<
    syn::Error,
>)
    ensures
        error is Some <==> report.diagnostics@.len() > 0 && placed(
            report.diagnostics@,
            sources@.len() as int,
        ),
        error matches Some(e) ==> error_messages(e) == texts(report.diagnostics@),
{
    if report.diagnostics.len() == 0 {
        return None;
    }
    let head = report.diagnostics[0];
    if head.at >= sources.len() {
        return None;
    }
    let mut error = new_spanned(&sources[head.at], head.message());
    let mut i: usize = 1;
    while i < report.diagnostics.len()
        invariant
            1 <= i <= report.diagnostics.len(),
            forall|k: int| 0 <= k < i ==> (#[trigger] report.diagnostics[k]).at < sources.len(),
            error_messages(error) == texts(report.diagnostics@.take(i as int)),
        decreases report.diagnostics.len() - i,
    {
        let next = report.diagnostics[i];
        if next.at >= sources.len() {
            return None;
        }
        let another = new_spanned(&sources[next.at], next.message());
        combine_errors(&mut error, another);
        assert(texts(report.diagnostics@.take(i + 1)) =~= texts(report.diagnostics@.take(i as int))
            + seq![next.text()]);
        i += 1;
    }
    assert(report.diagnostics@.take(i as int) =~= report.diagnostics@);
    Some(error)
}

} // verus!
