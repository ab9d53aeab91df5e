//! Outcome of one external tool invocation, as handed to the library.

use vstd::prelude::*;

verus! {

/// What happened when the application ran one external tool.
///
/// An absent tool (the invocation could not start) is a silent miss and
/// never an error; a tool that started but exited with failure status
/// carries its diagnostic text, which only the outdated query surfaces.
pub enum ToolOutcome {
    /// The tool ran and exited successfully; holds its standard output.
    Success(String),
    /// The tool started but exited with failure status; holds a message.
    Failed(String),
    /// The tool could not be located or started.
    Absent,
}

/// Mathematical image of a `ToolOutcome`.
pub ghost enum ToolOutcomeView {
    Success(Seq<char>),
    Failed(Seq<char>),
    Absent,
}

impl View for ToolOutcome {
    type V = ToolOutcomeView;

    open spec fn view(&self) -> ToolOutcomeView {
        match self {
            ToolOutcome::Success(s) => ToolOutcomeView::Success(s@),
            ToolOutcome::Failed(s) => ToolOutcomeView::Failed(s@),
            ToolOutcome::Absent => ToolOutcomeView::Absent,
        }
    }
}

impl DeepView for ToolOutcome {
    type V = ToolOutcomeView;

    open spec fn deep_view(&self) -> ToolOutcomeView {
        self.view()
    }
}

} // verus!
