use vstd::prelude::*;

verus! {

/// What the dashboard's main panel shows.
#[derive(Debug, Clone, Copy, PartialEq, Eq, Structural)]
pub enum MainPanelView {
    AllGraphs,
    OneGraph,
    Table,
    Statistics,
}

/// The label of each panel choice.
pub open spec fn spec_panel_label(v: MainPanelView) -> Seq<char> {
    match v {
        MainPanelView::OneGraph => "One Graph"@,
        MainPanelView::AllGraphs => "All Graphs"@,
        MainPanelView::Table => "Data Table"@,
        MainPanelView::Statistics => "Statistics"@,
    }
}

impl MainPanelView {
    /// The label shown for this choice.
    pub fn as_str(&self) -> (r: &'static str)
        ensures
            r@ == spec_panel_label(*self),
    {
        match self {
            MainPanelView::OneGraph => "One Graph",
            MainPanelView::AllGraphs => "All Graphs",
            MainPanelView::Table => "Data Table",
            MainPanelView::Statistics => "Statistics",
        }
    }
}

impl Default for MainPanelView {
    /// The dashboard opens on the all-graphs panel.
    fn default() -> (r: Self)
        ensures
            r == MainPanelView::AllGraphs,
    {
        MainPanelView::AllGraphs
    }
}

} // verus!
