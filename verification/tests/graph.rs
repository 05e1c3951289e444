use sysml_core::diagram::graph::{DiagramKind, GeneralViewFlavor, GridViewFlavor};

#[test]
fn canonical_names_parse() {
    assert_eq!(DiagramKind::from_str("gv"), Some(DiagramKind::GeneralView(GeneralViewFlavor::Default)));
    assert_eq!(DiagramKind::from_str("iv"), Some(DiagramKind::InterconnectionView));
    assert_eq!(DiagramKind::from_str("afv"), Some(DiagramKind::ActionFlowView));
    assert_eq!(DiagramKind::from_str("stv"), Some(DiagramKind::StateTransitionView));
    assert_eq!(DiagramKind::from_str("sv"), Some(DiagramKind::SequenceView));
    assert_eq!(DiagramKind::from_str("grv"), Some(DiagramKind::GridView(GridViewFlavor::Default)));
    assert_eq!(DiagramKind::from_str("bv"), Some(DiagramKind::BrowserView));
}

#[test]
fn legacy_aliases_parse() {
    assert_eq!(DiagramKind::from_str("bdd"), Some(DiagramKind::GeneralView(GeneralViewFlavor::Default)));
    assert_eq!(DiagramKind::from_str("ibd"), Some(DiagramKind::InterconnectionView));
    assert_eq!(DiagramKind::from_str("stm"), Some(DiagramKind::StateTransitionView));
    assert_eq!(DiagramKind::from_str("act"), Some(DiagramKind::ActionFlowView));
    assert_eq!(DiagramKind::from_str("req"), Some(DiagramKind::GridView(GridViewFlavor::Requirements)));
    assert_eq!(DiagramKind::from_str("pkg"), Some(DiagramKind::BrowserView));
    assert_eq!(DiagramKind::from_str("par"), Some(DiagramKind::GeneralView(GeneralViewFlavor::Parametric)));
    assert_eq!(DiagramKind::from_str("trace"), Some(DiagramKind::GridView(GridViewFlavor::Trace)));
    assert_eq!(DiagramKind::from_str("alloc"), Some(DiagramKind::GridView(GridViewFlavor::Alloc)));
    assert_eq!(DiagramKind::from_str("ucd"), Some(DiagramKind::GeneralView(GeneralViewFlavor::UseCase)));
}

#[test]
fn render_clause_parsing() {
    assert_eq!(
        DiagramKind::from_render_clause("asInterconnectionDiagram"),
        Some(DiagramKind::InterconnectionView)
    );
    assert_eq!(
        DiagramKind::from_render_clause("asSequenceDiagram"),
        Some(DiagramKind::SequenceView)
    );
    assert_eq!(DiagramKind::from_render_clause("unknown"), None);
}

#[test]
fn abbreviations() {
    assert_eq!(DiagramKind::GeneralView(GeneralViewFlavor::Default).abbreviation(), "gv");
    assert_eq!(DiagramKind::InterconnectionView.abbreviation(), "iv");
    assert_eq!(DiagramKind::SequenceView.abbreviation(), "sv");
}

