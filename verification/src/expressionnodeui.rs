use vstd::prelude::*;

use crate::expressiongraph::ExpressionNodeId;

verus! {

/// How an expression node is drawn.
#[derive(Clone, Copy, Debug, PartialEq, Eq, Structural)]
pub enum DisplayStyle {
    Framed,
    Frameless,
}

/// What is drawn for an expression node: an optional label in a given style.
pub struct ExpressionNodeUi {
    node_id: ExpressionNodeId,
    label: Option<String>,
    display_style: DisplayStyle,
}

impl ExpressionNodeUi {
    pub closed spec fn spec_node_id(&self) -> ExpressionNodeId {
        self.node_id
    }

    /// The label's text, if there is a label.
    pub closed spec fn spec_label(&self) -> Option<Seq<char>> {
        match self.label {
            Some(l) => Some(l@),
            None => None,
        }
    }

    pub closed spec fn spec_display_style(&self) -> DisplayStyle {
        self.display_style
    }

    /// A node drawn with `label`.
    pub fn new_named(node_id: ExpressionNodeId, label: String, display_style: DisplayStyle) -> (r:
        ExpressionNodeUi)
        ensures
            r.spec_node_id() == node_id,
            r.spec_label() == Some(label@),
            r.spec_display_style() == display_style,
    {
        ExpressionNodeUi { node_id, label: Some(label), display_style }
    }

    /// A node drawn without a label.
    pub fn new_unnamed(node_id: ExpressionNodeId, display_style: DisplayStyle) -> (r: ExpressionNodeUi)
        ensures
            r.spec_node_id() == node_id,
            r.spec_label() is None,
            r.spec_display_style() == display_style,
    {
        ExpressionNodeUi { node_id, label: None, display_style }
    }
}

} // verus!
