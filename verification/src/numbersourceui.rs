use vstd::prelude::*;

use crate::numbersource::NumberSourceId;

verus! {

/// How a number source is drawn.
#[derive(Clone, Copy, Debug, PartialEq, Eq, Structural)]
pub enum DisplayStyle {
    Framed,
    Frameless,
}

/// What is drawn for a number source: an optional label in a given style.
pub struct NumberSourceUi {
    source_id: NumberSourceId,
    label: Option<String>,
    display_style: DisplayStyle,
}

impl NumberSourceUi {
    pub closed spec fn spec_source_id(&self) -> NumberSourceId {
        self.source_id
    }

    /// The label's text, if there is a label.
    pub closed spec fn spec_label(&self) -> Option<Seq<char>> {
        match self.label {
            Some(l) => Some(l@),
            None => None,
        }
    }

    pub closed spec fn spec_display_style(&self) -> DisplayStyle {
        self.display_style
    }

    /// A source drawn with `label`.
    pub fn new_named(source_id: NumberSourceId, label: String, display_style: DisplayStyle) -> (r:
        NumberSourceUi)
        ensures
            r.spec_source_id() == source_id,
            r.spec_label() == Some(label@),
            r.spec_display_style() == display_style,
    {
        NumberSourceUi { source_id, label: Some(label), display_style }
    }

    /// A source drawn without a label.
    pub fn new_unnamed(source_id: NumberSourceId, display_style: DisplayStyle) -> (r: NumberSourceUi)
        ensures
            r.spec_source_id() == source_id,
            r.spec_label() is None,
            r.spec_display_style() == display_style,
    {
        NumberSourceUi { source_id, label: None, display_style }
    }
}

} // verus!
