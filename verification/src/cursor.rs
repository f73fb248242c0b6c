use vstd::prelude::*;

use crate::ast::{
    lemma_root_valid, path_left, path_right, rightmost_path, valid_path,
    ASTNode, ASTPath, VariableDefinition,
};

verus! {

/// An expression written as lines: variable definitions, each naming an
/// expression, then the final expression.
pub struct LexicalLayout {
    variable_definitions: Vec<VariableDefinition>,
    final_expression: ASTNode,
}

impl LexicalLayout {
    pub closed spec fn spec_definitions(&self) -> Seq<VariableDefinition> {
        self.variable_definitions@
    }

    pub closed spec fn spec_final_expression(&self) -> ASTNode {
        self.final_expression
    }

    pub fn new(variable_definitions: Vec<VariableDefinition>, final_expression: ASTNode) -> (r:
        LexicalLayout)
        ensures
            r.spec_definitions() == variable_definitions@,
            r.spec_final_expression() == final_expression,
    {
        LexicalLayout { variable_definitions, final_expression }
    }

    pub fn variable_definitions(&self) -> (r: &[VariableDefinition])
        ensures
            r@ == self.spec_definitions(),
    {
        self.variable_definitions.as_slice()
    }

    pub fn final_expression(&self) -> (r: &ASTNode)
        ensures
            *r == self.spec_final_expression(),
    {
        &self.final_expression
    }
}

/// The line a cursor is on.
#[derive(Clone, Copy, Debug, PartialEq, Eq, Structural)]
pub enum LineLocation {
    VariableDefinition(usize),
    FinalExpression,
}

/// Where the cursor of a lexical layout is: on the name of a variable, in
/// the expression of a variable, or in the final expression.
pub enum LexicalLayoutCursor {
    AtVariableName(usize),
    AtVariableValue(usize, ASTPath),
    AtFinalExpression(ASTPath),
}

/// The model of a cursor: each path by its steps.
pub enum CursorView {
    AtVariableName(int),
    AtVariableValue(int, Seq<usize>),
    AtFinalExpression(Seq<usize>),
}

impl View for LexicalLayoutCursor {
    type V = CursorView;

    open spec fn view(&self) -> CursorView {
        match self {
            LexicalLayoutCursor::AtVariableName(i) => CursorView::AtVariableName(*i as int),
            LexicalLayoutCursor::AtVariableValue(i, p) => CursorView::AtVariableValue(*i as int, p@),
            LexicalLayoutCursor::AtFinalExpression(p) => CursorView::AtFinalExpression(p@),
        }
    }
}

/// The cursor stands on a line of the layout and on a node of that line's
/// expression.
pub open spec fn cursor_valid(c: CursorView, defs: Seq<VariableDefinition>, fin: ASTNode) -> bool {
    match c {
        CursorView::AtVariableName(i) => 0 <= i < defs.len(),
        CursorView::AtVariableValue(i, p) => 0 <= i < defs.len() && valid_path(defs[i].spec_value(), p),
        CursorView::AtFinalExpression(p) => valid_path(fin, p),
    }
}

/// Where moving left takes the cursor: back through the expression, from
/// the start of a variable's expression to its name, and from a name or
/// the start of the final expression to the end of the previous variable's
/// expression. The very first place stays.
pub open spec fn spec_go_left(c: CursorView, defs: Seq<VariableDefinition>, fin: ASTNode) -> CursorView {
    match c {
        CursorView::AtVariableName(i) => if i == 0 {
            c
        } else {
            CursorView::AtVariableValue(i - 1, rightmost_path(defs[i - 1].spec_value()))
        },
        CursorView::AtVariableValue(i, p) => if p.len() == 0 {
            CursorView::AtVariableName(i)
        } else {
            CursorView::AtVariableValue(i, path_left(defs[i].spec_value(), p))
        },
        CursorView::AtFinalExpression(p) => if p.len() == 0 {
            if defs.len() == 0 {
                c
            } else {
                CursorView::AtVariableValue(
                    defs.len() - 1,
                    rightmost_path(defs[defs.len() - 1].spec_value()),
                )
            }
        } else {
            CursorView::AtFinalExpression(path_left(fin, p))
        },
    }
}

/// Where moving right takes the cursor: from a name into the start of its
/// expression, forward through an expression, and from the end of a
/// variable's expression to the next line.
pub open spec fn spec_go_right(c: CursorView, defs: Seq<VariableDefinition>, fin: ASTNode) -> CursorView {
    match c {
        CursorView::AtVariableName(i) => CursorView::AtVariableValue(i, Seq::empty()),
        CursorView::AtVariableValue(i, p) => if p == rightmost_path(defs[i].spec_value()) {
            if i + 1 == defs.len() {
                CursorView::AtFinalExpression(Seq::empty())
            } else {
                CursorView::AtVariableName(i + 1)
            }
        } else {
            CursorView::AtVariableValue(i, path_right(defs[i].spec_value(), p))
        },
        CursorView::AtFinalExpression(p) => CursorView::AtFinalExpression(path_right(fin, p)),
    }
}

/// Where moving up takes the cursor: to the line before, at the start of
/// its expression (a name stays a name); the first line stays.
pub open spec fn spec_go_up(c: CursorView, defs: Seq<VariableDefinition>) -> CursorView {
    match c {
        CursorView::AtVariableName(i) => CursorView::AtVariableName(if i > 0 {
            i - 1
        } else {
            0
        }),
        CursorView::AtVariableValue(i, _) => CursorView::AtVariableValue(
            if i > 0 {
                i - 1
            } else {
                0
            },
            Seq::empty(),
        ),
        CursorView::AtFinalExpression(_) => if defs.len() == 0 {
            CursorView::AtFinalExpression(Seq::empty())
        } else {
            CursorView::AtVariableValue(defs.len() - 1, Seq::empty())
        },
    }
}

/// Where moving down takes the cursor: to the line after, at the start of
/// its expression (a name stays a name), or on the final line to the end
/// of the final expression.
pub open spec fn spec_go_down(c: CursorView, defs: Seq<VariableDefinition>, fin: ASTNode) -> CursorView {
    match c {
        CursorView::AtVariableName(i) => if i + 1 == defs.len() {
            CursorView::AtFinalExpression(Seq::empty())
        } else {
            CursorView::AtVariableName(i + 1)
        },
        CursorView::AtVariableValue(i, _) => if i + 1 == defs.len() {
            CursorView::AtFinalExpression(Seq::empty())
        } else {
            CursorView::AtVariableValue(i + 1, Seq::empty())
        },
        CursorView::AtFinalExpression(_) => CursorView::AtFinalExpression(rightmost_path(fin)),
    }
}

/// Moving down from a line that is not the last keeps the kind of place the
/// cursor is on: from a variable's expression the cursor goes to the start
/// of the next variable's expression, from a name to the next name; from
/// the last variable it goes to the start of the final expression.
pub proof fn law_down_keeps_kind(i: int, p: Seq<usize>, defs: Seq<VariableDefinition>, fin: ASTNode)
    requires
        0 <= i < defs.len(),
    ensures
        i + 1 < defs.len() ==> spec_go_down(CursorView::AtVariableValue(i, p), defs, fin)
            == CursorView::AtVariableValue(i + 1, Seq::empty()),
        i + 1 < defs.len() ==> spec_go_down(CursorView::AtVariableName(i), defs, fin)
            == CursorView::AtVariableName(i + 1),
        i + 1 == defs.len() ==> spec_go_down(CursorView::AtVariableValue(i, p), defs, fin)
            == CursorView::AtFinalExpression(Seq::empty()),
{
}

/// Moving down and then up from a variable line that is not the last comes
/// back to the same line and the same kind of place: a name to the name,
/// an expression to the start of that expression. Moving up and then down
/// from a line after the first does the same.
pub proof fn law_down_then_up(i: int, p: Seq<usize>, defs: Seq<VariableDefinition>, fin: ASTNode)
    requires
        0 <= i < defs.len(),
    ensures
        i + 1 < defs.len() ==> spec_go_up(spec_go_down(CursorView::AtVariableValue(i, p), defs, fin), defs)
            == CursorView::AtVariableValue(i, Seq::empty()),
        i + 1 < defs.len() ==> spec_go_up(spec_go_down(CursorView::AtVariableName(i), defs, fin), defs)
            == CursorView::AtVariableName(i),
        i > 0 ==> spec_go_down(spec_go_up(CursorView::AtVariableValue(i, p), defs), defs, fin)
            == CursorView::AtVariableValue(i, Seq::empty()),
        i > 0 ==> spec_go_down(spec_go_up(CursorView::AtVariableName(i), defs), defs, fin)
            == CursorView::AtVariableName(i),
{
}

impl LexicalLayoutCursor {
    /// A cursor at the start of the final expression.
    pub fn new() -> (c: LexicalLayoutCursor)
        ensures
            c@ == CursorView::AtFinalExpression(Seq::empty()),
    {
        LexicalLayoutCursor::AtFinalExpression(ASTPath::new_at_beginning())
    }

    /// The line the cursor is on.
    pub fn line(&self) -> (r: LineLocation)
        ensures
            r == match self@ {
                CursorView::AtVariableName(i) => LineLocation::VariableDefinition(i as usize),
                CursorView::AtVariableValue(i, _) => LineLocation::VariableDefinition(i as usize),
                CursorView::AtFinalExpression(_) => LineLocation::FinalExpression,
            },
    {
        match self {
            LexicalLayoutCursor::AtVariableName(l) => LineLocation::VariableDefinition(*l),
            LexicalLayoutCursor::AtVariableValue(l, _) => LineLocation::VariableDefinition(*l),
            LexicalLayoutCursor::AtFinalExpression(_) => LineLocation::FinalExpression,
        }
    }

    /// The position within the expression, unless on a variable's name.
    pub fn path(&self) -> (r: Option<&ASTPath>)
        ensures
            match self@ {
                CursorView::AtVariableName(_) => r is None,
                CursorView::AtVariableValue(_, p) => r matches Some(q) && q@ == p,
                CursorView::AtFinalExpression(p) => r matches Some(q) && q@ == p,
            },
    {
        match self {
            LexicalLayoutCursor::AtVariableName(_) => None,
            LexicalLayoutCursor::AtVariableValue(_, p) => Some(p),
            LexicalLayoutCursor::AtFinalExpression(p) => Some(p),
        }
    }

    pub fn go_left(&mut self, layout: &LexicalLayout)
        requires
            cursor_valid(old(self)@, layout.spec_definitions(), layout.spec_final_expression()),
        ensures
            final(self)@ == spec_go_left(
                old(self)@,
                layout.spec_definitions(),
                layout.spec_final_expression(),
            ),
            cursor_valid(final(self)@, layout.spec_definitions(), layout.spec_final_expression()),
    {
        let defns = layout.variable_definitions();
        match self {
            LexicalLayoutCursor::AtVariableName(i) => {
                if *i == 0 {
                    return;
                }
                let i_prev = *i - 1;
                let p = ASTPath::new_at_end_of(defns[i_prev].value());
                *self = LexicalLayoutCursor::AtVariableValue(i_prev, p);
            },
            LexicalLayoutCursor::AtVariableValue(i, p) => {
                if p.is_at_beginning() {
                    *self = LexicalLayoutCursor::AtVariableName(*i);
                } else {
                    p.go_left(defns[*i].value());
                }
            },
            LexicalLayoutCursor::AtFinalExpression(p) => {
                if p.is_at_beginning() {
                    if defns.len() == 0 {
                        return;
                    }
                    let i = defns.len() - 1;
                    let q = ASTPath::new_at_end_of(defns[i].value());
                    *self = LexicalLayoutCursor::AtVariableValue(i, q);
                } else {
                    p.go_left(layout.final_expression());
                }
            },
        }
    }

    pub fn go_right(&mut self, layout: &LexicalLayout)
        requires
            cursor_valid(old(self)@, layout.spec_definitions(), layout.spec_final_expression()),
        ensures
            final(self)@ == spec_go_right(
                old(self)@,
                layout.spec_definitions(),
                layout.spec_final_expression(),
            ),
            cursor_valid(final(self)@, layout.spec_definitions(), layout.spec_final_expression()),
    {
        let defns = layout.variable_definitions();
        proof {
            lemma_root_valid(layout.spec_final_expression());
        }
        match self {
            LexicalLayoutCursor::AtVariableName(i) => {
                proof {
                    lemma_root_valid(defns@[*i as int].spec_value());
                }
                *self = LexicalLayoutCursor::AtVariableValue(*i, ASTPath::new_at_beginning());
            },
            LexicalLayoutCursor::AtVariableValue(i, p) => {
                if p.is_at_end_of(defns[*i].value()) {
                    let i_next = *i + 1;
                    if i_next == defns.len() {
                        *self = LexicalLayoutCursor::AtFinalExpression(ASTPath::new_at_beginning());
                    } else {
                        *self = LexicalLayoutCursor::AtVariableName(i_next);
                    }
                } else {
                    p.go_right(defns[*i].value());
                }
            },
            LexicalLayoutCursor::AtFinalExpression(p) => {
                p.go_right(layout.final_expression());
            },
        }
    }

    pub fn go_up(&mut self, layout: &LexicalLayout)
        requires
            cursor_valid(old(self)@, layout.spec_definitions(), layout.spec_final_expression()),
        ensures
            final(self)@ == spec_go_up(old(self)@, layout.spec_definitions()),
            cursor_valid(final(self)@, layout.spec_definitions(), layout.spec_final_expression()),
    {
        let defns = layout.variable_definitions();
        proof {
            lemma_root_valid(layout.spec_final_expression());
        }
        match self {
            LexicalLayoutCursor::AtVariableName(i) => {
                *self = LexicalLayoutCursor::AtVariableName(i.saturating_sub(1));
            },
            LexicalLayoutCursor::AtVariableValue(i, _) => {
                let j = i.saturating_sub(1);
                proof {
                    lemma_root_valid(defns@[j as int].spec_value());
                }
                *self = LexicalLayoutCursor::AtVariableValue(j, ASTPath::new_at_beginning());
            },
            LexicalLayoutCursor::AtFinalExpression(_) => {
                if defns.len() == 0 {
                    *self = LexicalLayoutCursor::AtFinalExpression(ASTPath::new_at_beginning());
                    return;
                }
                let i = defns.len() - 1;
                proof {
                    lemma_root_valid(defns@[i as int].spec_value());
                }
                *self = LexicalLayoutCursor::AtVariableValue(i, ASTPath::new_at_beginning());
            },
        }
    }

    pub fn go_down(&mut self, layout: &LexicalLayout)
        requires
            cursor_valid(old(self)@, layout.spec_definitions(), layout.spec_final_expression()),
        ensures
            final(self)@ == spec_go_down(
                old(self)@,
                layout.spec_definitions(),
                layout.spec_final_expression(),
            ),
            cursor_valid(final(self)@, layout.spec_definitions(), layout.spec_final_expression()),
    {
        let n = layout.variable_definitions().len();
        proof {
            lemma_root_valid(layout.spec_final_expression());
        }
        match self {
            LexicalLayoutCursor::AtVariableName(i) => {
                let i_next = *i + 1;
                if i_next == n {
                    *self = LexicalLayoutCursor::AtFinalExpression(ASTPath::new_at_beginning());
                } else {
                    *self = LexicalLayoutCursor::AtVariableName(i_next);
                }
            },
            LexicalLayoutCursor::AtVariableValue(i, _) => {
                let i_next = *i + 1;
                if i_next == n {
                    *self = LexicalLayoutCursor::AtFinalExpression(ASTPath::new_at_beginning());
                } else {
                    proof {
                        lemma_root_valid(layout.spec_definitions()[i_next as int].spec_value());
                    }
                    *self = LexicalLayoutCursor::AtVariableValue(
                        i_next,
                        ASTPath::new_at_beginning(),
                    );
                }
            },
            LexicalLayoutCursor::AtFinalExpression(_) => {
                let p = ASTPath::new_at_end_of(layout.final_expression());
                *self = LexicalLayoutCursor::AtFinalExpression(p);
            },
        }
    }

    /// The node the cursor is on, unless it is on a variable's name.
    pub fn get_node<'a>(&self, layout: &'a LexicalLayout) -> (r: Option<&'a ASTNode>)
        requires
            cursor_valid(self@, layout.spec_definitions(), layout.spec_final_expression()),
        ensures
            match self@ {
                CursorView::AtVariableName(_) => r is None,
                CursorView::AtVariableValue(i, p) => r is Some && *r->0 == crate::ast::node_at(
                    layout.spec_definitions()[i].spec_value(),
                    p,
                ),
                CursorView::AtFinalExpression(p) => r is Some && *r->0 == crate::ast::node_at(
                    layout.spec_final_expression(),
                    p,
                ),
            },
    {
        match self {
            LexicalLayoutCursor::AtVariableName(_) => None,
            LexicalLayoutCursor::AtVariableValue(i, p) => Some(
                layout.variable_definitions()[*i].value().get_along_path(p.steps()),
            ),
            LexicalLayoutCursor::AtFinalExpression(p) => Some(
                layout.final_expression().get_along_path(p.steps()),
            ),
        }
    }

    /// The variables that the expression under the cursor can use: those
    /// defined on earlier lines.
    pub fn get_variables_in_scope<'a>(&self, layout: &'a LexicalLayout) -> (r: &'a [VariableDefinition])
        requires
            cursor_valid(self@, layout.spec_definitions(), layout.spec_final_expression()),
        ensures
            r@ == match self@ {
                CursorView::AtVariableName(i) => layout.spec_definitions().take(i),
                CursorView::AtVariableValue(i, _) => layout.spec_definitions().take(i),
                CursorView::AtFinalExpression(_) => layout.spec_definitions(),
            },
    {
        let defs = layout.variable_definitions();
        match self {
            LexicalLayoutCursor::AtVariableName(i) => {
                let r = vstd::slice::slice_subrange(defs, 0, *i);
                assert(r@ =~= layout.spec_definitions().take(*i as int));
                r
            },
            LexicalLayoutCursor::AtVariableValue(i, _) => {
                let r = vstd::slice::slice_subrange(defs, 0, *i);
                assert(r@ =~= layout.spec_definitions().take(*i as int));
                r
            },
            LexicalLayoutCursor::AtFinalExpression(_) => defs,
        }
    }

    /// Moves to the start of the final expression.
    pub fn go_to_final_expression(&mut self)
        ensures
            final(self)@ == CursorView::AtFinalExpression(Seq::empty()),
    {
        *self = LexicalLayoutCursor::AtFinalExpression(ASTPath::new_at_beginning());
    }
}

} // verus!
