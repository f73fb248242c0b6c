use flosion::ast::{
    ASTNode, ASTNodeValue, ASTPath, InternalASTNode, InternalASTNodeValue, VariableDefinition,
    VariableId,
};
use flosion::cursor::{LexicalLayout, LexicalLayoutCursor, LineLocation};
use flosion::expressiongraph::ExpressionNodeId;

fn var(i: usize) -> ASTNode {
    ASTNode::new(ASTNodeValue::Variable(VariableId(i)))
}

fn prefix(child: ASTNode) -> ASTNode {
    ASTNode::new(ASTNodeValue::Internal(Box::new(InternalASTNode::new(
        InternalASTNodeValue::Prefix(ExpressionNodeId(1), child),
    ))))
}

fn layout() -> LexicalLayout {
    LexicalLayout::new(
        vec![
            VariableDefinition::new("a".to_string(), prefix(var(0))),
            VariableDefinition::new("b".to_string(), var(1)),
        ],
        prefix(prefix(var(2))),
    )
}

fn steps(c: &LexicalLayoutCursor) -> Option<Vec<usize>> {
    c.path().map(|p| p.steps().to_vec())
}

#[test]
fn cursor_moves_right_through_lines() {
    let l = layout();
    let mut c = LexicalLayoutCursor::AtVariableName(0);
    c.go_right(&l);
    assert_eq!(c.line(), LineLocation::VariableDefinition(0));
    assert_eq!(steps(&c), Some(vec![]));
    c.go_right(&l);
    assert_eq!(steps(&c), Some(vec![0]));
    c.go_right(&l);
    assert_eq!(c.line(), LineLocation::VariableDefinition(1));
    assert_eq!(steps(&c), None);
    c.go_right(&l);
    assert_eq!(steps(&c), Some(vec![]));
    c.go_right(&l);
    assert_eq!(c.line(), LineLocation::FinalExpression);
    assert_eq!(steps(&c), Some(vec![]));
    c.go_right(&l);
    assert_eq!(steps(&c), Some(vec![0]));
    c.go_right(&l);
    assert_eq!(steps(&c), Some(vec![0, 0]));
}

#[test]
fn cursor_moves_left_through_lines() {
    let l = layout();
    let mut c = LexicalLayoutCursor::new();
    c.go_left(&l);
    assert_eq!(c.line(), LineLocation::VariableDefinition(1));
    assert_eq!(steps(&c), Some(vec![]));
    c.go_left(&l);
    assert_eq!(steps(&c), None);
    c.go_left(&l);
    assert_eq!(c.line(), LineLocation::VariableDefinition(0));
    assert_eq!(steps(&c), Some(vec![0]));
    c.go_left(&l);
    assert_eq!(steps(&c), Some(vec![]));
    c.go_left(&l);
    assert_eq!(steps(&c), None);
    c.go_left(&l);
    assert_eq!(c.line(), LineLocation::VariableDefinition(0));
    assert_eq!(steps(&c), None);
}

#[test]
fn cursor_moves_up_and_down() {
    let l = layout();
    let mut c = LexicalLayoutCursor::new();
    c.go_down(&l);
    assert_eq!(steps(&c), Some(vec![0, 0]));
    c.go_up(&l);
    assert_eq!(c.line(), LineLocation::VariableDefinition(1));
    assert_eq!(steps(&c), Some(vec![]));
    c.go_up(&l);
    assert_eq!(c.line(), LineLocation::VariableDefinition(0));
    c.go_up(&l);
    assert_eq!(c.line(), LineLocation::VariableDefinition(0));
    c.go_down(&l);
    c.go_down(&l);
    assert_eq!(c.line(), LineLocation::FinalExpression);
    assert_eq!(steps(&c), Some(vec![]));
    let mut n = LexicalLayoutCursor::AtVariableName(1);
    n.go_down(&l);
    assert_eq!(n.line(), LineLocation::FinalExpression);
    n.go_to_final_expression();
    assert_eq!(steps(&n), Some(vec![]));
}

#[test]
fn cursor_node_and_scope() {
    let l = layout();
    let c = LexicalLayoutCursor::AtVariableValue(0, ASTPath::new(vec![0]));
    let node = c.get_node(&l).unwrap();
    assert!(matches!(node.value(), ASTNodeValue::Variable(VariableId(0))));
    assert_eq!(c.get_variables_in_scope(&l).len(), 0);
    let f = LexicalLayoutCursor::new();
    assert_eq!(f.get_variables_in_scope(&l).len(), 2);
    assert!(LexicalLayoutCursor::AtVariableName(1).get_node(&l).is_none());
    assert_eq!(
        LexicalLayoutCursor::AtVariableName(1).get_variables_in_scope(&l)[0].name(),
        "a"
    );
}

#[test]
fn path_end_of_tree() {
    let t = prefix(prefix(var(2)));
    let end = ASTPath::new_at_end_of(&t);
    assert_eq!(end.steps().to_vec(), vec![0, 0]);
    assert!(end.is_at_end_of(&t));
    assert!(!ASTPath::new_at_beginning().is_at_end_of(&t));
    assert!(ASTPath::new_at_beginning().is_at_beginning());
}

fn function(children: Vec<ASTNode>) -> ASTNode {
    ASTNode::new(ASTNodeValue::Internal(Box::new(InternalASTNode::new(
        InternalASTNodeValue::Function(ExpressionNodeId(9), children),
    ))))
}

#[test]
fn left_undoes_right_on_every_node() {
    let tree = function(vec![prefix(var(0)), function(vec![var(1), var(2)]), var(3)]);
    let mut p = ASTPath::new_at_beginning();
    let mut seen = vec![p.steps().to_vec()];
    while !p.is_at_end_of(&tree) {
        let before = p.steps().to_vec();
        p.go_right(&tree);
        let after = p.steps().to_vec();
        let mut q = ASTPath::new(after.clone());
        q.go_left(&tree);
        assert_eq!(q.steps().to_vec(), before);
        seen.push(after);
    }
    assert_eq!(
        seen,
        vec![
            vec![],
            vec![0],
            vec![0, 0],
            vec![1],
            vec![1, 0],
            vec![1, 1],
            vec![2]
        ]
    );
}
