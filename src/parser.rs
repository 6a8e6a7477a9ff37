use vstd::prelude::*;

verus! {

/// A statement of the grammar; only expression statements exist so far.
#[derive(Debug, PartialEq, Eq, Clone, Copy, Structural)]
pub enum Stmt {
    ExprStmt,
}

/// A declaration of the grammar; only class declarations exist so far.
#[derive(Debug, PartialEq, Eq, Clone, Copy, Structural)]
pub enum Decl {
    ClassDecl,
}

/// An expression of the grammar; only assignments exist so far.
#[derive(Debug, PartialEq, Eq, Clone, Copy, Structural)]
pub enum Expr {
    Assign,
}

/// Parses a statement. The grammar is not written yet: every statement is an expression statement.
pub fn parse_statement() -> (r: Stmt)
    ensures
        r == Stmt::ExprStmt,
{
    Stmt::ExprStmt
}

/// Parses a declaration. The grammar is not written yet: every declaration is a class declaration.
pub fn parse_declaration() -> (r: Decl)
    ensures
        r == Decl::ClassDecl,
{
    Decl::ClassDecl
}

/// Parses an expression. The grammar is not written yet: every expression is an assignment.
pub fn parse_expression() -> (r: Expr)
    ensures
        r == Expr::Assign,
{
    Expr::Assign
}

} // verus!
