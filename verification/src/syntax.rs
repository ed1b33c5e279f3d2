//! The syntax tree the evaluator walks: expressions, binary operators,
//! top-level programs, and an inert type grammar reserved for a later
//! type-checking phase.

use vstd::prelude::*;

verus! {

/// A variable name in the source language.
pub type Identify = String;

/// The binary operators of the language: addition, multiplication, and
/// integer comparison.
#[derive(Debug, Clone, Copy)]
pub enum BinOp {
    Plus,
    Mult,
    Lt,
}

/// An expression: a variable reference, an integer or boolean literal, a
/// binary operation, or a conditional.
#[derive(Debug)]
pub enum Exp {
    Var(Identify),
    ILit(i64),
    BLit(bool),
    BinOp(BinOp, Box<Exp>, Box<Exp>),
    IfExp(Box<Exp>, Box<Exp>, Box<Exp>),
}

/// A top-level unit submitted for evaluation; currently a single wrapped
/// expression.
#[derive(Debug)]
pub enum Program {
    Exp(Exp),
}

/// A type variable, numbered.
pub type Tyvar = i64;

/// The type grammar. It is carried as data for a future type-checking phase;
/// the evaluator never consults it.
#[derive(Debug)]
pub enum Ty {
    TyInt,
    TyBool,
    TyVar(Tyvar),
    TyFun(Box<Ty>, Box<Ty>),
    TyList(Box<Ty>),
}

} // verus!
