//! Expression trees over sets of songs, their model, and their encoding.

use vstd::prelude::*;
use crate::format::{
    push_char, push_text, SEPARATOR, SET_START, SET_END, UNION, INTERSECTION, DIFFERENCE,
};
use crate::song::{Song, SongView, views};

verus! {

/// A binary set operation.
#[derive(PartialEq, Eq, Structural, Clone, Copy, Debug)]
pub enum SetOp {
    Union,
    Intersection,
    Difference,
}

/// A leaf of an expression: a literal set of songs, or the name of another set.
#[derive(Debug)]
pub enum SongSet {
    Terminal(Vec<Song>),
    NonTerminal(String),
}

/// The two operands of an operation, each owned by it.
#[derive(Debug)]
pub struct SongTreeNode {
    pub lhs: Box<SongTree>,
    pub rhs: Box<SongTree>,
}

/// An expression: a leaf, or a set operation over two subtrees.
#[derive(Debug)]
pub enum SongTree {
    Operation(SetOp, SongTreeNode),
    Leaf(SongSet),
}

/// The mathematical value of an expression.
pub enum Expr {
    /// A literal set, as the records it lists.
    Items(Seq<SongView>),
    /// A reference to the set of that name.
    Ref(Seq<char>),
    /// An operation and its left and right operands.
    Op(SetOp, Box<Expr>, Box<Expr>),
}

impl SongSet {
    pub open spec fn view(&self) -> Expr {
        match self {
            SongSet::Terminal(v) => Expr::Items(views(v@)),
            SongSet::NonTerminal(n) => Expr::Ref(n@),
        }
    }
}

impl SongTree {
    pub open spec fn view(&self) -> Expr
        decreases self,
    {
        match self {
            SongTree::Operation(op, node) => Expr::Op(
                *op,
                Box::new(node.lhs.view()),
                Box::new(node.rhs.view()),
            ),
            SongTree::Leaf(s) => s.view(),
        }
    }
}

/// The character that encodes `op`.
pub open spec fn op_char(op: SetOp) -> char {
    match op {
        SetOp::Union => UNION,
        SetOp::Intersection => INTERSECTION,
        SetOp::Difference => DIFFERENCE,
    }
}

/// The names of `items`, each followed by a separator.
pub open spec fn encode_names(items: Seq<SongView>) -> Seq<char>
    decreases items.len(),
{
    if items.len() == 0 {
        Seq::empty()
    } else {
        encode_names(items.drop_last()) + items.last().name.push(SEPARATOR)
    }
}

/// The postfix encoding of an expression.
pub open spec fn serialize(e: Expr) -> Seq<char>
    decreases e,
{
    match e {
        Expr::Items(items) => seq![SET_START] + encode_names(items) + seq![SET_END],
        Expr::Ref(name) => name.push(SEPARATOR),
        Expr::Op(op, l, r) => serialize(*l) + serialize(*r) + seq![op_char(op)],
    }
}

impl SetOp {
    /// The character that encodes this operation.
    pub fn to_char(&self) -> (c: char)
        ensures
            c == op_char(*self),
    {
        match self {
            SetOp::Union => UNION,
            SetOp::Intersection => INTERSECTION,
            SetOp::Difference => DIFFERENCE,
        }
    }
}

impl SongSet {
    /// The postfix encoding of this leaf.
    pub fn to_pset_string(&self) -> (r: String)
        ensures
            r@ == serialize(self.view()),
    {
        let mut out = String::new();
        match self {
            SongSet::Terminal(set) => {
                push_char(&mut out, SET_START);
                let mut i: usize = 0;
                while i < set.len()
                    invariant
                        i <= set.len(),
                        out@ == seq![SET_START] + encode_names(views(set@).take(i as int)),
                    decreases set.len() - i,
                {
                    proof {
                        assert(views(set@).take(i + 1).drop_last() =~= views(set@).take(i as int));
                    }
                    push_text(&mut out, set[i].name.as_str());
                    push_char(&mut out, SEPARATOR);
                    i = i + 1;
                }
                push_char(&mut out, SET_END);
                assert(views(set@).take(set.len() as int) =~= views(set@));
            },
            SongSet::NonTerminal(name) => {
                push_text(&mut out, name.as_str());
                push_char(&mut out, SEPARATOR);
            },
        }
        out
    }
}

impl SongTree {
    /// The postfix encoding of this expression.
    pub fn to_pset_string(&self) -> (r: String)
        ensures
            r@ == serialize(self.view()),
        decreases self,
    {
        match self {
            SongTree::Operation(op, node) => {
                let mut out = node.lhs.to_pset_string();
                let right = node.rhs.to_pset_string();
                push_text(&mut out, right.as_str());
                push_char(&mut out, op.to_char());
                out
            },
            SongTree::Leaf(set) => set.to_pset_string(),
        }
    }
}

} // verus!
