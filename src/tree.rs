use vstd::prelude::*;

verus! {

/// The four arithmetic operators of the notation.
#[derive(Clone, Copy, Debug, PartialEq, Eq, Structural)]
pub enum BinOp {
    Plus,
    Minus,
    Times,
    Slash,
}

/// What is kept of the dice drawn for one roll.
///
/// `Best(k)` and `Worst(k)` with `k` larger than the number of dice keep
/// every die: an over-request is clamped, not rejected.
#[derive(Clone, Copy, Debug, PartialEq, Eq, Structural)]
pub enum Modifier {
    /// Sum of all dice.
    All,
    /// Sum of the `k` highest dice.
    Best(i64),
    /// Sum of the `k` lowest dice.
    Worst(i64),
    /// Twice as many dice, the higher half kept.
    Advantage,
    /// Twice as many dice, the lower half kept.
    Disadvantage,
}

/// Why a notation string could not be evaluated.
#[derive(Clone, Copy, Debug, PartialEq, Eq, Structural)]
pub enum RollError {
    /// The text does not follow the grammar; the character position where
    /// recognition stopped.
    Syntax(usize),
    /// A roll's count evaluated to zero.
    ZeroCount,
    /// A roll's number of sides evaluated to less than one.
    NonPositiveSides,
    /// `best` or `worst` was given a number less than one.
    NonPositiveKeep,
    /// A custom die with no faces.
    NoFaces,
    /// An exploding die with fewer than two sides, which would never stop.
    ExplodingSides,
    /// The operating system gave no entropy to seed the dice.
    NoRandomSource,
    /// A division by zero.
    DivisionByZero,
    /// A result that does not fit in 64 bits.
    Overflow,
}

impl RollError {
    /// True of the errors that come from evaluating a well-formed notation.
    pub open spec fn spec_is_validation(self) -> bool {
        !(self is Syntax)
    }

    pub fn is_validation(&self) -> (r: bool)
        ensures
            r == self.spec_is_validation(),
    {
        !matches!(self, RollError::Syntax(_))
    }

    /// A description of the error for people.
    pub fn message(&self) -> (r: &'static str)
        ensures
            self is Syntax ==> r@ == "syntax error: the notation does not follow the dice grammar"@,
            *self == RollError::ZeroCount ==> r@ == "the number of dice must not be zero"@,
            *self == RollError::NonPositiveSides ==> r@
                == "the number of sides must be greater than zero"@,
            *self == RollError::NonPositiveKeep ==> r@
                == "the number of dice kept must be greater than zero"@,
            *self == RollError::NoFaces ==> r@ == "a custom die must have at least one face"@,
            *self == RollError::ExplodingSides ==> r@
                == "an exploding die must have at least two sides"@,
            *self == RollError::NoRandomSource ==> r@
                == "the operating system gave no entropy to seed the dice"@,
            *self == RollError::DivisionByZero ==> r@ == "division by zero"@,
            *self == RollError::Overflow ==> r@ == "the result does not fit in a 64-bit integer"@,
    {
        match self {
            RollError::Syntax(_) => "syntax error: the notation does not follow the dice grammar",
            RollError::ZeroCount => "the number of dice must not be zero",
            RollError::NonPositiveSides => "the number of sides must be greater than zero",
            RollError::NonPositiveKeep => "the number of dice kept must be greater than zero",
            RollError::NoFaces => "a custom die must have at least one face",
            RollError::ExplodingSides => "an exploding die must have at least two sides",
            RollError::NoRandomSource => "the operating system gave no entropy to seed the dice",
            RollError::DivisionByZero => "division by zero",
            RollError::Overflow => "the result does not fit in a 64-bit integer",
        }
    }
}

/// The mathematical form of a parse tree: custom faces as a sequence.
pub enum Tree {
    /// An integer literal.
    Number(i64),
    /// An arithmetic operation on two sub-trees.
    Binary(BinOp, Box<Tree>, Box<Tree>),
    /// A roll of standard dice: count, sides, modifier.
    Standard(Box<Tree>, Box<Tree>, Modifier),
    /// A roll of custom dice: count, faces in order, modifier.
    Custom(Box<Tree>, Seq<i64>, Modifier),
    /// A parenthesised sub-tree.
    Group(Box<Tree>),
}

/// A parse tree of dice notation.
#[derive(Debug, PartialEq, Eq)]
pub enum Expr {
    /// An integer literal.
    Number(i64),
    /// An arithmetic operation on two sub-expressions.
    Binary(BinOp, Box<Expr>, Box<Expr>),
    /// `count d sides`, both evaluated sub-expressions.
    Standard(Box<Expr>, Box<Expr>, Modifier),
    /// `count d [f1, f2, ...]`, a die with the listed faces.
    Custom(Box<Expr>, Vec<i64>, Modifier),
    /// A parenthesised sub-expression.
    Group(Box<Expr>),
}

impl Expr {
    /// The mathematical form of the tree.
    pub open spec fn tree(self) -> Tree
        decreases self,
    {
        match self {
            Expr::Number(v) => Tree::Number(v),
            Expr::Binary(op, l, r) => Tree::Binary(op, Box::new((*l).tree()), Box::new((*r).tree())),
            Expr::Standard(c, s, m) => Tree::Standard(Box::new((*c).tree()), Box::new((*s).tree()), m),
            Expr::Custom(c, f, m) => Tree::Custom(Box::new((*c).tree()), f@, m),
            Expr::Group(i) => Tree::Group(Box::new((*i).tree())),
        }
    }
}

} // verus!
