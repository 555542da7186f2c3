//! Named propositions and expression trees, with their textual rendering.
//! These are value types only: expressions are evaluated through the
//! reducer and the postfix evaluator, not by walking a tree.

use vstd::prelude::*;
use vstd::string::StringExecFns;

verus! {

/// Relies on `String::push`, which the standard library documents as
/// appending the given character to the end of the string.
pub assume_specification[ String::push ](s: &mut String, ch: char)
    ensures
        final(s)@ == old(s)@.push(ch),
;

/// A boolean value written out.
pub open spec fn bool_chars(b: bool) -> Seq<char> {
    if b {
        seq!['t', 'r', 'u', 'e']
    } else {
        seq!['f', 'a', 'l', 's', 'e']
    }
}

/// A named proposition: a single-letter variable with its truth value.
#[derive(Debug, PartialEq, Eq)]
pub struct Prop {
    pub name: char,
    pub val: bool,
}

impl Prop {
    /// Make a proposition from its name and value.
    pub fn new(id: char, val: bool) -> (p: Prop)
        ensures
            p.name == id,
            p.val == val,
    {
        Prop { name: id, val }
    }

    /// The proposition written out: `(name: value)`.
    pub open spec fn text(&self) -> Seq<char> {
        seq!['(', self.name, ':', ' '] + bool_chars(self.val) + seq![')']
    }

    /// Render the proposition as text.
    pub fn to_text(&self) -> (r: String)
        ensures
            r@ == self.text(),
    {
        let mut s = String::new();
        s.push('(');
        s.push(self.name);
        s.push(':');
        s.push(' ');
        if self.val {
            s.push('t');
            s.push('r');
            s.push('u');
            s.push('e');
        } else {
            s.push('f');
            s.push('a');
            s.push('l');
            s.push('s');
            s.push('e');
        }
        s.push(')');
        proof {
            assert(s@ =~= self.text());
        }
        s
    }
}

/// An expression tree over propositions.
#[derive(Debug, PartialEq, Eq)]
pub enum Expr {
    And(Box<Expr>, Box<Expr>),
    Or(Box<Expr>, Box<Expr>),
    Super(Box<Expr>, Box<Expr>),
    Not(Box<Expr>),
    Prop(Prop),
}

impl Expr {
    /// Wrap a proposition as a leaf expression.
    pub fn from_prop(p: Prop) -> (e: Box<Expr>)
        ensures
            *e == Expr::Prop(p),
    {
        Box::new(Expr::Prop(p))
    }

    /// The expression written out with the usual connective signs, every
    /// binary connective parenthesized.
    pub open spec fn text(&self) -> Seq<char>
        decreases self,
    {
        match self {
            Expr::And(a, b) => seq!['('] + a.text() + seq![' ', '∧', ' '] + b.text() + seq![')'],
            Expr::Or(a, b) => seq!['('] + a.text() + seq![' ', '∨', ' '] + b.text() + seq![')'],
            Expr::Super(a, b) => seq!['('] + a.text() + seq![' ', '⊃', ' '] + b.text() + seq![')'],
            Expr::Not(a) => seq!['¬'] + a.text(),
            Expr::Prop(p) => p.text(),
        }
    }

    /// Render the expression as text.
    pub fn to_text(&self) -> (r: String)
        ensures
            r@ == self.text(),
        decreases self,
    {
        match self {
            Expr::And(a, b) => {
                let mut s = String::new();
                s.push('(');
                let left = a.to_text();
                s.append(left.as_str());
                s.push(' ');
                s.push('∧');
                s.push(' ');
                let right = b.to_text();
                s.append(right.as_str());
                s.push(')');
                proof {
                    assert(s@ =~= self.text());
                }
                s
            },
            Expr::Or(a, b) => {
                let mut s = String::new();
                s.push('(');
                let left = a.to_text();
                s.append(left.as_str());
                s.push(' ');
                s.push('∨');
                s.push(' ');
                let right = b.to_text();
                s.append(right.as_str());
                s.push(')');
                proof {
                    assert(s@ =~= self.text());
                }
                s
            },
            Expr::Super(a, b) => {
                let mut s = String::new();
                s.push('(');
                let left = a.to_text();
                s.append(left.as_str());
                s.push(' ');
                s.push('⊃');
                s.push(' ');
                let right = b.to_text();
                s.append(right.as_str());
                s.push(')');
                proof {
                    assert(s@ =~= self.text());
                }
                s
            },
            Expr::Not(a) => {
                let mut s = String::new();
                s.push('¬');
                let inner = a.to_text();
                s.append(inner.as_str());
                proof {
                    assert(s@ =~= self.text());
                }
                s
            },
            Expr::Prop(p) => p.to_text(),
        }
    }
}

} // verus!
