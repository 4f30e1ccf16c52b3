//! The function body that the analysis reads: a name-resolved tree of
//! expressions and patterns, held as plain values.
//!
//! Every identifier that stands for a local variable carries the id of the
//! binding that declares it, and every `break` and `continue` carries the id
//! of the loop or block it leaves.
//!
//! The tree has a variant for each construct that the analysis treats in a
//! way of its own. Whatever else a language has is given by what it does to
//! variables: an expression that only evaluates operands is a `Compound`,
//! and a block of inline assembly is a `Block` that holds its input
//! operands followed by one assignment for each output operand.

use vstd::prelude::*;

verus! {

/// A source location, as a half-open range of byte offsets.
#[derive(Clone, Copy, PartialEq, Eq, Structural, Debug)]
pub struct Span {
    pub lo: u32,
    pub hi: u32,
}

/// A pattern.
#[derive(Debug)]
pub struct Pat {
    pub id: u64,
    pub span: Span,
    /// Whether this pattern is the pattern of a struct field written in
    /// shorthand (`S { x }` rather than `S { x: x }`).
    pub shorthand_field: bool,
    pub kind: PatKind,
}

#[derive(Debug)]
pub enum PatKind {
    /// A pattern that binds nothing and has no sub-pattern: a wildcard, a
    /// literal, a range, a path.
    Wild,
    /// `name` or `name @ sub`. The pattern's id is the id of the variable.
    Binding(String, Option<Box<Pat>>),
    /// Sub-patterns that are all matched: the fields of a tuple, a struct, a
    /// tuple struct or a slice, or what a reference or box points to.
    Tuple(Vec<Pat>),
    /// Alternatives, of which one is matched.
    Or(Vec<Pat>),
}

/// One binding of a pattern, as the walk over the pattern meets it.
#[derive(Debug)]
pub struct Binding {
    pub id: u64,
    pub name: String,
    pub span: Span,
    pub is_shorthand: bool,
    /// Whether the binding stands in the first alternative of every
    /// or-pattern around it. Only such a binding declares a variable; one in
    /// a later alternative repeats a name that the first alternative binds.
    pub first: bool,
}

/// An expression.
#[derive(Debug)]
pub struct Expr {
    pub id: u64,
    pub span: Span,
    pub kind: ExprKind,
}

#[derive(Debug)]
pub enum ExprKind {
    /// A path that names the local variable declared by the binding with
    /// this id.
    Local(u64),
    /// An expression that evaluates its operands from left to right and does
    /// nothing to a variable itself: a literal or a path to an item (no
    /// operand), a field access, a unary or binary operator, an index, a
    /// cast, a tuple, an array, a struct literal, a call, a method call, an
    /// overloaded compound assignment. The flag marks a call whose type has
    /// no value: control does not come back from it.
    Compound(Vec<Expr>, bool),
    /// `l && r` or `l || r`.
    Lazy(Box<Expr>, Box<Expr>),
    /// `place = value`.
    Assign(Box<Expr>, Box<Expr>),
    /// `place op= value` on a built-in operator.
    AssignOp(Box<Expr>, Box<Expr>),
    /// `let pat = init;` or `let pat;`.
    Let(Pat, Option<Box<Expr>>),
    /// The statements of a block, its final expression last. The flag says
    /// whether some `break` names this block.
    Block(Vec<Expr>, bool),
    /// `loop { .. }`, with its body.
    Loop(Box<Expr>),
    /// `match scrutinee { arms }`.
    Match(Box<Expr>, Vec<Arm>),
    /// `return` or `return value`.
    Ret(Option<Box<Expr>>),
    /// `break` out of the loop or block with the given id, `None` where the
    /// label was not resolved.
    Break(Option<u64>, Option<Box<Expr>>),
    /// `continue` the loop with the given id.
    Continue(Option<u64>),
    /// A closure.
    Closure(Box<Body>),
}

/// One arm of a `match`.
#[derive(Debug)]
pub struct Arm {
    pub pat: Pat,
    pub guard: Option<Expr>,
    pub body: Expr,
}

/// A variable of an enclosing body that a closure mentions.
#[derive(Debug)]
pub struct Upvar {
    /// The id of the binding that declares the variable.
    pub var: u64,
    pub name: String,
    /// Where the closure mentions the variable.
    pub span: Span,
    /// Captured by reference, as opposed to by value.
    pub by_ref: bool,
}

/// How often a closure may be called.
#[derive(Clone, Copy, PartialEq, Eq, Structural, Debug)]
pub enum ClosureKind {
    Fn,
    FnMut,
    FnOnce,
    Generator,
}

#[derive(Clone, Copy, PartialEq, Eq, Structural, Debug)]
pub enum BodyKind {
    /// A function or a method.
    Fn,
    Closure(ClosureKind),
}

/// A function or closure body.
#[derive(Debug)]
pub struct Body {
    pub kind: BodyKind,
    /// The captured variables; empty for a function.
    pub upvars: Vec<Upvar>,
    pub params: Vec<Pat>,
    pub value: Expr,
}

impl BodyKind {
    /// A closure that can run again and find what an earlier run left in its
    /// captured variables.
    pub open spec fn reentrant(self) -> bool {
        self == BodyKind::Closure(ClosureKind::Fn) || self == BodyKind::Closure(ClosureKind::FnMut)
    }

    #[verifier::when_used_as_spec(reentrant)]
    pub fn is_reentrant(self) -> (r: bool)
        ensures
            r == self.reentrant(),
    {
        match self {
            BodyKind::Closure(ClosureKind::Fn) => true,
            BodyKind::Closure(ClosureKind::FnMut) => true,
            _ => false,
        }
    }
}

/// The bindings of a pattern in the order of a walk that visits a pattern
/// before its sub-patterns, and those from left to right. `first` says
/// whether the pattern itself stands in first alternatives only.
pub open spec fn bindings(pat: Pat, first: bool) -> Seq<Binding>
    decreases pat, 0nat,
{
    match pat.kind {
        PatKind::Wild => Seq::empty(),
        PatKind::Binding(name, sub) => {
            let here = seq![
                Binding { id: pat.id, name, span: pat.span, is_shorthand: pat.shorthand_field, first },
            ];
            match sub {
                Some(p) => here + bindings(*p, first),
                None => here,
            }
        },
        PatKind::Tuple(ps) => bindings_of(ps@, ps@.len(), first, false),
        PatKind::Or(ps) => bindings_of(ps@, ps@.len(), first, true),
    }
}

/// The bindings of the first `n` patterns of `ps`. Where these are the
/// alternatives of an or-pattern, only the first of them keeps `first`.
pub open spec fn bindings_of(ps: Seq<Pat>, n: nat, first: bool, alternatives: bool) -> Seq<Binding>
    decreases ps, n,
{
    if n == 0 || n > ps.len() {
        Seq::empty()
    } else {
        bindings_of(ps, (n - 1) as nat, first, alternatives) + bindings(
            ps[n - 1],
            first && (!alternatives || n == 1),
        )
    }
}

impl Pat {
    /// Appends the bindings of the pattern to `out`.
    pub fn each_binding(&self, first: bool, out: &mut Vec<Binding>)
        ensures
            final(out)@ == old(out)@ + bindings(*self, first),
        decreases self, 0nat,
    {
        match &self.kind {
            PatKind::Wild => {},
            PatKind::Binding(name, sub) => {
                out.push(
                    Binding {
                        id: self.id,
                        name: name.clone(),
                        span: self.span,
                        is_shorthand: self.shorthand_field,
                        first,
                    },
                );
                match sub {
                    Some(p) => {
                        p.each_binding(first, out);
                        assert(final(out)@ =~= old(out)@ + bindings(*self, first));
                    },
                    None => {
                        assert(final(out)@ =~= old(out)@ + bindings(*self, first));
                    },
                }
            },
            PatKind::Tuple(ps) => {
                let mut i: usize = 0;
                while i < ps.len()
                    invariant
                        i <= ps.len(),
                        self.kind == PatKind::Tuple(*ps),
                        out@ == old(out)@ + bindings_of(ps@, i as nat, first, false),
                    decreases ps.len() - i,
                {
                    proof {
                        assert(self.kind->Tuple_0 == *ps);
                        assert(decreases_to!(self => self.kind));
                        assert(decreases_to!(self.kind => self.kind->Tuple_0));
                        assert(decreases_to!(*ps => ps[i as int]));
                    }
                    ps[i].each_binding(first, out);
                    i = i + 1;
                    assert(out@ =~= old(out)@ + bindings_of(ps@, i as nat, first, false));
                }
            },
            PatKind::Or(ps) => {
                let mut i: usize = 0;
                while i < ps.len()
                    invariant
                        i <= ps.len(),
                        self.kind == PatKind::Or(*ps),
                        out@ == old(out)@ + bindings_of(ps@, i as nat, first, true),
                    decreases ps.len() - i,
                {
                    proof {
                        assert(self.kind->Or_0 == *ps);
                        assert(decreases_to!(self => self.kind));
                        assert(decreases_to!(self.kind => self.kind->Or_0));
                        assert(decreases_to!(*ps => ps[i as int]));
                    }
                    ps[i].each_binding(first && i == 0, out);
                    i = i + 1;
                    assert(out@ =~= old(out)@ + bindings_of(ps@, i as nat, first, true));
                }
            },
        }
    }

    /// The bindings of the pattern, those of later alternatives included.
    pub fn bindings(&self) -> (r: Vec<Binding>)
        ensures
            r@ == bindings(*self, true),
    {
        let mut out: Vec<Binding> = Vec::new();
        self.each_binding(true, &mut out);
        assert(out@ =~= bindings(*self, true));
        out
    }
}

} // verus!
