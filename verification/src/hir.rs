//! The typed expression layer.
//!
//! Expressions carry explicit structural types; every type has a cell size on
//! the tape.  The checker computes each expression's type under a lexical
//! environment, and the compiler lowers a well-typed expression into a
//! stack-machine operation tree, tracking a frame offset for the stack slots
//! of `let` bindings.

use vstd::prelude::*;

use crate::lir;
use crate::mir;
use crate::mir::{Op, OpView};

verus! {

/// A structural type.  `Integer`, `Bool`, `Character` and pointers take one
/// tape cell; `Void` takes none; a tuple takes the sum of its fields; a
/// function type has no size at all — functions exist only as named `let`
/// bindings, never as stored values.
#[derive(Debug, PartialEq, Eq)]
pub enum Type {
    Integer,
    Bool,
    Character,
    Void,

    Pointer(Box<Self>),
    Tuple(Vec<Self>),

    Function(Vec<Self>, Box<Self>),
}

/// The mathematical form of a type, with sequences for the aggregates.
pub ghost enum TypeView {
    Integer,
    Bool,
    Character,
    Void,
    Pointer(Box<TypeView>),
    Tuple(Seq<TypeView>),
    Function(Seq<TypeView>, Box<TypeView>),
}

pub open spec fn type_view(t: Type) -> TypeView
    decreases t,
{
    match t {
        Type::Integer => TypeView::Integer,
        Type::Bool => TypeView::Bool,
        Type::Character => TypeView::Character,
        Type::Void => TypeView::Void,
        Type::Pointer(inner) => TypeView::Pointer(Box::new(type_view(*inner))),
        Type::Tuple(items) => TypeView::Tuple(types_view(items@)),
        Type::Function(args, ret) => TypeView::Function(
            types_view(args@),
            Box::new(type_view(*ret)),
        ),
    }
}

pub open spec fn types_view(ts: Seq<Type>) -> Seq<TypeView>
    decreases ts,
{
    if ts.len() == 0 {
        Seq::empty()
    } else {
        types_view(ts.drop_last()).push(type_view(ts.last()))
    }
}

impl View for Type {
    type V = TypeView;

    open spec fn view(&self) -> TypeView {
        type_view(*self)
    }
}

/// `types_view` maps the sequence element by element.
pub proof fn lemma_types_view_index(ts: Seq<Type>)
    ensures
        types_view(ts).len() == ts.len(),
        forall|i: int| 0 <= i < ts.len() ==> types_view(ts)[i] == type_view(ts[i]),
    decreases ts,
{
    if ts.len() > 0 {
        lemma_types_view_index(ts.drop_last());
    }
}

proof fn lemma_types_view_congruence(a: Seq<Type>, b: Seq<Type>)
    requires
        a.len() == b.len(),
        forall|i: int| 0 <= i < a.len() ==> #[trigger] type_view(a[i]) == type_view(b[i]),
    ensures
        types_view(a) == types_view(b),
{
    lemma_types_view_index(a);
    lemma_types_view_index(b);
    assert(types_view(a) =~= types_view(b));
}

fn clone_type_vec(v: &Vec<Type>) -> (r: Vec<Type>)
    ensures
        r@.len() == v@.len(),
        forall|i: int| 0 <= i < v@.len() ==> #[trigger] type_view(r@[i]) == type_view(v@[i]),
        types_view(r@) == types_view(v@),
    decreases *v,
{
    let mut r: Vec<Type> = Vec::new();
    let mut i: usize = 0;
    while i < v.len()
        invariant
            i <= v@.len(),
            r@.len() == i,
            forall|j: int| 0 <= j < i ==> #[trigger] type_view(r@[j]) == type_view(v@[j]),
        decreases v@.len() - i,
    {
        let c = v[i].clone();
        r.push(c);
        i = i + 1;
    }
    proof {
        lemma_types_view_congruence(r@, v@);
    }
    r
}

impl Clone for Type {
    fn clone(&self) -> (r: Self)
        ensures
            r@ == self@,
        decreases *self,
    {
        match self {
            Type::Integer => Type::Integer,
            Type::Bool => Type::Bool,
            Type::Character => Type::Character,
            Type::Void => Type::Void,
            Type::Pointer(inner) => Type::Pointer(Box::new((**inner).clone())),
            Type::Tuple(items) => Type::Tuple(clone_type_vec(items)),
            Type::Function(args, ret) => Type::Function(
                clone_type_vec(args),
                Box::new((**ret).clone()),
            ),
        }
    }
}

/// The exact cell size of a type, as an unbounded count.  Only meaningful
/// where `has_size` holds; a function type is given zero here but has no
/// size.
pub open spec fn size_of(t: TypeView) -> nat
    decreases t,
{
    match t {
        TypeView::Integer => 1,
        TypeView::Bool => 1,
        TypeView::Character => 1,
        TypeView::Void => 0,
        TypeView::Pointer(_) => 1,
        TypeView::Function(_, _) => 0,
        TypeView::Tuple(items) => sizes_sum(items),
    }
}

pub open spec fn sizes_sum(items: Seq<TypeView>) -> nat
    decreases items,
{
    if items.len() == 0 {
        0
    } else {
        sizes_sum(items.drop_last()) + size_of(items.last())
    }
}

/// Whether a type has a size: function types have none, and a tuple only has
/// one if all its fields do.
pub open spec fn has_size(t: TypeView) -> bool
    decreases t,
{
    match t {
        TypeView::Function(_, _) => false,
        TypeView::Tuple(items) => all_have_size(items),
        _ => true,
    }
}

pub open spec fn all_have_size(items: Seq<TypeView>) -> bool
    decreases items,
{
    if items.len() == 0 {
        true
    } else {
        all_have_size(items.drop_last()) && has_size(items.last())
    }
}

/// The type blamed when a size is asked of a type that has none: the type
/// itself for a function type, or the blame within the first sizeless field
/// of a tuple.
pub open spec fn size_err(t: TypeView) -> TypeView
    decreases t,
{
    match t {
        TypeView::Tuple(items) => size_err_seq(items),
        _ => t,
    }
}

/// The blame within the first element of the sequence that has no size.
pub open spec fn size_err_seq(items: Seq<TypeView>) -> TypeView
    decreases items,
{
    if items.len() == 0 {
        TypeView::Void
    } else if !has_size(items[0]) {
        size_err(items[0])
    } else {
        size_err_seq(items.drop_first())
    }
}

/// A count of cells clamped to what a 32-bit cell index can hold.
pub open spec fn sat32(n: nat) -> u32 {
    if n > u32::MAX {
        u32::MAX
    } else {
        n as u32
    }
}

proof fn lemma_all_have_size_index(items: Seq<TypeView>)
    ensures
        all_have_size(items) <==> (forall|i: int|
            0 <= i < items.len() ==> has_size(#[trigger] items[i])),
    decreases items,
{
    if items.len() > 0 {
        lemma_all_have_size_index(items.drop_last());
        assert(forall|i: int|
            0 <= i < items.len() - 1 ==> items.drop_last()[i] == #[trigger] items[i]);
        assert(items.last() == items[items.len() - 1]);
        if all_have_size(items) {
            assert(forall|i: int| 0 <= i < items.len() ==> has_size(#[trigger] items[i]));
        }
    }
}

} // verus!

verus! {

impl Type {
    /// The cell size of this type, or the offending function type where it
    /// has none.  A size larger than the tape's 32-bit cell index clamps at
    /// the maximum.
    #[verifier::loop_isolation(false)]
    pub fn get_size(&self) -> (r: Result<u32, Error>)
        ensures
            has_size(self@) ==> (r matches Ok(n) && n == sat32(size_of(self@))),
            !has_size(self@) ==> (r matches Err(e) && e@ == ErrorView::SizeOfFunction(
                size_err(self@),
            )),
        decreases *self,
    {
        match self {
            Type::Integer | Type::Bool | Type::Character => Ok(1),
            Type::Void => Ok(0),
            Type::Pointer(_) => Ok(1),
            Type::Function(_, _) => Err(Error::SizeOfFunction(self.clone())),
            Type::Tuple(items) => {
                let ghost iv = types_view(items@);
                let mut size: u32 = 0;
                let mut i: usize = 0;
                while i < items.len()
                    invariant
                        i <= items@.len(),
                        iv == types_view(items@),
                        all_have_size(iv.take(i as int)),
                        size == sat32(sizes_sum(iv.take(i as int))),
                    decreases items@.len() - i,
                {
                    proof {
                        lemma_types_view_index(items@);
                        assert(decreases_to!(*self => items@[i as int]));
                    }
                    match items[i].get_size() {
                        Ok(n) => {
                            size = if size > u32::MAX - n {
                                u32::MAX
                            } else {
                                size + n
                            };
                            i = i + 1;
                            proof {
                                assert(iv.take(i as int).drop_last() =~= iv.take(i as int - 1));
                                assert(iv.take(i as int).last() == iv[i as int - 1]);
                            }
                        },
                        Err(e) => {
                            proof {
                                lemma_all_have_size_index(iv);
                                assert(!has_size(iv[i as int]));
                                assert(!all_have_size(iv));
                                lemma_size_err_at(iv, i as int);
                                assert(self@ == TypeView::Tuple(iv));
                            }
                            return Err(e);
                        },
                    }
                }
                proof {
                    lemma_types_view_index(items@);
                    assert(iv.take(items@.len() as int) =~= iv);
                }
                Ok(size)
            },
        }
    }
}

/// Where the first `i` elements have sizes and the `i`-th does not, the
/// blame for the whole sequence is the blame within the `i`-th element.
proof fn lemma_size_err_at(items: Seq<TypeView>, i: int)
    requires
        0 <= i < items.len(),
        all_have_size(items.take(i)),
        !has_size(items[i]),
    ensures
        size_err_seq(items) == size_err(items[i]),
    decreases i,
{
    lemma_all_have_size_index(items.take(i));
    if i == 0 {
    } else {
        assert(has_size(items[0])) by {
            assert(items.take(i)[0] == items[0]);
        }
        assert(items.drop_first().take(i - 1) =~= items.take(i).drop_first());
        lemma_all_have_size_index(items.take(i).drop_first());
        lemma_size_err_at(items.drop_first(), i - 1);
    }
}

} // verus!

verus! {

/// A typed expression.
///
/// Function values are first-class only via `let`: a function is bound to a
/// name and called or passed by that name; it is never stored in memory.
#[derive(Debug, PartialEq, Eq)]
pub enum Expr {
    Integer(u32),
    Bool(bool),
    Character(char),
    Unit,

    Function(Vec<(String, Type)>, Type, Box<Self>),
    Let(String, Type, Box<Self>, Box<Self>),
    LetInfer(String, Box<Self>, Box<Self>),
    Assign(String, Box<Self>),

    Call(String, Vec<Self>),
    Variable(String),
    Increment(String),
    Decrement(String),

    Refer(String),
    Deref(Box<Self>),
    DerefAssign(Box<Self>, Box<Self>),

    Tuple(Vec<Self>),
    Nth(Box<Self>, u32),

    ReferIndex(Box<Self>, Box<Self>),
    Index(Box<Self>, Box<Self>),
    IndexAssign(Box<Self>, Box<Self>, Box<Self>),

    Add(Box<Self>, Box<Self>),
    Sub(Box<Self>, Box<Self>),
    Mul(Box<Self>, Box<Self>),
    Div(Box<Self>, Box<Self>),

    Or(Box<Self>, Box<Self>),
    And(Box<Self>, Box<Self>),
    Not(Box<Self>),

    Getchar,
    Getnum,
    Putchar(Box<Self>),
    Putnum(Box<Self>),

    Free(Box<Self>),
    Alloc(Box<Self>, Type, Option<Vec<Self>>),

    Block(Vec<Self>),

    While(Box<Self>, Box<Self>),
    If(Box<Self>, Box<Self>),

    Eq(Box<Self>, Box<Self>),
    Neq(Box<Self>, Box<Self>),
}

/// The mathematical form of an expression: names as character sequences,
/// children as sequences.
pub ghost enum ExprView {
    Integer(u32),
    Bool(bool),
    Character(char),
    Unit,
    Function(Seq<(Seq<char>, TypeView)>, TypeView, Box<ExprView>),
    Let(Seq<char>, TypeView, Box<ExprView>, Box<ExprView>),
    LetInfer(Seq<char>, Box<ExprView>, Box<ExprView>),
    Assign(Seq<char>, Box<ExprView>),
    Call(Seq<char>, Seq<ExprView>),
    Variable(Seq<char>),
    Increment(Seq<char>),
    Decrement(Seq<char>),
    Refer(Seq<char>),
    Deref(Box<ExprView>),
    DerefAssign(Box<ExprView>, Box<ExprView>),
    Tuple(Seq<ExprView>),
    Nth(Box<ExprView>, u32),
    ReferIndex(Box<ExprView>, Box<ExprView>),
    Index(Box<ExprView>, Box<ExprView>),
    IndexAssign(Box<ExprView>, Box<ExprView>, Box<ExprView>),
    Add(Box<ExprView>, Box<ExprView>),
    Sub(Box<ExprView>, Box<ExprView>),
    Mul(Box<ExprView>, Box<ExprView>),
    Div(Box<ExprView>, Box<ExprView>),
    Or(Box<ExprView>, Box<ExprView>),
    And(Box<ExprView>, Box<ExprView>),
    Not(Box<ExprView>),
    Getchar,
    Getnum,
    Putchar(Box<ExprView>),
    Putnum(Box<ExprView>),
    Free(Box<ExprView>),
    Alloc(Box<ExprView>, TypeView, Option<Seq<ExprView>>),
    Block(Seq<ExprView>),
    While(Box<ExprView>, Box<ExprView>),
    If(Box<ExprView>, Box<ExprView>),
    Eq(Box<ExprView>, Box<ExprView>),
    Neq(Box<ExprView>, Box<ExprView>),
}

/// The parameter list of a function literal in its mathematical form.
pub open spec fn params_view(s: Seq<(String, Type)>) -> Seq<(Seq<char>, TypeView)> {
    Seq::new(s.len(), |i: int| (s[i].0@, type_view(s[i].1)))
}

pub open spec fn expr_view(e: Expr) -> ExprView
    decreases e,
{
    match e {
        Expr::Integer(n) => ExprView::Integer(n),
        Expr::Bool(b) => ExprView::Bool(b),
        Expr::Character(c) => ExprView::Character(c),
        Expr::Unit => ExprView::Unit,
        Expr::Function(args, ret, body) => ExprView::Function(
            params_view(args@),
            type_view(ret),
            Box::new(expr_view(*body)),
        ),
        Expr::Let(name, t, val, body) => ExprView::Let(
            name@,
            type_view(t),
            Box::new(expr_view(*val)),
            Box::new(expr_view(*body)),
        ),
        Expr::LetInfer(name, val, body) => ExprView::LetInfer(
            name@,
            Box::new(expr_view(*val)),
            Box::new(expr_view(*body)),
        ),
        Expr::Assign(name, val) => ExprView::Assign(name@, Box::new(expr_view(*val))),
        Expr::Call(name, args) => ExprView::Call(name@, exprs_view(args@)),
        Expr::Variable(name) => ExprView::Variable(name@),
        Expr::Increment(name) => ExprView::Increment(name@),
        Expr::Decrement(name) => ExprView::Decrement(name@),
        Expr::Refer(name) => ExprView::Refer(name@),
        Expr::Deref(val) => ExprView::Deref(Box::new(expr_view(*val))),
        Expr::DerefAssign(addr, val) => ExprView::DerefAssign(
            Box::new(expr_view(*addr)),
            Box::new(expr_view(*val)),
        ),
        Expr::Tuple(items) => ExprView::Tuple(exprs_view(items@)),
        Expr::Nth(tup, n) => ExprView::Nth(Box::new(expr_view(*tup)), n),
        Expr::ReferIndex(ptr, idx) => ExprView::ReferIndex(
            Box::new(expr_view(*ptr)),
            Box::new(expr_view(*idx)),
        ),
        Expr::Index(ptr, idx) => ExprView::Index(
            Box::new(expr_view(*ptr)),
            Box::new(expr_view(*idx)),
        ),
        Expr::IndexAssign(ptr, idx, val) => ExprView::IndexAssign(
            Box::new(expr_view(*ptr)),
            Box::new(expr_view(*idx)),
            Box::new(expr_view(*val)),
        ),
        Expr::Add(a, b) => ExprView::Add(Box::new(expr_view(*a)), Box::new(expr_view(*b))),
        Expr::Sub(a, b) => ExprView::Sub(Box::new(expr_view(*a)), Box::new(expr_view(*b))),
        Expr::Mul(a, b) => ExprView::Mul(Box::new(expr_view(*a)), Box::new(expr_view(*b))),
        Expr::Div(a, b) => ExprView::Div(Box::new(expr_view(*a)), Box::new(expr_view(*b))),
        Expr::Or(a, b) => ExprView::Or(Box::new(expr_view(*a)), Box::new(expr_view(*b))),
        Expr::And(a, b) => ExprView::And(Box::new(expr_view(*a)), Box::new(expr_view(*b))),
        Expr::Not(x) => ExprView::Not(Box::new(expr_view(*x))),
        Expr::Getchar => ExprView::Getchar,
        Expr::Getnum => ExprView::Getnum,
        Expr::Putchar(x) => ExprView::Putchar(Box::new(expr_view(*x))),
        Expr::Putnum(x) => ExprView::Putnum(Box::new(expr_view(*x))),
        Expr::Free(x) => ExprView::Free(Box::new(expr_view(*x))),
        Expr::Alloc(count, t, inits) => ExprView::Alloc(
            Box::new(expr_view(*count)),
            type_view(t),
            match inits {
                Option::Some(vals) => Option::Some(exprs_view(vals@)),
                Option::None => Option::None,
            },
        ),
        Expr::Block(items) => ExprView::Block(exprs_view(items@)),
        Expr::While(cond, body) => ExprView::While(
            Box::new(expr_view(*cond)),
            Box::new(expr_view(*body)),
        ),
        Expr::If(cond, body) => ExprView::If(
            Box::new(expr_view(*cond)),
            Box::new(expr_view(*body)),
        ),
        Expr::Eq(a, b) => ExprView::Eq(Box::new(expr_view(*a)), Box::new(expr_view(*b))),
        Expr::Neq(a, b) => ExprView::Neq(Box::new(expr_view(*a)), Box::new(expr_view(*b))),
    }
}

pub open spec fn exprs_view(s: Seq<Expr>) -> Seq<ExprView>
    decreases s,
{
    if s.len() == 0 {
        Seq::empty()
    } else {
        exprs_view(s.drop_last()).push(expr_view(s.last()))
    }
}

impl View for Expr {
    type V = ExprView;

    open spec fn view(&self) -> ExprView {
        expr_view(*self)
    }
}

/// `exprs_view` maps the sequence element by element.
pub proof fn lemma_exprs_view_index(s: Seq<Expr>)
    ensures
        exprs_view(s).len() == s.len(),
        forall|i: int| 0 <= i < s.len() ==> exprs_view(s)[i] == expr_view(s[i]),
    decreases s,
{
    if s.len() > 0 {
        lemma_exprs_view_index(s.drop_last());
    }
}

proof fn lemma_exprs_view_congruence(a: Seq<Expr>, b: Seq<Expr>)
    requires
        a.len() == b.len(),
        forall|i: int| 0 <= i < a.len() ==> #[trigger] expr_view(a[i]) == expr_view(b[i]),
    ensures
        exprs_view(a) == exprs_view(b),
{
    lemma_exprs_view_index(a);
    lemma_exprs_view_index(b);
    assert(exprs_view(a) =~= exprs_view(b));
}

/// An error from type checking or lowering.
#[derive(Debug, PartialEq, Eq)]
pub enum Error {
    VariableNotInScope(String),
    CallNonFunction(String),
    MismatchedTypes(Expr, Type, Type),
    SizeOfFunction(Type),
    DerefNonPointer(Expr, Type),
    NthOfNonTuple(Expr, Type),
    AllocVoid(Expr),
    CmpOfTuple(Expr, Type),

    ParseError(String),
    MIRError(mir::Error),
}

/// The mathematical form of an error.
pub ghost enum ErrorView {
    VariableNotInScope(Seq<char>),
    CallNonFunction(Seq<char>),
    MismatchedTypes(ExprView, TypeView, TypeView),
    SizeOfFunction(TypeView),
    DerefNonPointer(ExprView, TypeView),
    NthOfNonTuple(ExprView, TypeView),
    AllocVoid(ExprView),
    CmpOfTuple(ExprView, TypeView),
    ParseError(Seq<char>),
    MIRError(mir::ErrorView),
}

impl View for Error {
    type V = ErrorView;

    open spec fn view(&self) -> ErrorView {
        match self {
            Error::VariableNotInScope(name) => ErrorView::VariableNotInScope(name@),
            Error::CallNonFunction(name) => ErrorView::CallNonFunction(name@),
            Error::MismatchedTypes(e, expected, found) => ErrorView::MismatchedTypes(
                expr_view(*e),
                type_view(*expected),
                type_view(*found),
            ),
            Error::SizeOfFunction(t) => ErrorView::SizeOfFunction(type_view(*t)),
            Error::DerefNonPointer(e, t) => ErrorView::DerefNonPointer(
                expr_view(*e),
                type_view(*t),
            ),
            Error::NthOfNonTuple(e, t) => ErrorView::NthOfNonTuple(expr_view(*e), type_view(*t)),
            Error::AllocVoid(e) => ErrorView::AllocVoid(expr_view(*e)),
            Error::CmpOfTuple(e, t) => ErrorView::CmpOfTuple(expr_view(*e), type_view(*t)),
            Error::ParseError(msg) => ErrorView::ParseError(msg@),
            Error::MIRError(e) => ErrorView::MIRError(e@),
        }
    }
}

} // verus!

verus! {

fn clone_expr_vec(v: &Vec<Expr>) -> (r: Vec<Expr>)
    ensures
        r@.len() == v@.len(),
        forall|i: int| 0 <= i < v@.len() ==> #[trigger] expr_view(r@[i]) == expr_view(v@[i]),
        exprs_view(r@) == exprs_view(v@),
    decreases *v,
{
    let mut r: Vec<Expr> = Vec::new();
    let mut i: usize = 0;
    while i < v.len()
        invariant
            i <= v@.len(),
            r@.len() == i,
            forall|j: int| 0 <= j < i ==> #[trigger] expr_view(r@[j]) == expr_view(v@[j]),
        decreases v@.len() - i,
    {
        let c = v[i].clone();
        r.push(c);
        i = i + 1;
    }
    proof {
        lemma_exprs_view_congruence(r@, v@);
    }
    r
}

fn clone_params(v: &Vec<(String, Type)>) -> (r: Vec<(String, Type)>)
    ensures
        params_view(r@) == params_view(v@),
    decreases *v,
{
    let mut r: Vec<(String, Type)> = Vec::new();
    let mut i: usize = 0;
    while i < v.len()
        invariant
            i <= v@.len(),
            r@.len() == i,
            forall|j: int|
                0 <= j < i ==> (#[trigger] r@[j]).0@ == v@[j].0@ && type_view(r@[j].1) == type_view(
                    v@[j].1,
                ),
        decreases v@.len() - i,
    {
        let name = v[i].0.clone();
        let t = v[i].1.clone();
        r.push((name, t));
        i = i + 1;
    }
    proof {
        assert(params_view(r@) =~= params_view(v@));
    }
    r
}

impl Clone for Expr {
    fn clone(&self) -> (r: Self)
        ensures
            r@ == self@,
        decreases *self,
    {
        match self {
            Expr::Integer(n) => Expr::Integer(*n),
            Expr::Bool(b) => Expr::Bool(*b),
            Expr::Character(c) => Expr::Character(*c),
            Expr::Unit => Expr::Unit,
            Expr::Function(args, ret, body) => Expr::Function(
                clone_params(args),
                ret.clone(),
                Box::new((**body).clone()),
            ),
            Expr::Let(name, t, val, body) => Expr::Let(
                name.clone(),
                t.clone(),
                Box::new((**val).clone()),
                Box::new((**body).clone()),
            ),
            Expr::LetInfer(name, val, body) => Expr::LetInfer(
                name.clone(),
                Box::new((**val).clone()),
                Box::new((**body).clone()),
            ),
            Expr::Assign(name, val) => Expr::Assign(name.clone(), Box::new((**val).clone())),
            Expr::Call(name, args) => Expr::Call(name.clone(), clone_expr_vec(args)),
            Expr::Variable(name) => Expr::Variable(name.clone()),
            Expr::Increment(name) => Expr::Increment(name.clone()),
            Expr::Decrement(name) => Expr::Decrement(name.clone()),
            Expr::Refer(name) => Expr::Refer(name.clone()),
            Expr::Deref(val) => Expr::Deref(Box::new((**val).clone())),
            Expr::DerefAssign(addr, val) => Expr::DerefAssign(
                Box::new((**addr).clone()),
                Box::new((**val).clone()),
            ),
            Expr::Tuple(items) => Expr::Tuple(clone_expr_vec(items)),
            Expr::Nth(tup, n) => Expr::Nth(Box::new((**tup).clone()), *n),
            Expr::ReferIndex(ptr, idx) => Expr::ReferIndex(
                Box::new((**ptr).clone()),
                Box::new((**idx).clone()),
            ),
            Expr::Index(ptr, idx) => Expr::Index(
                Box::new((**ptr).clone()),
                Box::new((**idx).clone()),
            ),
            Expr::IndexAssign(ptr, idx, val) => Expr::IndexAssign(
                Box::new((**ptr).clone()),
                Box::new((**idx).clone()),
                Box::new((**val).clone()),
            ),
            Expr::Add(a, b) => Expr::Add(Box::new((**a).clone()), Box::new((**b).clone())),
            Expr::Sub(a, b) => Expr::Sub(Box::new((**a).clone()), Box::new((**b).clone())),
            Expr::Mul(a, b) => Expr::Mul(Box::new((**a).clone()), Box::new((**b).clone())),
            Expr::Div(a, b) => Expr::Div(Box::new((**a).clone()), Box::new((**b).clone())),
            Expr::Or(a, b) => Expr::Or(Box::new((**a).clone()), Box::new((**b).clone())),
            Expr::And(a, b) => Expr::And(Box::new((**a).clone()), Box::new((**b).clone())),
            Expr::Not(x) => Expr::Not(Box::new((**x).clone())),
            Expr::Getchar => Expr::Getchar,
            Expr::Getnum => Expr::Getnum,
            Expr::Putchar(x) => Expr::Putchar(Box::new((**x).clone())),
            Expr::Putnum(x) => Expr::Putnum(Box::new((**x).clone())),
            Expr::Free(x) => Expr::Free(Box::new((**x).clone())),
            Expr::Alloc(count, t, inits) => Expr::Alloc(
                Box::new((**count).clone()),
                t.clone(),
                match inits {
                    Option::Some(vals) => Option::Some(clone_expr_vec(vals)),
                    Option::None => Option::None,
                },
            ),
            Expr::Block(items) => Expr::Block(clone_expr_vec(items)),
            Expr::While(cond, body) => Expr::While(
                Box::new((**cond).clone()),
                Box::new((**body).clone()),
            ),
            Expr::If(cond, body) => Expr::If(
                Box::new((**cond).clone()),
                Box::new((**body).clone()),
            ),
            Expr::Eq(a, b) => Expr::Eq(Box::new((**a).clone()), Box::new((**b).clone())),
            Expr::Neq(a, b) => Expr::Neq(Box::new((**a).clone()), Box::new((**b).clone())),
        }
    }
}

/// The type bound to a name: the first entry with that name decides.
pub open spec fn env_lookup(env: Seq<(Seq<char>, TypeView)>, name: Seq<char>) -> Option<TypeView>
    decreases env.len(),
{
    if env.len() == 0 {
        None
    } else if env[0].0 == name {
        Some(env[0].1)
    } else {
        env_lookup(env.drop_first(), name)
    }
}

/// The environment with the name bound to the given type: the first entry of
/// that name is replaced in place, or a new entry is added at the end.
pub open spec fn env_insert(
    env: Seq<(Seq<char>, TypeView)>,
    name: Seq<char>,
    t: TypeView,
) -> Seq<(Seq<char>, TypeView)>
    decreases env.len(),
{
    if env.len() == 0 {
        seq![(name, t)]
    } else if env[0].0 == name {
        seq![(name, t)] + env.drop_first()
    } else {
        seq![env[0]] + env_insert(env.drop_first(), name, t)
    }
}

/// The environment restricted to its function-typed bindings, in order.
/// This is the closure discipline: a function body sees nothing of the
/// enclosing scope but named functions and its own arguments.
pub open spec fn env_fns(env: Seq<(Seq<char>, TypeView)>) -> Seq<(Seq<char>, TypeView)>
    decreases env.len(),
{
    if env.len() == 0 {
        env
    } else {
        env_fns(env.drop_last()) + (if env.last().1 is Function {
            seq![env.last()]
        } else {
            Seq::empty()
        })
    }
}

/// A lexical type environment: a mapping from names to types, extended per
/// binder and cloned rather than shared, so shadowing stays lexical.
#[derive(Debug)]
pub struct TypeEnv {
    entries: Vec<(String, Type)>,
}

impl View for TypeEnv {
    type V = Seq<(Seq<char>, TypeView)>;

    closed spec fn view(&self) -> Seq<(Seq<char>, TypeView)> {
        Seq::new(self.entries@.len(), |i: int| (self.entries@[i].0@, type_view(self.entries@[i].1)))
    }
}

proof fn lemma_env_lookup_at(env: Seq<(Seq<char>, TypeView)>, name: Seq<char>, i: int)
    requires
        0 <= i < env.len(),
        env[i].0 == name,
        forall|j: int| 0 <= j < i ==> (#[trigger] env[j]).0 != name,
    ensures
        env_lookup(env, name) == Some(env[i].1),
    decreases i,
{
    if i > 0 {
        lemma_env_lookup_at(env.drop_first(), name, i - 1);
    }
}

proof fn lemma_env_lookup_none(env: Seq<(Seq<char>, TypeView)>, name: Seq<char>)
    requires
        forall|j: int| 0 <= j < env.len() ==> (#[trigger] env[j]).0 != name,
    ensures
        env_lookup(env, name) is None,
    decreases env.len(),
{
    if env.len() > 0 {
        lemma_env_lookup_none(env.drop_first(), name);
    }
}

proof fn lemma_env_insert_at(env: Seq<(Seq<char>, TypeView)>, name: Seq<char>, t: TypeView, i: int)
    requires
        0 <= i < env.len(),
        env[i].0 == name,
        forall|j: int| 0 <= j < i ==> (#[trigger] env[j]).0 != name,
    ensures
        env_insert(env, name, t) == env.update(i, (name, t)),
    decreases i,
{
    if i == 0 {
        assert(seq![(name, t)] + env.drop_first() =~= env.update(0, (name, t)));
    } else {
        lemma_env_insert_at(env.drop_first(), name, t, i - 1);
        assert(env.drop_first().update(i - 1, (name, t)) =~= env.update(i, (name, t)).drop_first());
        assert(seq![env[0]] + env.update(i, (name, t)).drop_first() =~= env.update(i, (name, t)));
    }
}

proof fn lemma_env_insert_missing(env: Seq<(Seq<char>, TypeView)>, name: Seq<char>, t: TypeView)
    requires
        forall|j: int| 0 <= j < env.len() ==> (#[trigger] env[j]).0 != name,
    ensures
        env_insert(env, name, t) == env.push((name, t)),
    decreases env.len(),
{
    if env.len() == 0 {
        assert(env_insert(env, name, t) =~= env.push((name, t)));
    } else {
        lemma_env_insert_missing(env.drop_first(), name, t);
        assert(seq![env[0]] + env.drop_first().push((name, t)) =~= env.push((name, t)));
    }
}

impl TypeEnv {
    /// The empty environment.
    pub fn new() -> (r: Self)
        ensures
            r@ == Seq::<(Seq<char>, TypeView)>::empty(),
    {
        let r = TypeEnv { entries: Vec::new() };
        proof {
            assert(r@ =~= Seq::<(Seq<char>, TypeView)>::empty());
        }
        r
    }

    /// The type bound to a name, if any.
    pub fn get(&self, name: &String) -> (r: Option<&Type>)
        ensures
            match env_lookup(self@, name@) {
                Some(t) => r matches Some(ty) && type_view(*ty) == t,
                None => r is None,
            },
    {
        let mut i: usize = 0;
        while i < self.entries.len()
            invariant
                i <= self.entries@.len(),
                forall|j: int| 0 <= j < i ==> (#[trigger] self@[j]).0 != name@,
            decreases self.entries@.len() - i,
        {
            if self.entries[i].0 == *name {
                proof {
                    assert(self@[i as int] == (self.entries@[i as int].0@, type_view(
                        self.entries@[i as int].1,
                    )));
                    lemma_env_lookup_at(self@, name@, i as int);
                }
                return Some(&self.entries[i].1);
            }
            i = i + 1;
            proof {
                assert(self@[i as int - 1] == (self.entries@[i as int - 1].0@, type_view(
                    self.entries@[i as int - 1].1,
                )));
            }
        }
        proof {
            lemma_env_lookup_none(self@, name@);
        }
        None
    }

    /// Binds a name to a type, replacing any earlier binding of that name.
    pub fn insert(&mut self, name: String, t: Type)
        ensures
            final(self)@ == env_insert(old(self)@, name@, type_view(t)),
    {
        let ghost gname = name@;
        let ghost gt = type_view(t);
        let mut i: usize = 0;
        while i < self.entries.len()
            invariant
                *self == *old(self),
                name@ == gname,
                type_view(t) == gt,
                i <= self.entries@.len(),
                forall|j: int| 0 <= j < i ==> (#[trigger] self@[j]).0 != gname,
            decreases self.entries@.len() - i,
        {
            let same = self.entries[i].0 == name;
            proof {
                assert(self@[i as int] == (self.entries@[i as int].0@, type_view(
                    self.entries@[i as int].1,
                )));
            }
            if same {
                proof {
                    lemma_env_insert_at(self@, gname, gt, i as int);
                }
                self.entries.remove(i);
                self.entries.insert(i, (name, t));
                proof {
                    assert(self@ =~= old(self)@.update(i as int, (gname, gt)));
                }
                return ;
            }
            i = i + 1;
        }
        proof {
            lemma_env_insert_missing(self@, gname, gt);
        }
        self.entries.push((name, t));
        proof {
            assert(self@ =~= old(self)@.push((gname, gt)));
        }
    }

    /// The environment keeping only the function-typed bindings.
    pub fn functions_only(&self) -> (r: Self)
        ensures
            r@ == env_fns(self@),
    {
        let mut r = TypeEnv { entries: Vec::new() };
        let mut i: usize = 0;
        proof {
            assert(r@ =~= env_fns(self@.take(0)));
        }
        while i < self.entries.len()
            invariant
                i <= self.entries@.len(),
                r@ == env_fns(self@.take(i as int)),
            decreases self.entries@.len() - i,
        {
            proof {
                assert(self@[i as int] == (self.entries@[i as int].0@, type_view(
                    self.entries@[i as int].1,
                )));
                assert(self@.take(i as int + 1).drop_last() =~= self@.take(i as int));
                assert(self@.take(i as int + 1).last() == self@[i as int]);
            }
            let keep = matches!(self.entries[i].1, Type::Function(_, _));
            if keep {
                let name = self.entries[i].0.clone();
                let t = self.entries[i].1.clone();
                r.entries.push((name, t));
                proof {
                    assert(r@ =~= env_fns(self@.take(i as int)) + seq![self@[i as int]]);
                }
            } else {
                proof {
                    assert(env_fns(self@.take(i as int + 1)) =~= env_fns(self@.take(i as int)));
                }
            }
            i = i + 1;
        }
        proof {
            assert(self@.take(self.entries@.len() as int) =~= self@);
        }
        r
    }
}

impl Clone for TypeEnv {
    fn clone(&self) -> (r: Self)
        ensures
            r@ == self@,
    {
        let mut entries: Vec<(String, Type)> = Vec::new();
        let mut i: usize = 0;
        while i < self.entries.len()
            invariant
                i <= self.entries@.len(),
                entries@.len() == i,
                forall|j: int|
                    0 <= j < i ==> (#[trigger] entries@[j]).0@ == self.entries@[j].0@ && type_view(
                        entries@[j].1,
                    ) == type_view(self.entries@[j].1),
            decreases self.entries@.len() - i,
        {
            let name = self.entries[i].0.clone();
            let t = self.entries[i].1.clone();
            entries.push((name, t));
            i = i + 1;
        }
        let r = TypeEnv { entries };
        proof {
            assert(r@ =~= self@);
        }
        r
    }
}

} // verus!

verus! {

/// The `n`-th field of a tuple type, with the summed size of the fields
/// before it — the field's offset within the tuple's cells.  Only a tuple
/// has fields; the offset only exists when every earlier field has a size.
pub open spec fn nth_of(t: TypeView, n: int) -> Option<(TypeView, nat)> {
    match t {
        TypeView::Tuple(items) => if 0 <= n < items.len() && all_have_size(items.take(n)) {
            Some((items[n], sizes_sum(items.take(n))))
        } else {
            None
        },
        _ => None,
    }
}

impl Type {
    /// The `n`-th field of this tuple type and its cell offset, or nothing
    /// if this is not a tuple, the index is out of range, or an earlier
    /// field has no size.
    #[verifier::loop_isolation(false)]
    pub fn nth(&self, n: u32) -> (r: Option<(&Type, u32)>)
        ensures
            match nth_of(self@, n as int) {
                Some(pr) => r matches Some(pair) && type_view(*pair.0) == pr.0 && pair.1 == sat32(
                    pr.1,
                ),
                None => r is None,
            },
    {
        match self {
            Type::Tuple(items) => {
                let ghost iv = types_view(items@);
                proof {
                    lemma_types_view_index(items@);
                }
                if (n as usize) < items.len() {
                    let mut size_before: u32 = 0;
                    let mut i: usize = 0;
                    while i < (n as usize)
                        invariant
                            i <= n as usize,
                            all_have_size(iv.take(i as int)),
                            size_before == sat32(sizes_sum(iv.take(i as int))),
                        decreases n as usize - i,
                    {
                        proof {
                            assert(decreases_to!(*self => items@[i as int]));
                        }
                        match items[i].get_size() {
                            Ok(sz) => {
                                size_before = if size_before > u32::MAX - sz {
                                    u32::MAX
                                } else {
                                    size_before + sz
                                };
                                i = i + 1;
                                proof {
                                    assert(iv.take(i as int).drop_last() =~= iv.take(i as int - 1));
                                    assert(iv.take(i as int).last() == iv[i as int - 1]);
                                }
                            },
                            Err(_) => {
                                proof {
                                    lemma_all_have_size_index(iv.take(n as int));
                                    assert(iv.take(n as int)[i as int] == iv[i as int]);
                                }
                                return None;
                            },
                        }
                    }
                    Some((&items[n as usize], size_before))
                } else {
                    None
                }
            },
            _ => None,
        }
    }
}

} // verus!

verus! {

/// A termination weight for expressions.  Index forms weigh more because
/// compiling them rewrites into a slightly larger pointer-arithmetic tree;
/// `LetInfer` weighs more because it compiles through the explicit `Let` it
/// abbreviates.
pub open spec fn ewt(v: ExprView) -> nat
    decreases v,
{
    match v {
        ExprView::Increment(_) => 2,
        ExprView::Decrement(_) => 2,
        ExprView::Index(p, i) => 9 + ewt(*p) + ewt(*i),
        ExprView::ReferIndex(p, i) => 9 + ewt(*p) + ewt(*i),
        ExprView::IndexAssign(p, i, v2) => 9 + ewt(*p) + ewt(*i) + ewt(*v2),
        ExprView::LetInfer(_, e, b) => 5 + ewt(*e) + ewt(*b),
        ExprView::Integer(_) => 1,
        ExprView::Bool(_) => 1,
        ExprView::Character(_) => 1,
        ExprView::Unit => 1,
        ExprView::Getchar => 1,
        ExprView::Getnum => 1,
        ExprView::Variable(_) => 1,
        ExprView::Refer(_) => 1,
        ExprView::Function(_, _, body) => 2 + ewt(*body),
        ExprView::Let(_, _, val, body) => 2 + ewt(*val) + ewt(*body),
        ExprView::Assign(_, val) => 2 + ewt(*val),
        ExprView::Call(_, args) => 2 + ewts(args),
        ExprView::Deref(x) => 2 + ewt(*x),
        ExprView::DerefAssign(a, b) => 2 + ewt(*a) + ewt(*b),
        ExprView::Tuple(items) => 2 + ewts(items),
        ExprView::Nth(t, _) => 2 + ewt(*t),
        ExprView::Add(a, b) => 2 + ewt(*a) + ewt(*b),
        ExprView::Sub(a, b) => 2 + ewt(*a) + ewt(*b),
        ExprView::Mul(a, b) => 2 + ewt(*a) + ewt(*b),
        ExprView::Div(a, b) => 2 + ewt(*a) + ewt(*b),
        ExprView::Or(a, b) => 2 + ewt(*a) + ewt(*b),
        ExprView::And(a, b) => 2 + ewt(*a) + ewt(*b),
        ExprView::Not(x) => 2 + ewt(*x),
        ExprView::Putchar(x) => 2 + ewt(*x),
        ExprView::Putnum(x) => 2 + ewt(*x),
        ExprView::Free(x) => 2 + ewt(*x),
        ExprView::Alloc(count, _, inits) => 2 + ewt(*count) + (match inits {
            Some(vals) => ewts(vals),
            None => 0,
        }),
        ExprView::Block(items) => 2 + ewts(items),
        ExprView::While(c, b) => 2 + ewt(*c) + ewt(*b),
        ExprView::If(c, b) => 2 + ewt(*c) + ewt(*b),
        ExprView::Eq(a, b) => 2 + ewt(*a) + ewt(*b),
        ExprView::Neq(a, b) => 2 + ewt(*a) + ewt(*b),
    }
}

pub open spec fn ewts(s: Seq<ExprView>) -> nat
    decreases s,
{
    if s.len() == 0 {
        0
    } else {
        ewts(s.drop_last()) + ewt(s.last())
    }
}

proof fn lemma_ewt_pos(v: ExprView)
    ensures
        ewt(v) >= 1,
{
}

proof fn lemma_ewts_elem(s: Seq<ExprView>, i: int)
    requires
        0 <= i < s.len(),
    ensures
        ewt(s[i]) <= ewts(s),
    decreases s.len(),
{
    if i == s.len() - 1 {
    } else {
        lemma_ewts_elem(s.drop_last(), i);
    }
}

proof fn lemma_ewts_drop_first(s: Seq<ExprView>)
    requires
        s.len() > 0,
    ensures
        ewts(s) == ewt(s[0]) + ewts(s.drop_first()),
    decreases s.len(),
{
    if s.len() == 1 {
        assert(s.drop_last() =~= Seq::<ExprView>::empty());
        assert(s.drop_first() =~= Seq::<ExprView>::empty());
    } else {
        lemma_ewts_drop_first(s.drop_last());
        assert(s.drop_last()[0] == s[0]);
        assert(s.drop_first().drop_last() =~= s.drop_last().drop_first());
        assert(s.drop_first().last() == s.last());
    }
}

/// The environment extended with a parameter list, first to last.
pub open spec fn env_insert_params(
    env: Seq<(Seq<char>, TypeView)>,
    params: Seq<(Seq<char>, TypeView)>,
) -> Seq<(Seq<char>, TypeView)>
    decreases params.len(),
{
    if params.len() == 0 {
        env
    } else {
        env_insert(
            env_insert_params(env, params.drop_last()),
            params.last().0,
            params.last().1,
        )
    }
}

/// The declared types of a parameter list.
pub open spec fn param_types(params: Seq<(Seq<char>, TypeView)>) -> Seq<TypeView> {
    Seq::new(params.len(), |i: int| params[i].1)
}

} // verus!

verus! {

/// The type of an expression under an environment, or the first error the
/// checker reports.  This is the typing discipline in full: every rule of
/// the checker is a case here, and `Expr::get_type` returns exactly this.
pub open spec fn type_of(ev: ExprView, env: Seq<(Seq<char>, TypeView)>) -> Result<
    TypeView,
    ErrorView,
>
    decreases ewt(ev), 0nat,
    via type_of_dec
{
    match ev {
        ExprView::Integer(_) => Ok(TypeView::Integer),
        ExprView::Bool(_) => Ok(TypeView::Bool),
        ExprView::Character(_) => Ok(TypeView::Character),
        ExprView::Unit => Ok(TypeView::Void),
        ExprView::Getnum => Ok(TypeView::Integer),
        ExprView::Getchar => Ok(TypeView::Character),
        ExprView::Variable(name) => match env_lookup(env, name) {
            Some(t) => Ok(t),
            None => Err(ErrorView::VariableNotInScope(name)),
        },
        ExprView::Refer(name) => match env_lookup(env, name) {
            Some(t) => if !has_size(t) {
                Err(ErrorView::SizeOfFunction(size_err(t)))
            } else {
                Ok(TypeView::Pointer(Box::new(t)))
            },
            None => Err(ErrorView::VariableNotInScope(name)),
        },
        ExprView::Increment(name) => match env_lookup(env, name) {
            Some(t) => if t != TypeView::Integer {
                Err(ErrorView::MismatchedTypes(ev, TypeView::Integer, t))
            } else {
                Ok(TypeView::Void)
            },
            None => Err(ErrorView::VariableNotInScope(name)),
        },
        ExprView::Decrement(name) => match env_lookup(env, name) {
            Some(t) => if t != TypeView::Integer {
                Err(ErrorView::MismatchedTypes(ev, TypeView::Integer, t))
            } else {
                Ok(TypeView::Void)
            },
            None => Err(ErrorView::VariableNotInScope(name)),
        },
        ExprView::Deref(value) => match type_of(*value, env) {
            Err(e) => Err(e),
            Ok(pt) => match pt {
                TypeView::Pointer(t) => if !has_size(*t) {
                    Err(ErrorView::SizeOfFunction(size_err(*t)))
                } else {
                    Ok(*t)
                },
                _ => Err(ErrorView::DerefNonPointer(ev, pt)),
            },
        },
        ExprView::DerefAssign(addr, value) => match type_of(ExprView::Deref(addr), env) {
            Err(e) => Err(e),
            Ok(_) => match type_of(*value, env) {
                Err(e) => Err(e),
                Ok(vt) => match type_of(*addr, env) {
                    Err(e) => Err(e),
                    Ok(pt) => match pt {
                        TypeView::Pointer(t) => if !has_size(*t) {
                            Err(ErrorView::SizeOfFunction(size_err(*t)))
                        } else if *t != vt {
                            Err(ErrorView::MismatchedTypes(ev, *t, vt))
                        } else {
                            Ok(TypeView::Void)
                        },
                        _ => Err(ErrorView::DerefNonPointer(ev, pt)),
                    },
                },
            },
        },
        ExprView::Tuple(items) => match types_of(items, env) {
            Err(e) => Err(e),
            Ok(ts) => Ok(TypeView::Tuple(ts)),
        },
        ExprView::Nth(tup, n) => match type_of(*tup, env) {
            Err(e) => Err(e),
            Ok(tt) => match nth_of(tt, n as int) {
                Some(pr) => Ok(pr.0),
                None => Err(ErrorView::NthOfNonTuple(ev, tt)),
            },
        },
        ExprView::Index(ptr, idx) => match type_of(*ptr, env) {
            Err(e) => Err(e),
            Ok(pt) => match type_of(*idx, env) {
                Err(e) => Err(e),
                Ok(it) => match pt {
                    TypeView::Pointer(val) => if it != TypeView::Integer {
                        Err(ErrorView::MismatchedTypes(ev, TypeView::Integer, it))
                    } else {
                        Ok(*val)
                    },
                    _ => Err(ErrorView::DerefNonPointer(ev, pt)),
                },
            },
        },
        ExprView::ReferIndex(ptr, idx) => match type_of(*ptr, env) {
            Err(e) => Err(e),
            Ok(pt) => match type_of(*idx, env) {
                Err(e) => Err(e),
                Ok(it) => match pt {
                    TypeView::Pointer(_) => if it != TypeView::Integer {
                        Err(ErrorView::MismatchedTypes(ev, TypeView::Integer, it))
                    } else {
                        Ok(pt)
                    },
                    _ => Err(ErrorView::DerefNonPointer(ev, pt)),
                },
            },
        },
        ExprView::IndexAssign(ptr, idx, val) => match type_of(*ptr, env) {
            Err(e) => Err(e),
            Ok(pt) => match type_of(*idx, env) {
                Err(e) => Err(e),
                Ok(it) => match type_of(*val, env) {
                    Err(e) => Err(e),
                    Ok(vt) => match pt {
                        TypeView::Pointer(pv) => if it != TypeView::Integer {
                            Err(ErrorView::MismatchedTypes(ev, TypeView::Integer, it))
                        } else if vt != *pv {
                            Err(ErrorView::MismatchedTypes(ev, *pv, vt))
                        } else {
                            Ok(TypeView::Void)
                        },
                        _ => Err(ErrorView::DerefNonPointer(ev, pt)),
                    },
                },
            },
        },
        ExprView::Free(x) => match type_of(*x, env) {
            Err(e) => Err(e),
            Ok(xt) => match xt {
                TypeView::Pointer(t) => if !has_size(*t) {
                    Err(ErrorView::SizeOfFunction(size_err(*t)))
                } else {
                    Ok(TypeView::Void)
                },
                _ => Err(
                    ErrorView::MismatchedTypes(
                        ev,
                        TypeView::Pointer(Box::new(TypeView::Void)),
                        xt,
                    ),
                ),
            },
        },
        ExprView::Alloc(count, t, inits) => match type_of(*count, env) {
            Err(e) => Err(e),
            Ok(ct) => if ct != TypeView::Integer {
                Err(ErrorView::MismatchedTypes(ev, TypeView::Integer, ct))
            } else if t == TypeView::Void {
                Err(ErrorView::AllocVoid(ev))
            } else {
                match inits {
                    Some(vals) => match check_inits(vals, t, ev, env) {
                        Some(e) => Err(e),
                        None => Ok(TypeView::Pointer(Box::new(t))),
                    },
                    None => Ok(TypeView::Pointer(Box::new(t))),
                }
            },
        },
        ExprView::Block(items) => match types_of(items, env) {
            Err(e) => Err(e),
            Ok(ts) => Ok(
                if ts.len() == 0 {
                    TypeView::Void
                } else {
                    ts.last()
                },
            ),
        },
        ExprView::If(cond, body) => match type_of(*cond, env) {
            Err(e) => Err(e),
            Ok(ct) => match type_of(*body, env) {
                Err(e) => Err(e),
                Ok(bt) => if ct != TypeView::Bool {
                    Err(ErrorView::MismatchedTypes(ev, TypeView::Bool, ct))
                } else if bt != TypeView::Void {
                    Err(ErrorView::MismatchedTypes(ev, TypeView::Void, bt))
                } else {
                    Ok(TypeView::Void)
                },
            },
        },
        ExprView::While(cond, body) => match type_of(*cond, env) {
            Err(e) => Err(e),
            Ok(ct) => match type_of(*body, env) {
                Err(e) => Err(e),
                Ok(bt) => if ct != TypeView::Bool {
                    Err(ErrorView::MismatchedTypes(ev, TypeView::Bool, ct))
                } else if bt != TypeView::Void {
                    Err(ErrorView::MismatchedTypes(ev, TypeView::Void, bt))
                } else {
                    Ok(TypeView::Void)
                },
            },
        },
        ExprView::Function(params, ret, body) => {
            let inner_env = env_insert_params(env_fns(env), params);
            match type_of(*body, inner_env) {
                Err(e) => Err(e),
                Ok(bt) => if bt != ret {
                    Err(ErrorView::MismatchedTypes(ev, ret, bt))
                } else {
                    Ok(TypeView::Function(param_types(params), Box::new(ret)))
                },
            }
        },
        ExprView::Call(name, args) => match env_lookup(env, name) {
            Some(t) => match t {
                TypeView::Function(params, ret) => if params.len() != args.len() {
                    Err(ErrorView::MismatchedTypes(ev, t, TypeView::Void))
                } else {
                    match check_args(params, args, ev, env) {
                        Some(e) => Err(e),
                        None => Ok(*ret),
                    }
                },
                _ => Err(ErrorView::CallNonFunction(name)),
            },
            None => Err(ErrorView::VariableNotInScope(name)),
        },
        ExprView::Let(name, t, val, body) => type_of_let(ev, name, t, *val, *body, env),
        ExprView::LetInfer(name, val, body) => match type_of(*val, env) {
            Err(e) => Err(e),
            Ok(te) => type_of_let(
                ExprView::Let(name, te, val, body),
                name,
                te,
                *val,
                *body,
                env,
            ),
        },
        ExprView::Assign(name, e) => match env_lookup(env, name) {
            Some(vt) => match type_of(*e, env) {
                Err(er) => Err(er),
                Ok(et) => if vt != et {
                    Err(ErrorView::MismatchedTypes(ev, vt, et))
                } else {
                    Ok(TypeView::Void)
                },
            },
            None => Err(ErrorView::VariableNotInScope(name)),
        },
        ExprView::Add(a, b) => match type_of(*a, env) {
            Err(e) => Err(e),
            Ok(at) => match type_of(*b, env) {
                Err(e) => Err(e),
                Ok(bt) => if at == TypeView::Integer && bt == TypeView::Integer {
                    Ok(TypeView::Integer)
                } else if at matches TypeView::Pointer(_) && bt == TypeView::Integer {
                    Ok(at)
                } else {
                    Err(ErrorView::MismatchedTypes(ev, at, bt))
                },
            },
        },
        ExprView::Sub(a, b) => type_of_int_pair(ev, *a, *b, env),
        ExprView::Mul(a, b) => type_of_int_pair(ev, *a, *b, env),
        ExprView::Div(a, b) => type_of_int_pair(ev, *a, *b, env),
        ExprView::And(a, b) => type_of_bool_pair(ev, *a, *b, env),
        ExprView::Or(a, b) => type_of_bool_pair(ev, *a, *b, env),
        ExprView::Not(x) => match type_of(*x, env) {
            Err(e) => Err(e),
            Ok(xt) => if xt != TypeView::Bool {
                Err(ErrorView::MismatchedTypes(ev, TypeView::Bool, xt))
            } else {
                Ok(TypeView::Bool)
            },
        },
        ExprView::Putchar(x) => match type_of(*x, env) {
            Err(e) => Err(e),
            Ok(xt) => if xt != TypeView::Character {
                Err(ErrorView::MismatchedTypes(ev, TypeView::Character, xt))
            } else {
                Ok(TypeView::Void)
            },
        },
        ExprView::Putnum(x) => match type_of(*x, env) {
            Err(e) => Err(e),
            Ok(xt) => if xt != TypeView::Integer && !(xt matches TypeView::Pointer(_)) {
                Err(ErrorView::MismatchedTypes(ev, TypeView::Integer, xt))
            } else {
                Ok(TypeView::Void)
            },
        },
        ExprView::Eq(a, b) => type_of_cmp(ev, *a, *b, env),
        ExprView::Neq(a, b) => type_of_cmp(ev, *a, *b, env),
    }
}

/// A `let` binding's type: the bound name is in scope both in the value —
/// functions may call themselves — and in the body.
pub open spec fn type_of_let(
    whole: ExprView,
    name: Seq<char>,
    t: TypeView,
    val: ExprView,
    body: ExprView,
    env: Seq<(Seq<char>, TypeView)>,
) -> Result<TypeView, ErrorView>
    decreases 1 + ewt(val) + ewt(body), 0nat,
    via type_of_let_dec
{
    let env2 = env_insert(env, name, t);
    match type_of(val, env2) {
        Err(e) => Err(e),
        Ok(vt) => if vt != t {
            Err(ErrorView::MismatchedTypes(whole, t, vt))
        } else {
            type_of(body, env2)
        },
    }
}

/// The types of a sequence of expressions, or the first error among them.
pub open spec fn types_of(items: Seq<ExprView>, env: Seq<(Seq<char>, TypeView)>) -> Result<
    Seq<TypeView>,
    ErrorView,
>
    decreases 1 + ewts(items), 0nat,
    via types_of_dec
{
    if items.len() == 0 {
        Ok(Seq::empty())
    } else {
        match types_of(items.drop_last(), env) {
            Err(e) => Err(e),
            Ok(ts) => match type_of(items.last(), env) {
                Err(e) => Err(e),
                Ok(t) => Ok(ts.push(t)),
            },
        }
    }
}

/// Call arguments checked against parameter types in order: the first
/// ill-typed or mismatched argument is reported against the call.
pub open spec fn check_args(
    params: Seq<TypeView>,
    args: Seq<ExprView>,
    whole: ExprView,
    env: Seq<(Seq<char>, TypeView)>,
) -> Option<ErrorView>
    recommends
        params.len() == args.len(),
    decreases 1 + ewts(args), 0nat,
    via check_args_dec
{
    if args.len() == 0 {
        None
    } else {
        match type_of(args[0], env) {
            Err(e) => Some(e),
            Ok(bt) => if params[0] != bt {
                Some(ErrorView::MismatchedTypes(whole, params[0], bt))
            } else {
                check_args(params.drop_first(), args.drop_first(), whole, env)
            },
        }
    }
}

/// Allocation initializers checked against the element type in order.
pub open spec fn check_inits(
    vals: Seq<ExprView>,
    t: TypeView,
    whole: ExprView,
    env: Seq<(Seq<char>, TypeView)>,
) -> Option<ErrorView>
    decreases 1 + ewts(vals), 0nat,
    via check_inits_dec
{
    if vals.len() == 0 {
        None
    } else {
        match type_of(vals[0], env) {
            Err(e) => Some(e),
            Ok(vt) => if vt != t {
                Some(ErrorView::MismatchedTypes(whole, t, vt))
            } else {
                check_inits(vals.drop_first(), t, whole, env)
            },
        }
    }
}

/// Both operands must be integers; the result is an integer.
pub open spec fn type_of_int_pair(
    whole: ExprView,
    a: ExprView,
    b: ExprView,
    env: Seq<(Seq<char>, TypeView)>,
) -> Result<TypeView, ErrorView>
    decreases 1 + ewt(a) + ewt(b), 0nat,
    via type_of_int_pair_dec
{
    match type_of(a, env) {
        Err(e) => Err(e),
        Ok(at) => match type_of(b, env) {
            Err(e) => Err(e),
            Ok(bt) => if at != TypeView::Integer {
                Err(ErrorView::MismatchedTypes(whole, TypeView::Integer, at))
            } else if bt != TypeView::Integer {
                Err(ErrorView::MismatchedTypes(whole, TypeView::Integer, bt))
            } else {
                Ok(TypeView::Integer)
            },
        },
    }
}

/// Both operands must be booleans; the result is a boolean.
pub open spec fn type_of_bool_pair(
    whole: ExprView,
    a: ExprView,
    b: ExprView,
    env: Seq<(Seq<char>, TypeView)>,
) -> Result<TypeView, ErrorView>
    decreases 1 + ewt(a) + ewt(b), 0nat,
    via type_of_bool_pair_dec
{
    match type_of(a, env) {
        Err(e) => Err(e),
        Ok(at) => match type_of(b, env) {
            Err(e) => Err(e),
            Ok(bt) => if at != TypeView::Bool {
                Err(ErrorView::MismatchedTypes(whole, TypeView::Bool, at))
            } else if bt != TypeView::Bool {
                Err(ErrorView::MismatchedTypes(whole, TypeView::Bool, bt))
            } else {
                Ok(TypeView::Bool)
            },
        },
    }
}

/// Comparison operands must share a type, and tuples cannot be compared;
/// the result is a boolean.
pub open spec fn type_of_cmp(
    whole: ExprView,
    a: ExprView,
    b: ExprView,
    env: Seq<(Seq<char>, TypeView)>,
) -> Result<TypeView, ErrorView>
    decreases 1 + ewt(a) + ewt(b), 0nat,
    via type_of_cmp_dec
{
    match type_of(a, env) {
        Err(e) => Err(e),
        Ok(at) => match type_of(b, env) {
            Err(e) => Err(e),
            Ok(bt) => if at != bt {
                Err(ErrorView::MismatchedTypes(whole, at, bt))
            } else if at matches TypeView::Tuple(_) {
                Err(ErrorView::CmpOfTuple(whole, at))
            } else {
                Ok(TypeView::Bool)
            },
        },
    }
}

#[via_fn]
proof fn type_of_dec(ev: ExprView, env: Seq<(Seq<char>, TypeView)>) {
    match ev {
        ExprView::DerefAssign(addr, value) => {
            lemma_ewt_pos(*value);
        },
        ExprView::Alloc(count, t, inits) => {
            lemma_ewt_pos(*count);
        },
        ExprView::LetInfer(name, val, body) => {
            lemma_ewt_pos(*val);
            lemma_ewt_pos(*body);
        },
        _ => {},
    }
}

#[via_fn]
proof fn type_of_let_dec(
    whole: ExprView,
    name: Seq<char>,
    t: TypeView,
    val: ExprView,
    body: ExprView,
    env: Seq<(Seq<char>, TypeView)>,
) {
    lemma_ewt_pos(val);
    lemma_ewt_pos(body);
}

#[via_fn]
proof fn types_of_dec(items: Seq<ExprView>, env: Seq<(Seq<char>, TypeView)>) {
    if items.len() > 0 {
        lemma_ewt_pos(items.last());
    }
}

#[via_fn]
proof fn check_args_dec(
    params: Seq<TypeView>,
    args: Seq<ExprView>,
    whole: ExprView,
    env: Seq<(Seq<char>, TypeView)>,
) {
    if args.len() > 0 {
        lemma_ewts_drop_first(args);
        lemma_ewt_pos(args[0]);
    }
}

#[via_fn]
proof fn check_inits_dec(
    vals: Seq<ExprView>,
    t: TypeView,
    whole: ExprView,
    env: Seq<(Seq<char>, TypeView)>,
) {
    if vals.len() > 0 {
        lemma_ewts_drop_first(vals);
        lemma_ewt_pos(vals[0]);
    }
}

#[via_fn]
proof fn type_of_int_pair_dec(
    whole: ExprView,
    a: ExprView,
    b: ExprView,
    env: Seq<(Seq<char>, TypeView)>,
) {
    lemma_ewt_pos(a);
    lemma_ewt_pos(b);
}

#[via_fn]
proof fn type_of_bool_pair_dec(
    whole: ExprView,
    a: ExprView,
    b: ExprView,
    env: Seq<(Seq<char>, TypeView)>,
) {
    lemma_ewt_pos(a);
    lemma_ewt_pos(b);
}

#[via_fn]
proof fn type_of_cmp_dec(
    whole: ExprView,
    a: ExprView,
    b: ExprView,
    env: Seq<(Seq<char>, TypeView)>,
) {
    lemma_ewt_pos(a);
    lemma_ewt_pos(b);
}

} // verus!

verus! {

/// The view of a checker result.
pub open spec fn res_tv(r: Result<Type, Error>) -> Result<TypeView, ErrorView> {
    match r {
        Ok(t) => Ok(type_view(t)),
        Err(e) => Err(e@),
    }
}

/// Structural equality of types.
#[verifier::loop_isolation(false)]
pub fn type_eq(a: &Type, b: &Type) -> (r: bool)
    ensures
        r == (a@ == b@),
    decreases *a,
{
    match (a, b) {
        (Type::Integer, Type::Integer) => true,
        (Type::Bool, Type::Bool) => true,
        (Type::Character, Type::Character) => true,
        (Type::Void, Type::Void) => true,
        (Type::Pointer(x), Type::Pointer(y)) => type_eq(x, y),
        (Type::Tuple(xs), Type::Tuple(ys)) => {
            proof {
                lemma_types_view_index(xs@);
                lemma_types_view_index(ys@);
            }
            if xs.len() != ys.len() {
                return false;
            }
            let mut i: usize = 0;
            while i < xs.len()
                invariant
                    i <= xs@.len(),
                    forall|j: int|
                        0 <= j < i ==> #[trigger] types_view(xs@)[j] == types_view(ys@)[j],
                decreases xs@.len() - i,
            {
                proof {
                    assert(decreases_to!(*a => xs@[i as int]));
                }
                if !type_eq(&xs[i], &ys[i]) {
                    proof {
                        assert(types_view(xs@) != types_view(ys@)) by {
                            if types_view(xs@) == types_view(ys@) {
                                assert(types_view(xs@)[i as int] == types_view(ys@)[i as int]);
                            }
                        }
                    }
                    return false;
                }
                i = i + 1;
            }
            proof {
                assert(types_view(xs@) =~= types_view(ys@));
            }
            true
        },
        (Type::Function(xa, xr), Type::Function(ya, yr)) => {
            proof {
                lemma_types_view_index(xa@);
                lemma_types_view_index(ya@);
            }
            if xa.len() != ya.len() {
                return false;
            }
            let mut i: usize = 0;
            while i < xa.len()
                invariant
                    i <= xa@.len(),
                    forall|j: int|
                        0 <= j < i ==> #[trigger] types_view(xa@)[j] == types_view(ya@)[j],
                decreases xa@.len() - i,
            {
                proof {
                    assert(decreases_to!(*a => xa@[i as int]));
                }
                if !type_eq(&xa[i], &ya[i]) {
                    proof {
                        assert(types_view(xa@) != types_view(ya@)) by {
                            if types_view(xa@) == types_view(ya@) {
                                assert(types_view(xa@)[i as int] == types_view(ya@)[i as int]);
                            }
                        }
                    }
                    return false;
                }
                i = i + 1;
            }
            proof {
                assert(types_view(xa@) =~= types_view(ya@));
            }
            type_eq(xr, yr)
        },
        _ => {
            proof {
                assert(a@ != b@);
            }
            false
        },
    }
}

} // verus!

verus! {

/// Where the first `i` expressions type and the `i`-th fails, the whole
/// sequence fails with that error.
proof fn lemma_types_of_err(
    s: Seq<ExprView>,
    env: Seq<(Seq<char>, TypeView)>,
    i: int,
    e: ErrorView,
)
    requires
        0 <= i < s.len(),
        types_of(s.take(i), env) is Ok,
        type_of(s[i], env) == Err::<TypeView, ErrorView>(e),
    ensures
        types_of(s, env) == Err::<Seq<TypeView>, ErrorView>(e),
    decreases s.len(),
{
    if i == s.len() - 1 {
        assert(s.drop_last() =~= s.take(i));
        assert(s.last() == s[i]);
    } else {
        assert(s.drop_last().take(i) =~= s.take(i));
        assert(s.drop_last()[i] == s[i]);
        lemma_types_of_err(s.drop_last(), env, i, e);
    }
}

impl Expr {
    /// Checks that this expression types under the environment.
    pub fn type_check(&self, scope: &TypeEnv) -> (r: Result<(), Error>)
        ensures
            match type_of(self@, scope@) {
                Ok(_) => r is Ok,
                Err(e) => r matches Err(e2) && e2@ == e,
            },
    {
        match self.get_type(scope) {
            Ok(_) => Ok(()),
            Err(e) => Err(e),
        }
    }

    /// The type of this expression under the environment, or the first error
    /// the checker finds: exactly `type_of` of this expression.
    #[verifier::loop_isolation(false)]
    #[verifier::rlimit(100)]
    pub fn get_type(&self, scope: &TypeEnv) -> (r: Result<Type, Error>)
        ensures
            res_tv(r) == type_of(self@, scope@),
        decreases ewt(self@), 1nat,
    {
        let ghost ev = self@;
        let ghost env = scope@;
        match self {
            Expr::Integer(_) => Ok(Type::Integer),
            Expr::Bool(_) => Ok(Type::Bool),
            Expr::Character(_) => Ok(Type::Character),
            Expr::Unit => Ok(Type::Void),
            Expr::Getnum => Ok(Type::Integer),
            Expr::Getchar => Ok(Type::Character),
            Expr::Variable(name) => match scope.get(name) {
                Some(t) => Ok(t.clone()),
                None => Err(Error::VariableNotInScope(name.clone())),
            },
            Expr::Refer(name) => match scope.get(name) {
                Some(t) => match t.get_size() {
                    Ok(_) => Ok(Type::Pointer(Box::new(t.clone()))),
                    Err(e) => Err(e),
                },
                None => Err(Error::VariableNotInScope(name.clone())),
            },
            Expr::Increment(name) => match scope.get(name) {
                Some(t) => {
                    if matches!(t, Type::Integer) {
                        Ok(Type::Void)
                    } else {
                        Err(Error::MismatchedTypes(self.clone(), Type::Integer, t.clone()))
                    }
                },
                None => Err(Error::VariableNotInScope(name.clone())),
            },
            Expr::Decrement(name) => match scope.get(name) {
                Some(t) => {
                    if matches!(t, Type::Integer) {
                        Ok(Type::Void)
                    } else {
                        Err(Error::MismatchedTypes(self.clone(), Type::Integer, t.clone()))
                    }
                },
                None => Err(Error::VariableNotInScope(name.clone())),
            },
            Expr::Deref(value) => {
                let pt = match value.get_type(scope) {
                    Ok(t) => t,
                    Err(e) => {
                        return Err(e);
                    },
                };
                match pt {
                    Type::Pointer(t) => match t.get_size() {
                        Ok(_) => Ok(*t),
                        Err(e) => Err(e),
                    },
                    _ => Err(Error::DerefNonPointer(self.clone(), pt)),
                }
            },
            Expr::DerefAssign(addr, value) => {
                proof {
                    lemma_ewt_pos(expr_view(**value));
                }
                let probe = Expr::Deref(Box::new((**addr).clone()));
                if let Err(e) = probe.get_type(scope) {
                    return Err(e);
                }
                let vt = match value.get_type(scope) {
                    Ok(t) => t,
                    Err(e) => {
                        return Err(e);
                    },
                };
                let pt = match addr.get_type(scope) {
                    Ok(t) => t,
                    Err(e) => {
                        return Err(e);
                    },
                };
                match pt {
                    Type::Pointer(t) => match t.get_size() {
                        Ok(_) => {
                            if !type_eq(&t, &vt) {
                                Err(Error::MismatchedTypes(self.clone(), *t, vt))
                            } else {
                                Ok(Type::Void)
                            }
                        },
                        Err(e) => Err(e),
                    },
                    _ => Err(Error::DerefNonPointer(self.clone(), pt)),
                }
            },
            Expr::Tuple(items) => self.get_type_tuple(items, scope),
            Expr::Nth(tup, n) => {
                let tt = match tup.get_type(scope) {
                    Ok(t) => t,
                    Err(e) => {
                        return Err(e);
                    },
                };
                match tt.nth(*n) {
                    Some(pair) => Ok(pair.0.clone()),
                    None => Err(Error::NthOfNonTuple(self.clone(), tt)),
                }
            },
            Expr::Index(ptr, idx) => {
                let pt = match ptr.get_type(scope) {
                    Ok(t) => t,
                    Err(e) => {
                        return Err(e);
                    },
                };
                let it = match idx.get_type(scope) {
                    Ok(t) => t,
                    Err(e) => {
                        return Err(e);
                    },
                };
                match pt {
                    Type::Pointer(val) => {
                        if !matches!(it, Type::Integer) {
                            Err(Error::MismatchedTypes(self.clone(), Type::Integer, it))
                        } else {
                            Ok(*val)
                        }
                    },
                    _ => Err(Error::DerefNonPointer(self.clone(), pt)),
                }
            },
            Expr::ReferIndex(ptr, idx) => {
                let pt = match ptr.get_type(scope) {
                    Ok(t) => t,
                    Err(e) => {
                        return Err(e);
                    },
                };
                let it = match idx.get_type(scope) {
                    Ok(t) => t,
                    Err(e) => {
                        return Err(e);
                    },
                };
                if matches!(pt, Type::Pointer(_)) {
                    if !matches!(it, Type::Integer) {
                        Err(Error::MismatchedTypes(self.clone(), Type::Integer, it))
                    } else {
                        Ok(pt)
                    }
                } else {
                    Err(Error::DerefNonPointer(self.clone(), pt))
                }
            },
            Expr::IndexAssign(ptr, idx, val) => {
                let pt = match ptr.get_type(scope) {
                    Ok(t) => t,
                    Err(e) => {
                        return Err(e);
                    },
                };
                let it = match idx.get_type(scope) {
                    Ok(t) => t,
                    Err(e) => {
                        return Err(e);
                    },
                };
                let vt = match val.get_type(scope) {
                    Ok(t) => t,
                    Err(e) => {
                        return Err(e);
                    },
                };
                match pt {
                    Type::Pointer(pv) => {
                        if !matches!(it, Type::Integer) {
                            Err(Error::MismatchedTypes(self.clone(), Type::Integer, it))
                        } else if !type_eq(&vt, &pv) {
                            Err(Error::MismatchedTypes(self.clone(), *pv, vt))
                        } else {
                            Ok(Type::Void)
                        }
                    },
                    _ => Err(Error::DerefNonPointer(self.clone(), pt)),
                }
            },
            Expr::Free(x) => {
                let xt = match x.get_type(scope) {
                    Ok(t) => t,
                    Err(e) => {
                        return Err(e);
                    },
                };
                match xt {
                    Type::Pointer(t) => match t.get_size() {
                        Ok(_) => Ok(Type::Void),
                        Err(e) => Err(e),
                    },
                    _ => Err(
                        Error::MismatchedTypes(
                            self.clone(),
                            Type::Pointer(Box::new(Type::Void)),
                            xt,
                        ),
                    ),
                }
            },
            Expr::Alloc(count, t, inits) => self.get_type_alloc(count, t, inits, scope),
            Expr::Block(items) => self.get_type_block(items, scope),
            Expr::If(cond, body) => {
                let ct = match cond.get_type(scope) {
                    Ok(t) => t,
                    Err(e) => {
                        return Err(e);
                    },
                };
                let bt = match body.get_type(scope) {
                    Ok(t) => t,
                    Err(e) => {
                        return Err(e);
                    },
                };
                if !matches!(ct, Type::Bool) {
                    Err(Error::MismatchedTypes(self.clone(), Type::Bool, ct))
                } else if !matches!(bt, Type::Void) {
                    Err(Error::MismatchedTypes(self.clone(), Type::Void, bt))
                } else {
                    Ok(Type::Void)
                }
            },
            Expr::While(cond, body) => {
                let ct = match cond.get_type(scope) {
                    Ok(t) => t,
                    Err(e) => {
                        return Err(e);
                    },
                };
                let bt = match body.get_type(scope) {
                    Ok(t) => t,
                    Err(e) => {
                        return Err(e);
                    },
                };
                if !matches!(ct, Type::Bool) {
                    Err(Error::MismatchedTypes(self.clone(), Type::Bool, ct))
                } else if !matches!(bt, Type::Void) {
                    Err(Error::MismatchedTypes(self.clone(), Type::Void, bt))
                } else {
                    Ok(Type::Void)
                }
            },
            Expr::Function(args, ret, body) => self.get_type_function(args, ret, body, scope),
            Expr::Call(name, args) => self.get_type_call(name, args, scope),
            Expr::Let(name, t, val, body) => {
                proof {
                    assert(type_of(ev, env) == type_of_let(
                        ev,
                        name@,
                        type_view(*t),
                        expr_view(**val),
                        expr_view(**body),
                        env,
                    ));
                }
                let mut scope2 = scope.clone();
                scope2.insert(name.clone(), t.clone());
                proof {
                    assert(scope2@ == env_insert(env, name@, type_view(*t)));
                }
                let vt = match val.get_type(&scope2) {
                    Ok(ty) => ty,
                    Err(e) => {
                        return Err(e);
                    },
                };
                if !type_eq(&vt, t) {
                    return Err(Error::MismatchedTypes(self.clone(), t.clone(), vt));
                }
                body.get_type(&scope2)
            },
            Expr::LetInfer(name, val, body) => {
                proof {
                    lemma_ewt_pos(expr_view(**val));
                    lemma_ewt_pos(expr_view(**body));
                }
                let t = match val.get_type(scope) {
                    Ok(ty) => ty,
                    Err(e) => {
                        return Err(e);
                    },
                };
                let expanded = Expr::Let(
                    name.clone(),
                    t,
                    Box::new((**val).clone()),
                    Box::new((**body).clone()),
                );
                expanded.get_type(scope)
            },
            Expr::Assign(name, e) => {
                let vt = match scope.get(name) {
                    Some(t) => t.clone(),
                    None => {
                        return Err(Error::VariableNotInScope(name.clone()));
                    },
                };
                let et = match e.get_type(scope) {
                    Ok(ty) => ty,
                    Err(er) => {
                        return Err(er);
                    },
                };
                if !type_eq(&vt, &et) {
                    Err(Error::MismatchedTypes(self.clone(), vt, et))
                } else {
                    Ok(Type::Void)
                }
            },
            Expr::Add(a, b) => {
                let at = match a.get_type(scope) {
                    Ok(t) => t,
                    Err(e) => {
                        return Err(e);
                    },
                };
                let bt = match b.get_type(scope) {
                    Ok(t) => t,
                    Err(e) => {
                        return Err(e);
                    },
                };
                if matches!(at, Type::Integer) && matches!(bt, Type::Integer) {
                    Ok(Type::Integer)
                } else if matches!(at, Type::Pointer(_)) && matches!(bt, Type::Integer) {
                    Ok(at)
                } else {
                    Err(Error::MismatchedTypes(self.clone(), at, bt))
                }
            },
            Expr::Sub(a, b) => self.get_type_int_pair(a, b, scope),
            Expr::Mul(a, b) => self.get_type_int_pair(a, b, scope),
            Expr::Div(a, b) => self.get_type_int_pair(a, b, scope),
            Expr::And(a, b) => self.get_type_bool_pair(a, b, scope),
            Expr::Or(a, b) => self.get_type_bool_pair(a, b, scope),
            Expr::Not(x) => {
                let xt = match x.get_type(scope) {
                    Ok(t) => t,
                    Err(e) => {
                        return Err(e);
                    },
                };
                if !matches!(xt, Type::Bool) {
                    Err(Error::MismatchedTypes(self.clone(), Type::Bool, xt))
                } else {
                    Ok(Type::Bool)
                }
            },
            Expr::Putchar(x) => {
                let xt = match x.get_type(scope) {
                    Ok(t) => t,
                    Err(e) => {
                        return Err(e);
                    },
                };
                if !matches!(xt, Type::Character) {
                    Err(Error::MismatchedTypes(self.clone(), Type::Character, xt))
                } else {
                    Ok(Type::Void)
                }
            },
            Expr::Putnum(x) => {
                let xt = match x.get_type(scope) {
                    Ok(t) => t,
                    Err(e) => {
                        return Err(e);
                    },
                };
                if !matches!(xt, Type::Integer) && !matches!(xt, Type::Pointer(_)) {
                    Err(Error::MismatchedTypes(self.clone(), Type::Integer, xt))
                } else {
                    Ok(Type::Void)
                }
            },
            Expr::Eq(a, b) => self.get_type_cmp(a, b, scope),
            Expr::Neq(a, b) => self.get_type_cmp(a, b, scope),
        }
    }

    /// The shared checking of `Sub`, `Mul` and `Div`.
    fn get_type_int_pair(&self, a: &Expr, b: &Expr, scope: &TypeEnv) -> (r: Result<Type, Error>)
        requires
            ewt(a@) < ewt(self@),
            ewt(b@) < ewt(self@),
        ensures
            res_tv(r) == type_of_int_pair(self@, a@, b@, scope@),
        decreases ewt(self@), 0nat,
    {
        let at = match a.get_type(scope) {
            Ok(t) => t,
            Err(e) => {
                return Err(e);
            },
        };
        let bt = match b.get_type(scope) {
            Ok(t) => t,
            Err(e) => {
                return Err(e);
            },
        };
        if !matches!(at, Type::Integer) {
            Err(Error::MismatchedTypes(self.clone(), Type::Integer, at))
        } else if !matches!(bt, Type::Integer) {
            Err(Error::MismatchedTypes(self.clone(), Type::Integer, bt))
        } else {
            Ok(Type::Integer)
        }
    }

    /// The shared checking of `And` and `Or`.
    fn get_type_bool_pair(&self, a: &Expr, b: &Expr, scope: &TypeEnv) -> (r: Result<Type, Error>)
        requires
            ewt(a@) < ewt(self@),
            ewt(b@) < ewt(self@),
        ensures
            res_tv(r) == type_of_bool_pair(self@, a@, b@, scope@),
        decreases ewt(self@), 0nat,
    {
        let at = match a.get_type(scope) {
            Ok(t) => t,
            Err(e) => {
                return Err(e);
            },
        };
        let bt = match b.get_type(scope) {
            Ok(t) => t,
            Err(e) => {
                return Err(e);
            },
        };
        if !matches!(at, Type::Bool) {
            Err(Error::MismatchedTypes(self.clone(), Type::Bool, at))
        } else if !matches!(bt, Type::Bool) {
            Err(Error::MismatchedTypes(self.clone(), Type::Bool, bt))
        } else {
            Ok(Type::Bool)
        }
    }

    /// The shared checking of `Eq` and `Neq`.
    fn get_type_cmp(&self, a: &Expr, b: &Expr, scope: &TypeEnv) -> (r: Result<Type, Error>)
        requires
            ewt(a@) < ewt(self@),
            ewt(b@) < ewt(self@),
        ensures
            res_tv(r) == type_of_cmp(self@, a@, b@, scope@),
        decreases ewt(self@), 0nat,
    {
        let at = match a.get_type(scope) {
            Ok(t) => t,
            Err(e) => {
                return Err(e);
            },
        };
        let bt = match b.get_type(scope) {
            Ok(t) => t,
            Err(e) => {
                return Err(e);
            },
        };
        if !type_eq(&at, &bt) {
            Err(Error::MismatchedTypes(self.clone(), at, bt))
        } else if matches!(at, Type::Tuple(_)) {
            Err(Error::CmpOfTuple(self.clone(), at))
        } else {
            Ok(Type::Bool)
        }
    }
}

} // verus!

verus! {

/// The tape cell a variable's address computation dereferences twice: the
/// cell the top of the stack points to.
pub open spec fn stack_target() -> mir::Location {
    mir::Location::Deref(Box::new(mir::sp_top()))
}

/// The cell value a character literal compiles to: its low byte.
pub open spec fn char_cell(c: char) -> u32 {
    (c as u32) % 0x100
}

/// The named arguments of a function literal with their cell sizes, or the
/// first argument type that has none.
pub open spec fn arg_pairs(params: Seq<(Seq<char>, TypeView)>) -> Result<
    Seq<(Seq<char>, u32)>,
    ErrorView,
>
    decreases params.len(),
{
    if params.len() == 0 {
        Ok(Seq::empty())
    } else {
        match arg_pairs(params.drop_last()) {
            Err(e) => Err(e),
            Ok(ps) => if !has_size(params.last().1) {
                Err(ErrorView::SizeOfFunction(size_err(params.last().1)))
            } else {
                Ok(ps.push((params.last().0, sat32(size_of(params.last().1)))))
            },
        }
    }
}

/// The summed cell size of a function type's argument types, clamped, or
/// the first argument type that has none.
pub open spec fn fn_args_size(argts: Seq<TypeView>) -> Result<u32, ErrorView>
    decreases argts.len(),
{
    if argts.len() == 0 {
        Ok(0u32)
    } else {
        match fn_args_size(argts.drop_last()) {
            Err(e) => Err(e),
            Ok(n) => if !has_size(argts.last()) {
                Err(ErrorView::SizeOfFunction(size_err(argts.last())))
            } else {
                Ok(mir::sat_add(n, sat32(size_of(argts.last()))))
            },
        }
    }
}

/// The operation an expression compiles to under an environment and frame
/// offset, or the first error.  This is the lowering in full:
/// `Expr::compile` succeeds exactly where this does, with this error
/// otherwise.
pub open spec fn compile_v(ev: ExprView, env: Seq<(Seq<char>, TypeView)>, off: u32) -> Result<
    OpView,
    ErrorView,
>
    decreases ewt(ev), 9nat,
    via compile_v_dec
{
    match type_of(ev, env) {
        Err(e) => Err(e),
        Ok(_) => compile_body_v(ev, env, off),
    }
}

/// The per-form lowering, run after the expression has type-checked: each
/// form's rule stands in its own function below.
pub open spec fn compile_body_v(
    ev: ExprView,
    env: Seq<(Seq<char>, TypeView)>,
    off: u32,
) -> Result<OpView, ErrorView>
    decreases ewt(ev), 8nat,
    via compile_body_v_dec
{
    match ev {
        ExprView::Tuple(items) => match compiles_seq(items, env, off) {
            Err(e) => Err(e),
            Ok(ops) => Ok(OpView::Do(ops)),
        },
        ExprView::Increment(name) => match compile_v(ExprView::Refer(name), env, off) {
            Err(e) => Err(e),
            Ok(refer) => Ok(
                OpView::Do(
                    seq![refer, OpView::Increment(stack_target(), 1), OpView::Stfree(1)],
                ),
            ),
        },
        ExprView::Decrement(name) => match compile_v(ExprView::Refer(name), env, off) {
            Err(e) => Err(e),
            Ok(refer) => Ok(
                OpView::Do(
                    seq![refer, OpView::Decrement(stack_target(), 1), OpView::Stfree(1)],
                ),
            ),
        },
        ExprView::Nth(tup, n) => compile_nth_v(ev, *tup, n, env, off),
        ExprView::Refer(name) => Ok(OpView::Macro(name)),
        ExprView::Deref(value) => compile_deref_v(ev, *value, env, off),
        ExprView::DerefAssign(addr, value) => compile_deref_assign_v(ev, *addr, *value, env, off),
        ExprView::Index(ptr, idx) => compile_index_v(ev, *ptr, *idx, env, off),
        ExprView::ReferIndex(ptr, idx) => compile_refer_index_v(ev, *ptr, *idx, env, off),
        ExprView::IndexAssign(ptr, idx, val) => compile_index_assign_v(
            ev,
            *ptr,
            *idx,
            *val,
            env,
            off,
        ),
        ExprView::Block(items) => match block_items(items, env, off) {
            Err(e) => Err(e),
            Ok(ops) => Ok(OpView::Do(ops)),
        },
        ExprView::Assign(name, expr) => compile_assign_v(ev, name, *expr, env, off),
        ExprView::If(cond, body) => match compile_v(*cond, env, off) {
            Err(e) => Err(e),
            Ok(cop) => match compile_v(*body, env, off) {
                Err(e) => Err(e),
                Ok(bop) => Ok(OpView::If(seq![cop], seq![bop])),
            },
        },
        ExprView::While(cond, body) => match compile_v(*cond, env, off) {
            Err(e) => Err(e),
            Ok(cop) => match compile_v(*body, env, off) {
                Err(e) => Err(e),
                Ok(bop) => Ok(OpView::While(seq![cop], seq![bop])),
            },
        },
        ExprView::Unit => Ok(OpView::Do(Seq::empty())),
        ExprView::Integer(i) => Ok(OpView::PushLiteral(mir::Literal(i))),
        ExprView::Bool(b) => Ok(
            OpView::PushLiteral(
                mir::Literal(
                    if b {
                        1
                    } else {
                        0
                    },
                ),
            ),
        ),
        ExprView::Character(c) => Ok(OpView::PushLiteral(mir::Literal(char_cell(c)))),
        ExprView::Putchar(x) => match compile_v(*x, env, off) {
            Err(e) => Err(e),
            Ok(xop) => Ok(OpView::Do(seq![xop, OpView::Putchar])),
        },
        ExprView::Putnum(x) => match compile_v(*x, env, off) {
            Err(e) => Err(e),
            Ok(xop) => Ok(OpView::Do(seq![xop, OpView::Putnum])),
        },
        ExprView::Alloc(x, t, inits) => compile_alloc_v(ev, *x, t, inits, env, off),
        ExprView::Free(x) => match compile_v(*x, env, off) {
            Err(e) => Err(e),
            Ok(xop) => Ok(OpView::Do(seq![xop, OpView::Free])),
        },
        ExprView::Getchar => Ok(OpView::Getchar),
        ExprView::Getnum => Ok(OpView::Getnum),
        ExprView::Function(params, ret, body) => compile_function_v(ev, params, ret, *body, env, off),
        ExprView::Add(a, b) => compile_pair(ev, *a, *b, OpView::Add, env, off),
        ExprView::Sub(a, b) => compile_pair(ev, *a, *b, OpView::Sub, env, off),
        ExprView::Mul(a, b) => compile_pair(ev, *a, *b, OpView::Mul, env, off),
        ExprView::Div(a, b) => compile_pair(ev, *a, *b, OpView::Div, env, off),
        ExprView::And(a, b) => compile_pair(ev, *a, *b, OpView::And, env, off),
        ExprView::Or(a, b) => compile_pair(ev, *a, *b, OpView::Or, env, off),
        ExprView::Not(x) => match compile_v(*x, env, off) {
            Err(e) => Err(e),
            Ok(xop) => Ok(OpView::Do(seq![xop, OpView::Not])),
        },
        ExprView::Eq(a, b) => compile_eq_v(ev, *a, *b, env, off),
        ExprView::Neq(a, b) => compile_neq_v(ev, *a, *b, env, off),
        ExprView::Variable(name) => compile_variable_v(name, env, off),
        ExprView::Let(name, t, expr, body) => compile_let(ev, name, t, *expr, *body, env, off),
        ExprView::LetInfer(name, expr, body) => match type_of(*expr, env) {
            Err(e) => Err(e),
            Ok(te) => compile_v(ExprView::Let(name, te, expr, body), env, off),
        },
        ExprView::Call(name, args) => match compiles_seq(args, env, off) {
            Err(e) => Err(e),
            Ok(ops) => Ok(OpView::Do(ops.push(OpView::Macro(name)))),
        },
    }
}

/// Lowering a tuple field access: the tuple is spilled to a heap block of
/// its full size, the field's cells loaded from its offset, and the block
/// freed; the first register holds the block pointer.
pub open spec fn compile_nth_v(
    whole: ExprView,
    tup: ExprView,
    n: u32,
    env: Seq<(Seq<char>, TypeView)>,
    off: u32,
) -> Result<OpView, ErrorView>
    decreases 1 + ewt(tup), 9nat,
    via compile_nth_v_dec
{
    match type_of(tup, env) {
        Err(e) => Err(e),
        Ok(tt) => if !has_size(tt) {
            Err(ErrorView::SizeOfFunction(size_err(tt)))
        } else {
            let tup_size = sat32(size_of(tt));
            match nth_of(tt, n as int) {
                Some(pr) => if !has_size(pr.0) {
                    Err(ErrorView::SizeOfFunction(size_err(pr.0)))
                } else {
                    let item_size = sat32(size_of(pr.0));
                    match compile_v(tup, env, off) {
                        Err(e) => Err(e),
                        Ok(tup_op) => Ok(
                            OpView::Do(
                                seq![
                                    tup_op,
                                    OpView::PushLiteral(mir::Literal(tup_size)),
                                    OpView::Alloc,
                                    OpView::Duplicate,
                                    OpView::StoreAt(mir::spec_r1(), 1),
                                    OpView::Store(tup_size),
                                    OpView::LoadFrom(mir::spec_r1(), 1),
                                    OpView::PushLiteral(mir::Literal(sat32(pr.1))),
                                    OpView::Add,
                                    OpView::Load(item_size),
                                    OpView::LoadFrom(mir::spec_r1(), 1),
                                    OpView::Free,
                                ],
                            ),
                        ),
                    }
                },
                None => Err(ErrorView::NthOfNonTuple(whole, tt)),
            }
        },
    }
}

/// Lowering a dereference: the pointer's value, then a load of the
/// pointee's cells.
pub open spec fn compile_deref_v(
    whole: ExprView,
    value: ExprView,
    env: Seq<(Seq<char>, TypeView)>,
    off: u32,
) -> Result<OpView, ErrorView>
    decreases 1 + ewt(value), 9nat,
    via compile_deref_v_dec
{
    match type_of(value, env) {
        Err(e) => Err(e),
        Ok(pt) => match pt {
            TypeView::Pointer(t) => match compile_v(value, env, off) {
                Err(e) => Err(e),
                Ok(vop) => if !has_size(*t) {
                    Err(ErrorView::SizeOfFunction(size_err(*t)))
                } else {
                    Ok(OpView::Do(seq![vop, OpView::Load(sat32(size_of(*t)))]))
                },
            },
            _ => Err(ErrorView::DerefNonPointer(whole, pt)),
        },
    }
}

/// Lowering a store through a pointer: the value, the address, and a store
/// of the value's cells.
pub open spec fn compile_deref_assign_v(
    whole: ExprView,
    addr: ExprView,
    value: ExprView,
    env: Seq<(Seq<char>, TypeView)>,
    off: u32,
) -> Result<OpView, ErrorView>
    decreases 1 + ewt(addr) + ewt(value), 9nat,
    via compile_deref_assign_v_dec
{
    match compile_v(value, env, off) {
        Err(e) => Err(e),
        Ok(vop) => match compile_v(addr, env, off) {
            Err(e) => Err(e),
            Ok(aop) => match type_of(value, env) {
                Err(e) => Err(e),
                Ok(vt) => if !has_size(vt) {
                    Err(ErrorView::SizeOfFunction(size_err(vt)))
                } else {
                    Ok(OpView::Do(seq![vop, aop, OpView::Store(sat32(size_of(vt)))]))
                },
            },
        },
    }
}

/// Lowering pointer indexing, rewritten into dereferenced pointer
/// arithmetic: `*(p + i * size)`.
pub open spec fn compile_index_v(
    whole: ExprView,
    ptr: ExprView,
    idx: ExprView,
    env: Seq<(Seq<char>, TypeView)>,
    off: u32,
) -> Result<OpView, ErrorView>
    decreases 8 + ewt(ptr) + ewt(idx), 9nat,
    via compile_index_v_dec
{
    match type_of(ptr, env) {
        Err(e) => Err(e),
        Ok(pt) => match pt {
            TypeView::Pointer(t) => if !has_size(*t) {
                Err(ErrorView::SizeOfFunction(size_err(*t)))
            } else {
                compile_v(
                    ExprView::Deref(
                        Box::new(
                            ExprView::Add(
                                Box::new(ptr),
                                Box::new(
                                    ExprView::Mul(
                                        Box::new(idx),
                                        Box::new(
                                            ExprView::Integer(sat32(size_of(*t))),
                                        ),
                                    ),
                                ),
                            ),
                        ),
                    ),
                    env,
                    off,
                )
            },
            _ => Err(ErrorView::DerefNonPointer(whole, pt)),
        },
    }
}

/// Lowering an indexed address, rewritten into pointer arithmetic:
/// `p + size * i`.
pub open spec fn compile_refer_index_v(
    whole: ExprView,
    ptr: ExprView,
    idx: ExprView,
    env: Seq<(Seq<char>, TypeView)>,
    off: u32,
) -> Result<OpView, ErrorView>
    decreases 8 + ewt(ptr) + ewt(idx), 9nat,
    via compile_refer_index_v_dec
{
    match type_of(ptr, env) {
        Err(e) => Err(e),
        Ok(pt) => match pt {
            TypeView::Pointer(t) => if !has_size(*t) {
                Err(ErrorView::SizeOfFunction(size_err(*t)))
            } else {
                compile_v(
                    ExprView::Add(
                        Box::new(ptr),
                        Box::new(
                            ExprView::Mul(
                                Box::new(ExprView::Integer(sat32(size_of(*t)))),
                                Box::new(idx),
                            ),
                        ),
                    ),
                    env,
                    off,
                )
            },
            _ => Err(ErrorView::DerefNonPointer(whole, pt)),
        },
    }
}

/// Lowering an indexed store, rewritten into a store through pointer
/// arithmetic: `*(p + size * i) = v`.
pub open spec fn compile_index_assign_v(
    whole: ExprView,
    ptr: ExprView,
    idx: ExprView,
    val: ExprView,
    env: Seq<(Seq<char>, TypeView)>,
    off: u32,
) -> Result<OpView, ErrorView>
    decreases 8 + ewt(ptr) + ewt(idx) + ewt(val), 9nat,
    via compile_index_assign_v_dec
{
    match type_of(ptr, env) {
        Err(e) => Err(e),
        Ok(pt) => match pt {
            TypeView::Pointer(t) => if !has_size(*t) {
                Err(ErrorView::SizeOfFunction(size_err(*t)))
            } else {
                compile_v(
                    ExprView::DerefAssign(
                        Box::new(
                            ExprView::Add(
                                Box::new(ptr),
                                Box::new(
                                    ExprView::Mul(
                                        Box::new(
                                            ExprView::Integer(sat32(size_of(*t))),
                                        ),
                                        Box::new(idx),
                                    ),
                                ),
                            ),
                        ),
                        Box::new(val),
                    ),
                    env,
                    off,
                )
            },
            _ => Err(ErrorView::DerefNonPointer(whole, pt)),
        },
    }
}

/// Lowering an assignment to a name: the value, the name's address macro,
/// and a store of the name's cells.
pub open spec fn compile_assign_v(
    whole: ExprView,
    name: Seq<char>,
    expr: ExprView,
    env: Seq<(Seq<char>, TypeView)>,
    off: u32,
) -> Result<OpView, ErrorView>
    decreases 1 + ewt(expr), 9nat,
    via compile_assign_v_dec
{
    match compile_v(expr, env, off) {
        Err(e) => Err(e),
        Ok(eop) => match env_lookup(env, name) {
            Some(t) => if !has_size(t) {
                Err(ErrorView::SizeOfFunction(size_err(t)))
            } else {
                Ok(
                    OpView::Do(
                        seq![
                            eop,
                            OpView::Macro(name),
                            OpView::Store(sat32(size_of(t))),
                        ],
                    ),
                )
            },
            None => Err(ErrorView::VariableNotInScope(name)),
        },
    }
}

/// Lowering an allocation: count times element size, the allocator call,
/// and the optional initializer stores through the third register.
pub open spec fn compile_alloc_v(
    whole: ExprView,
    x: ExprView,
    t: TypeView,
    inits: Option<Seq<ExprView>>,
    env: Seq<(Seq<char>, TypeView)>,
    off: u32,
) -> Result<OpView, ErrorView>
    decreases 1 + ewt(x) + (match inits {
        Some(vals) => ewts(vals),
        None => 0,
    }), 9nat,
    via compile_alloc_v_dec
{
    match compile_v(x, env, off) {
        Err(e) => Err(e),
        Ok(xop) => if !has_size(t) {
            Err(ErrorView::SizeOfFunction(size_err(t)))
        } else {
            let inner = match inits {
                Some(vals) => match alloc_inits(vals, env, off) {
                    Err(e) => Err(e),
                    Ok(pr) => Ok(
                        seq![OpView::StoreAt(mir::spec_r3(), 1)] + pr.0 + seq![
                            OpView::LoadFrom(mir::spec_r3(), 1),
                            OpView::Store(pr.1),
                            OpView::LoadFrom(mir::spec_r3(), 1),
                        ],
                    ),
                },
                None => Ok(Seq::<OpView>::empty()),
            };
            match inner {
                Err(e) => Err(e),
                Ok(iops) => Ok(
                    OpView::Do(
                        seq![
                            xop,
                            OpView::PushLiteral(mir::Literal(sat32(size_of(t)))),
                            OpView::Mul,
                            OpView::Alloc,
                            OpView::Do(iops),
                        ],
                    ),
                ),
            }
        },
    }
}

/// Lowering a function literal: a frame around the body, compiled with the
/// arguments in scope.
pub open spec fn compile_function_v(
    whole: ExprView,
    params: Seq<(Seq<char>, TypeView)>,
    ret: TypeView,
    body: ExprView,
    env: Seq<(Seq<char>, TypeView)>,
    off: u32,
) -> Result<OpView, ErrorView>
    decreases 1 + ewt(body), 9nat,
    via compile_function_v_dec
{
    let env2 = env_insert_params(env, params);
    match arg_pairs(params) {
        Err(e) => Err(e),
        Ok(pairs) => if !has_size(ret) {
            Err(ErrorView::SizeOfFunction(size_err(ret)))
        } else {
            match compile_v(body, env2, off) {
                Err(e) => Err(e),
                Ok(bop) => Ok(mir::spec_function(pairs, sat32(size_of(ret)), seq![bop])),
            }
        },
    }
}

/// Lowering an equality: the zero short-circuits emit a logical not of the
/// other operand; otherwise both operands in reversed order, then the
/// comparison.
pub open spec fn compile_eq_v(
    whole: ExprView,
    a: ExprView,
    b: ExprView,
    env: Seq<(Seq<char>, TypeView)>,
    off: u32,
) -> Result<OpView, ErrorView>
    decreases 1 + ewt(a) + ewt(b), 9nat,
    via compile_eq_v_dec
{
    if b == ExprView::Integer(0) {
        match compile_v(a, env, off) {
            Err(e) => Err(e),
            Ok(aop) => Ok(OpView::Do(seq![aop, OpView::Not])),
        }
    } else if a == ExprView::Integer(0) {
        match compile_v(b, env, off) {
            Err(e) => Err(e),
            Ok(bop) => Ok(OpView::Do(seq![bop, OpView::Not])),
        }
    } else {
        match compile_v(b, env, off) {
            Err(e) => Err(e),
            Ok(bop) => match compile_v(a, env, off) {
                Err(e) => Err(e),
                Ok(aop) => Ok(OpView::Do(seq![bop, aop, OpView::Eq])),
            },
        }
    }
}

/// Lowering an inequality: against a zero or nul literal the other operand
/// stands alone, by the convention that any non-zero cell is true.
pub open spec fn compile_neq_v(
    whole: ExprView,
    a: ExprView,
    b: ExprView,
    env: Seq<(Seq<char>, TypeView)>,
    off: u32,
) -> Result<OpView, ErrorView>
    decreases 1 + ewt(a) + ewt(b), 9nat,
    via compile_neq_v_dec
{
    if b == ExprView::Integer(0) {
        compile_v(a, env, off)
    } else if a == ExprView::Integer(0) {
        compile_v(b, env, off)
    } else if b == ExprView::Character('\0') {
        compile_v(a, env, off)
    } else if a == ExprView::Character('\0') {
        compile_v(b, env, off)
    } else {
        match compile_v(b, env, off) {
            Err(e) => Err(e),
            Ok(bop) => match compile_v(a, env, off) {
                Err(e) => Err(e),
                Ok(aop) => Ok(OpView::Do(seq![bop, aop, OpView::Neq])),
            },
        }
    }
}

/// Lowering a variable use: its address macro, then a load of its cells.
pub open spec fn compile_variable_v(
    name: Seq<char>,
    env: Seq<(Seq<char>, TypeView)>,
    off: u32,
) -> Result<OpView, ErrorView> {
    match env_lookup(env, name) {
        Some(t) => if !has_size(t) {
            Err(ErrorView::SizeOfFunction(size_err(t)))
        } else {
            Ok(
                OpView::Do(
                    seq![OpView::Macro(name), OpView::Load(sat32(size_of(t)))],
                ),
            )
        },
        None => Err(ErrorView::VariableNotInScope(name)),
    }
}

/// Lowering a `let`.  A function binding becomes a macro binding with no
/// stack slot; the frame offset is bumped by the argument size while the
/// bound function is compiled, so enclosing frames account for the stack its
/// calls occupy.  A value binding reserves a slot at the current offset,
/// stores the value, runs the body, and hands the body's result off through
/// a heap cell while the slot is freed.
pub open spec fn compile_let(
    whole: ExprView,
    name: Seq<char>,
    t: TypeView,
    expr: ExprView,
    body: ExprView,
    env: Seq<(Seq<char>, TypeView)>,
    off: u32,
) -> Result<OpView, ErrorView>
    decreases 1 + ewt(expr) + ewt(body), 3nat,
    via compile_let_dec
{
    let env2 = env_insert(env, name, t);
    match t {
        TypeView::Function(argts, _) => match fn_args_size(argts) {
            Err(e) => Err(e),
            Ok(args_size) => match compile_v(expr, env2, mir::sat_add(off, args_size)) {
                Err(e) => Err(e),
                Ok(eop) => match compile_v(body, env2, off) {
                    Err(e) => Err(e),
                    Ok(bop) => Ok(OpView::Let(name, seq![eop], seq![bop])),
                },
            },
        },
        _ => if !has_size(t) {
            Err(ErrorView::SizeOfFunction(size_err(t)))
        } else {
            let size = sat32(size_of(t));
            let off2 = mir::sat_add(off, size);
            match compile_v(expr, env2, off2) {
                Err(e) => Err(e),
                Ok(eop) => match compile_v(body, env2, off2) {
                    Err(e) => Err(e),
                    Ok(bop) => match type_of(body, env2) {
                        Err(e) => Err(e),
                        Ok(rt) => if !has_size(rt) {
                            Err(ErrorView::SizeOfFunction(size_err(rt)))
                        } else {
                            let result_size = sat32(size_of(rt));
                            Ok(
                                OpView::Let(
                                    name,
                                    seq![
                                        OpView::LoadFrom(mir::spec_fp(), 1),
                                        OpView::PushLiteral(mir::Literal(off)),
                                        OpView::Add,
                                    ],
                                    seq![
                                        OpView::Stalloc(size),
                                        eop,
                                        OpView::Macro(name),
                                        OpView::Store(size),
                                        bop,
                                        OpView::Do(
                                            if result_size > 0 {
                                                seq![
                                                    OpView::PushLiteral(
                                                        mir::Literal(result_size),
                                                    ),
                                                    OpView::Alloc,
                                                    OpView::Duplicate,
                                                    OpView::StoreAt(mir::spec_r2(), 1),
                                                    OpView::Store(result_size),
                                                    OpView::Stfree(size),
                                                    OpView::LoadFrom(mir::spec_r2(), 1),
                                                    OpView::Load(result_size),
                                                    OpView::LoadFrom(mir::spec_r2(), 1),
                                                    OpView::Free,
                                                ]
                                            } else {
                                                seq![OpView::Stfree(size)]
                                            },
                                        ),
                                    ],
                                ),
                            )
                        },
                    },
                },
            }
        },
    }
}

/// Both operands compiled in order, then the operator.
pub open spec fn compile_pair(
    whole: ExprView,
    a: ExprView,
    b: ExprView,
    op: OpView,
    env: Seq<(Seq<char>, TypeView)>,
    off: u32,
) -> Result<OpView, ErrorView>
    decreases 1 + ewt(a) + ewt(b), 3nat,
    via compile_pair_dec
{
    match compile_v(a, env, off) {
        Err(e) => Err(e),
        Ok(aop) => match compile_v(b, env, off) {
            Err(e) => Err(e),
            Ok(bop) => Ok(OpView::Do(seq![aop, bop, op])),
        },
    }
}

/// A sequence of expressions compiled in order, or the first error.
pub open spec fn compiles_seq(
    items: Seq<ExprView>,
    env: Seq<(Seq<char>, TypeView)>,
    off: u32,
) -> Result<Seq<OpView>, ErrorView>
    decreases 1 + ewts(items), 3nat,
    via compiles_seq_dec
{
    if items.len() == 0 {
        Ok(Seq::empty())
    } else {
        match compiles_seq(items.drop_last(), env, off) {
            Err(e) => Err(e),
            Ok(ops) => match compile_v(items.last(), env, off) {
                Err(e) => Err(e),
                Ok(op) => Ok(ops.push(op)),
            },
        }
    }
}

/// Block elements compiled in order, each but the last followed by a
/// `Stfree` of its size when it leaves anything on the stack.
pub open spec fn block_items(
    items: Seq<ExprView>,
    env: Seq<(Seq<char>, TypeView)>,
    off: u32,
) -> Result<Seq<OpView>, ErrorView>
    decreases 1 + ewts(items), 4nat,
    via block_items_dec
{
    if items.len() == 0 {
        Ok(Seq::empty())
    } else {
        match block_rest(items.drop_last(), env, off) {
            Err(e) => Err(e),
            Ok(ops) => match type_of(items.last(), env) {
                Err(e) => Err(e),
                Ok(t) => if !has_size(t) {
                    Err(ErrorView::SizeOfFunction(size_err(t)))
                } else {
                    match compile_v(items.last(), env, off) {
                        Err(e) => Err(e),
                        Ok(op) => Ok(ops.push(op)),
                    }
                },
            },
        }
    }
}

/// Block elements that are not last: compiled, then freed from the stack if
/// they left anything there.
pub open spec fn block_rest(
    items: Seq<ExprView>,
    env: Seq<(Seq<char>, TypeView)>,
    off: u32,
) -> Result<Seq<OpView>, ErrorView>
    decreases 1 + ewts(items), 3nat,
    via block_rest_dec
{
    if items.len() == 0 {
        Ok(Seq::empty())
    } else {
        match block_rest(items.drop_last(), env, off) {
            Err(e) => Err(e),
            Ok(ops) => match type_of(items.last(), env) {
                Err(e) => Err(e),
                Ok(t) => if !has_size(t) {
                    Err(ErrorView::SizeOfFunction(size_err(t)))
                } else {
                    match compile_v(items.last(), env, off) {
                        Err(e) => Err(e),
                        Ok(op) => Ok(
                            ops.push(op) + (if sat32(size_of(t)) > 0 {
                                seq![OpView::Stfree(sat32(size_of(t)))]
                            } else {
                                Seq::<OpView>::empty()
                            }),
                        ),
                    }
                },
            },
        }
    }
}

/// Allocation initializers compiled in order, with the summed size of their
/// types.
pub open spec fn alloc_inits(
    vals: Seq<ExprView>,
    env: Seq<(Seq<char>, TypeView)>,
    off: u32,
) -> Result<(Seq<OpView>, u32), ErrorView>
    decreases 1 + ewts(vals), 3nat,
    via alloc_inits_dec
{
    if vals.len() == 0 {
        Ok((Seq::empty(), 0u32))
    } else {
        match alloc_inits(vals.drop_last(), env, off) {
            Err(e) => Err(e),
            Ok(pr) => match type_of(vals.last(), env) {
                Err(e) => Err(e),
                Ok(t) => if !has_size(t) {
                    Err(ErrorView::SizeOfFunction(size_err(t)))
                } else {
                    match compile_v(vals.last(), env, off) {
                        Err(e) => Err(e),
                        Ok(op) => Ok(
                            (pr.0.push(op), mir::sat_add(pr.1, sat32(size_of(t)))),
                        ),
                    }
                },
            },
        }
    }
}

#[via_fn]
proof fn compile_v_dec(ev: ExprView, env: Seq<(Seq<char>, TypeView)>, off: u32) {
}

#[via_fn]
proof fn compile_body_v_dec(ev: ExprView, env: Seq<(Seq<char>, TypeView)>, off: u32) {
    match ev {
        ExprView::LetInfer(name, expr, body) => {
            lemma_ewt_pos(*expr);
            lemma_ewt_pos(*body);
        },
        _ => {},
    }
}

#[via_fn]
proof fn compile_nth_v_dec(
    whole: ExprView,
    tup: ExprView,
    n: u32,
    env: Seq<(Seq<char>, TypeView)>,
    off: u32,
) {
}

#[via_fn]
proof fn compile_deref_v_dec(
    whole: ExprView,
    value: ExprView,
    env: Seq<(Seq<char>, TypeView)>,
    off: u32,
) {
}

#[via_fn]
proof fn compile_deref_assign_v_dec(
    whole: ExprView,
    addr: ExprView,
    value: ExprView,
    env: Seq<(Seq<char>, TypeView)>,
    off: u32,
) {
    lemma_ewt_pos(addr);
    lemma_ewt_pos(value);
}

#[via_fn]
proof fn compile_index_v_dec(
    whole: ExprView,
    ptr: ExprView,
    idx: ExprView,
    env: Seq<(Seq<char>, TypeView)>,
    off: u32,
) {
    assert forall|sz: u32|
        ewt(
            ExprView::Deref(
                Box::new(
                    ExprView::Add(
                        Box::new(ptr),
                        Box::new(
                            ExprView::Mul(Box::new(idx), Box::new(ExprView::Integer(sz))),
                        ),
                    ),
                ),
            ),
        ) == 7 + ewt(ptr) + ewt(idx) by {
        assert(ewt(ExprView::Integer(sz)) == 1);
        assert(ewt(ExprView::Mul(Box::new(idx), Box::new(ExprView::Integer(sz)))) == 3 + ewt(idx));
        assert(ewt(
            ExprView::Add(
                Box::new(ptr),
                Box::new(ExprView::Mul(Box::new(idx), Box::new(ExprView::Integer(sz)))),
            ),
        ) == 5 + ewt(ptr) + ewt(idx));
    }
}

#[via_fn]
proof fn compile_refer_index_v_dec(
    whole: ExprView,
    ptr: ExprView,
    idx: ExprView,
    env: Seq<(Seq<char>, TypeView)>,
    off: u32,
) {
    assert forall|sz: u32|
        ewt(
            ExprView::Add(
                Box::new(ptr),
                Box::new(
                    ExprView::Mul(Box::new(ExprView::Integer(sz)), Box::new(idx)),
                ),
            ),
        ) == 5 + ewt(ptr) + ewt(idx) by {
        assert(ewt(ExprView::Integer(sz)) == 1);
        assert(ewt(ExprView::Mul(Box::new(ExprView::Integer(sz)), Box::new(idx))) == 3 + ewt(idx));
    }
}

#[via_fn]
proof fn compile_index_assign_v_dec(
    whole: ExprView,
    ptr: ExprView,
    idx: ExprView,
    val: ExprView,
    env: Seq<(Seq<char>, TypeView)>,
    off: u32,
) {
    assert forall|sz: u32|
        ewt(
            ExprView::DerefAssign(
                Box::new(
                    ExprView::Add(
                        Box::new(ptr),
                        Box::new(
                            ExprView::Mul(Box::new(ExprView::Integer(sz)), Box::new(idx)),
                        ),
                    ),
                ),
                Box::new(val),
            ),
        ) == 7 + ewt(ptr) + ewt(idx) + ewt(val) by {
        assert(ewt(ExprView::Integer(sz)) == 1);
        assert(ewt(ExprView::Mul(Box::new(ExprView::Integer(sz)), Box::new(idx))) == 3 + ewt(idx));
        assert(ewt(
            ExprView::Add(
                Box::new(ptr),
                Box::new(ExprView::Mul(Box::new(ExprView::Integer(sz)), Box::new(idx))),
            ),
        ) == 5 + ewt(ptr) + ewt(idx));
    }
}

#[via_fn]
proof fn compile_assign_v_dec(
    whole: ExprView,
    name: Seq<char>,
    expr: ExprView,
    env: Seq<(Seq<char>, TypeView)>,
    off: u32,
) {
}

#[via_fn]
proof fn compile_alloc_v_dec(
    whole: ExprView,
    x: ExprView,
    t: TypeView,
    inits: Option<Seq<ExprView>>,
    env: Seq<(Seq<char>, TypeView)>,
    off: u32,
) {
    lemma_ewt_pos(x);
}

#[via_fn]
proof fn compile_function_v_dec(
    whole: ExprView,
    params: Seq<(Seq<char>, TypeView)>,
    ret: TypeView,
    body: ExprView,
    env: Seq<(Seq<char>, TypeView)>,
    off: u32,
) {
}

#[via_fn]
proof fn compile_eq_v_dec(
    whole: ExprView,
    a: ExprView,
    b: ExprView,
    env: Seq<(Seq<char>, TypeView)>,
    off: u32,
) {
    lemma_ewt_pos(a);
    lemma_ewt_pos(b);
}

#[via_fn]
proof fn compile_neq_v_dec(
    whole: ExprView,
    a: ExprView,
    b: ExprView,
    env: Seq<(Seq<char>, TypeView)>,
    off: u32,
) {
    lemma_ewt_pos(a);
    lemma_ewt_pos(b);
}

#[via_fn]
proof fn compile_let_dec(
    whole: ExprView,
    name: Seq<char>,
    t: TypeView,
    expr: ExprView,
    body: ExprView,
    env: Seq<(Seq<char>, TypeView)>,
    off: u32,
) {
    lemma_ewt_pos(expr);
    lemma_ewt_pos(body);
}

#[via_fn]
proof fn compile_pair_dec(
    whole: ExprView,
    a: ExprView,
    b: ExprView,
    op: OpView,
    env: Seq<(Seq<char>, TypeView)>,
    off: u32,
) {
    lemma_ewt_pos(a);
    lemma_ewt_pos(b);
}

#[via_fn]
proof fn compiles_seq_dec(items: Seq<ExprView>, env: Seq<(Seq<char>, TypeView)>, off: u32) {
    if items.len() > 0 {
        lemma_ewt_pos(items.last());
    }
}

#[via_fn]
proof fn block_items_dec(items: Seq<ExprView>, env: Seq<(Seq<char>, TypeView)>, off: u32) {
    if items.len() > 0 {
        lemma_ewt_pos(items.last());
    }
}

#[via_fn]
proof fn block_rest_dec(items: Seq<ExprView>, env: Seq<(Seq<char>, TypeView)>, off: u32) {
    if items.len() > 0 {
        lemma_ewt_pos(items.last());
    }
}

#[via_fn]
proof fn alloc_inits_dec(vals: Seq<ExprView>, env: Seq<(Seq<char>, TypeView)>, off: u32) {
    if vals.len() > 0 {
        lemma_ewt_pos(vals.last());
    }
}

} // verus!

verus! {

/// Where the first `i` expressions compile and the `i`-th fails, the whole
/// sequence fails with that error.
proof fn lemma_compiles_seq_err(
    s: Seq<ExprView>,
    env: Seq<(Seq<char>, TypeView)>,
    off: u32,
    i: int,
    e: ErrorView,
)
    requires
        0 <= i < s.len(),
        compiles_seq(s.take(i), env, off) is Ok,
        compile_v(s[i], env, off) == Err::<OpView, ErrorView>(e),
    ensures
        compiles_seq(s, env, off) == Err::<Seq<OpView>, ErrorView>(e),
    decreases s.len(),
{
    if i == s.len() - 1 {
        assert(s.drop_last() =~= s.take(i));
        assert(s.last() == s[i]);
    } else {
        assert(s.drop_last().take(i) =~= s.take(i));
        assert(s.drop_last()[i] == s[i]);
        lemma_compiles_seq_err(s.drop_last(), env, off, i, e);
    }
}

/// What checking one block element yields before any result is kept: its
/// type error, its missing size, or its compilation error.
pub open spec fn block_item_err(
    item: ExprView,
    env: Seq<(Seq<char>, TypeView)>,
    off: u32,
) -> Option<ErrorView> {
    match type_of(item, env) {
        Err(e) => Some(e),
        Ok(t) => if !has_size(t) {
            Some(ErrorView::SizeOfFunction(size_err(t)))
        } else {
            match compile_v(item, env, off) {
                Err(e) => Some(e),
                Ok(_) => None,
            }
        },
    }
}

/// Where the first `i` block elements pass and the `i`-th fails, the whole
/// block fails with that error — whether or not the `i`-th is last.
proof fn lemma_block_err(
    s: Seq<ExprView>,
    env: Seq<(Seq<char>, TypeView)>,
    off: u32,
    i: int,
    e: ErrorView,
)
    requires
        0 <= i < s.len(),
        block_rest(s.take(i), env, off) is Ok,
        block_item_err(s[i], env, off) == Some(e),
    ensures
        block_rest(s, env, off) == Err::<Seq<OpView>, ErrorView>(e),
        block_items(s, env, off) == Err::<Seq<OpView>, ErrorView>(e),
    decreases s.len(),
{
    if i == s.len() - 1 {
        assert(s.drop_last() =~= s.take(i));
        assert(s.last() == s[i]);
    } else {
        assert(s.drop_last().take(i) =~= s.take(i));
        assert(s.drop_last()[i] == s[i]);
        lemma_block_err(s.drop_last(), env, off, i, e);
    }
}

/// Where the first `i` initializers pass and the `i`-th fails, the whole
/// initializer list fails with that error.
proof fn lemma_alloc_inits_err(
    s: Seq<ExprView>,
    env: Seq<(Seq<char>, TypeView)>,
    off: u32,
    i: int,
    e: ErrorView,
)
    requires
        0 <= i < s.len(),
        alloc_inits(s.take(i), env, off) is Ok,
        block_item_err(s[i], env, off) == Some(e),
    ensures
        alloc_inits(s, env, off) == Err::<(Seq<OpView>, u32), ErrorView>(e),
    decreases s.len(),
{
    if i == s.len() - 1 {
        assert(s.drop_last() =~= s.take(i));
        assert(s.last() == s[i]);
    } else {
        assert(s.drop_last().take(i) =~= s.take(i));
        assert(s.drop_last()[i] == s[i]);
        lemma_alloc_inits_err(s.drop_last(), env, off, i, e);
    }
}

/// Saturating addition on cell counts, as the compiler computes offsets.
fn sat_add_exec(a: u32, b: u32) -> (r: u32)
    ensures
        r == mir::sat_add(a, b),
{
    if a > u32::MAX - b {
        u32::MAX
    } else {
        a + b
    }
}

} // verus!

verus! {

/// An expression's view is the zero literal exactly when the expression is.
proof fn lemma_view_int_zero(x: Expr)
    ensures
        (expr_view(x) == ExprView::Integer(0)) <==> (x == Expr::Integer(0u32)),
{
    match x {
        Expr::Integer(n) => {},
        Expr::Bool(b) => {},
        Expr::Character(c) => {},
        Expr::Unit => {},
        Expr::Function(args, ret, body) => {},
        Expr::Let(name, t, val, body) => {},
        Expr::LetInfer(name, val, body) => {},
        Expr::Assign(name, val) => {},
        Expr::Call(name, args) => {},
        Expr::Variable(name) => {},
        Expr::Increment(name) => {},
        Expr::Decrement(name) => {},
        Expr::Refer(name) => {},
        Expr::Deref(val) => {},
        Expr::DerefAssign(a, b) => {},
        Expr::Tuple(items) => {},
        Expr::Nth(t2, n) => {},
        Expr::ReferIndex(p, i) => {},
        Expr::Index(p, i) => {},
        Expr::IndexAssign(p, i, v) => {},
        Expr::Add(a, b) => {},
        Expr::Sub(a, b) => {},
        Expr::Mul(a, b) => {},
        Expr::Div(a, b) => {},
        Expr::Or(a, b) => {},
        Expr::And(a, b) => {},
        Expr::Not(x) => {},
        Expr::Getchar => {},
        Expr::Getnum => {},
        Expr::Putchar(x) => {},
        Expr::Putnum(x) => {},
        Expr::Free(x) => {},
        Expr::Alloc(c2, t, inits) => {},
        Expr::Block(items) => {},
        Expr::While(c2, b) => {},
        Expr::If(c2, b) => {},
        Expr::Eq(a, b) => {},
        Expr::Neq(a, b) => {},
    }
}

/// An expression's view is the nul character literal exactly when the
/// expression is.
proof fn lemma_view_char_nul(x: Expr)
    ensures
        (expr_view(x) == ExprView::Character('\0')) <==> (x == Expr::Character('\0')),
{
    match x {
        Expr::Integer(n) => {},
        Expr::Bool(b) => {},
        Expr::Character(c) => {},
        Expr::Unit => {},
        Expr::Function(args, ret, body) => {},
        Expr::Let(name, t, val, body) => {},
        Expr::LetInfer(name, val, body) => {},
        Expr::Assign(name, val) => {},
        Expr::Call(name, args) => {},
        Expr::Variable(name) => {},
        Expr::Increment(name) => {},
        Expr::Decrement(name) => {},
        Expr::Refer(name) => {},
        Expr::Deref(val) => {},
        Expr::DerefAssign(a, b) => {},
        Expr::Tuple(items) => {},
        Expr::Nth(t2, n) => {},
        Expr::ReferIndex(p, i) => {},
        Expr::Index(p, i) => {},
        Expr::IndexAssign(p, i, v) => {},
        Expr::Add(a, b) => {},
        Expr::Sub(a, b) => {},
        Expr::Mul(a, b) => {},
        Expr::Div(a, b) => {},
        Expr::Or(a, b) => {},
        Expr::And(a, b) => {},
        Expr::Not(x) => {},
        Expr::Getchar => {},
        Expr::Getnum => {},
        Expr::Putchar(x) => {},
        Expr::Putnum(x) => {},
        Expr::Free(x) => {},
        Expr::Alloc(c2, t, inits) => {},
        Expr::Block(items) => {},
        Expr::While(c2, b) => {},
        Expr::If(c2, b) => {},
        Expr::Eq(a, b) => {},
        Expr::Neq(a, b) => {},
    }
}

} // verus!

verus! {

proof fn lemma_ops_view_empty()
    ensures
        mir::ops_view(Seq::<Op>::empty()) == Seq::<OpView>::empty(),
{
}

proof fn lemma_ops_view_push(s: Seq<Op>, op: Op)
    ensures
        mir::ops_view(s.push(op)) == mir::ops_view(s).push(mir::op_view(op)),
{
    assert(s.push(op).drop_last() =~= s);
    assert(s.push(op).last() == op);
}

proof fn lemma_ops_view_matches(v: Seq<Op>, target: Seq<OpView>)
    requires
        v.len() == target.len(),
        forall|i: int| 0 <= i < v.len() ==> mir::op_view(#[trigger] v[i]) == target[i],
    ensures
        mir::ops_view(v) == target,
{
    mir::lemma_ops_view_index(v);
    assert(mir::ops_view(v) =~= target);
}

/// The cell the stack pointer's target points to, as the increment and
/// decrement forms address it.
fn sp_deref2() -> (r: mir::Location)
    ensures
        r == stack_target(),
{
    mir::sp().deref().deref()
}

impl Expr {
    /// Lowers this expression to a stack-machine operation under the
    /// environment, threading the frame offset for `let` slots; the offset
    /// is restored on every exit.  Lowering succeeds exactly where the
    /// lowering discipline `compile_v` does, and fails with exactly its
    /// error.
    #[verifier::rlimit(100)]
    pub fn compile(&self, scope: &TypeEnv, offset: &mut u32) -> (r: Result<Op, Error>)
        ensures
            *final(offset) == *old(offset),
            match compile_v(self@, scope@, *old(offset)) {
                Ok(opv) => r matches Ok(op) && op@ == opv,
                Err(e) => r matches Err(er) && er@ == e,
            },
        decreases ewt(self@), 1nat,
    {
        let ghost ev = self@;
        let ghost env = scope@;
        let ghost off0 = *offset;
        if let Err(e) = self.type_check(scope) {
            return Err(e);
        }
        proof {
            assert(type_of(ev, env) is Ok);
            assert(compile_v(ev, env, off0) == compile_body_v(ev, env, off0));
        }
        match self {
            Expr::Tuple(items) => self.compile_tuple(items, scope, offset),
            Expr::Increment(name) => self.compile_increment(name, scope, offset),
            Expr::Decrement(name) => self.compile_decrement(name, scope, offset),
            Expr::Nth(tup, n) => self.compile_nth(tup, *n, scope, offset),
            Expr::Refer(name) => self.compile_refer(name, scope, offset),
            Expr::Deref(value) => self.compile_deref(value, scope, offset),
            Expr::DerefAssign(addr, value) => self.compile_deref_assign(addr, value, scope, offset),
            Expr::Index(ptr, idx) => self.compile_index(ptr, idx, scope, offset),
            Expr::ReferIndex(ptr, idx) => self.compile_refer_index(ptr, idx, scope, offset),
            Expr::IndexAssign(ptr, idx, val) => self.compile_index_assign(
                ptr,
                idx,
                val,
                scope,
                offset,
            ),
            Expr::Block(items) => self.compile_block(items, scope, offset),
            Expr::Assign(name, expr) => self.compile_assign(name, expr, scope, offset),
            Expr::If(cond, body) => self.compile_if(cond, body, scope, offset),
            Expr::While(cond, body) => self.compile_while(cond, body, scope, offset),
            Expr::Unit => self.compile_leaf(scope, offset),
            Expr::Integer(_) => self.compile_leaf(scope, offset),
            Expr::Bool(_) => self.compile_leaf(scope, offset),
            Expr::Character(_) => self.compile_leaf(scope, offset),
            Expr::Getchar => self.compile_leaf(scope, offset),
            Expr::Getnum => self.compile_leaf(scope, offset),
            Expr::Putchar(x) => self.compile_putchar(x, scope, offset),
            Expr::Putnum(x) => self.compile_putnum(x, scope, offset),
            Expr::Alloc(x, t, inits) => self.compile_alloc(x, t, inits, scope, offset),
            Expr::Free(x) => self.compile_free(x, scope, offset),
            Expr::Function(args, ret, body) => self.compile_function(args, ret, body, scope, offset),
            Expr::Add(a, b) => self.compile_pair_exec(a, b, Op::Add, scope, offset),
            Expr::Sub(a, b) => self.compile_pair_exec(a, b, Op::Sub, scope, offset),
            Expr::Mul(a, b) => self.compile_pair_exec(a, b, Op::Mul, scope, offset),
            Expr::Div(a, b) => self.compile_pair_exec(a, b, Op::Div, scope, offset),
            Expr::And(a, b) => self.compile_pair_exec(a, b, Op::And, scope, offset),
            Expr::Or(a, b) => self.compile_pair_exec(a, b, Op::Or, scope, offset),
            Expr::Not(x) => self.compile_not(x, scope, offset),
            Expr::Eq(a, b) => self.compile_eq(a, b, scope, offset),
            Expr::Neq(a, b) => self.compile_neq(a, b, scope, offset),
            Expr::Variable(name) => self.compile_variable(name, scope, offset),
            Expr::Let(name, t, expr, body) => self.compile_let_binding(
                name,
                t,
                expr,
                body,
                scope,
                offset,
            ),
            Expr::LetInfer(name, expr, body) => self.compile_let_infer(
                name,
                expr,
                body,
                scope,
                offset,
            ),
            Expr::Call(name, args) => self.compile_call_args(name, args, scope, offset),
        }
    }

    /// The lowering of the childless forms: the literals and the reads.
    #[verifier::rlimit(100)]
    fn compile_leaf(&self, scope: &TypeEnv, offset: &mut u32) -> (r: Result<Op, Error>)
        requires
            self@ matches ExprView::Integer(_) || self@ matches ExprView::Bool(_) || self@ matches
                ExprView::Character(_) || self@ == ExprView::Unit || self@ == ExprView::Getchar
                || self@ == ExprView::Getnum,
        ensures
            *final(offset) == *old(offset),
            match compile_body_v(self@, scope@, *old(offset)) {
                Ok(opv) => r matches Ok(o) && o@ == opv,
                Err(e) => r matches Err(er) && er@ == e,
            },
    {
        match self {
            Expr::Integer(i) => Ok(Op::PushLiteral(mir::Literal(*i))),
            Expr::Bool(b) => Ok(
                Op::PushLiteral(
                    mir::Literal(
                        if *b {
                            1
                        } else {
                            0
                        },
                    ),
                ),
            ),
            Expr::Character(ch) => {
                let code: u32 = *ch as u32;
                Ok(Op::PushLiteral(mir::Literal(code % 0x100)))
            },
            Expr::Unit => {
                let parts: Vec<Op> = Vec::new();
                proof {
                    assert(mir::ops_view(parts@) =~= Seq::<OpView>::empty());
                }
                Ok(Op::Do(parts))
            },
            Expr::Getchar => Ok(Op::Getchar),
            Expr::Getnum => Ok(Op::Getnum),
            _ => {
                proof {
                    assert(false);
                }
                Ok(Op::Getnum)
            },
        }
    }

    /// The lowering of a reference to a name: the macro holding its address.
    #[verifier::rlimit(100)]
    fn compile_refer(&self, name: &String, scope: &TypeEnv, offset: &mut u32) -> (r: Result<
        Op,
        Error,
    >)
        requires
            self@ == ExprView::Refer(name@),
        ensures
            *final(offset) == *old(offset),
            match compile_body_v(self@, scope@, *old(offset)) {
                Ok(opv) => r matches Ok(o) && o@ == opv,
                Err(e) => r matches Err(er) && er@ == e,
            },
    {
        Ok(Op::Macro(name.clone()))
    }

    /// The shared lowering of the binary operators: both operands in order,
    /// then the operator.
    #[verifier::rlimit(100)]
    fn compile_pair_exec(
        &self,
        a: &Expr,
        b: &Expr,
        op: Op,
        scope: &TypeEnv,
        offset: &mut u32,
    ) -> (r: Result<Op, Error>)
        requires
            ewt(a@) < ewt(self@),
            ewt(b@) < ewt(self@),
        ensures
            *final(offset) == *old(offset),
            match compile_pair(self@, a@, b@, op@, scope@, *old(offset)) {
                Ok(opv) => r matches Ok(o) && o@ == opv,
                Err(e) => r matches Err(er) && er@ == e,
            },
        decreases ewt(self@), 0nat,
    {
        let aop = match a.compile(scope, offset) {
            Ok(o) => o,
            Err(e) => {
                return Err(e);
            },
        };
        let bop = match b.compile(scope, offset) {
            Ok(o) => o,
            Err(e) => {
                return Err(e);
            },
        };
        let ghost opv = op@;
        let parts: Vec<Op> = vec![aop, bop, op];
        proof {
            lemma_ops_view_matches(
                parts@,
                seq![mir::op_view(parts@[0]), mir::op_view(parts@[1]), opv],
            );
        }
        Ok(Op::Do(parts))
    }

    /// The lowering of a tuple: its elements in order, concatenated onto the
    /// stack.
    #[verifier::loop_isolation(false)]
    #[verifier::rlimit(100)]
    fn compile_tuple(&self, items: &Vec<Expr>, scope: &TypeEnv, offset: &mut u32) -> (r: Result<
        Op,
        Error,
    >)
        requires
            self@ == ExprView::Tuple(exprs_view(items@)),
        ensures
            *final(offset) == *old(offset),
            match compile_body_v(self@, scope@, *old(offset)) {
                Ok(opv) => r matches Ok(o) && o@ == opv,
                Err(e) => r matches Err(er) && er@ == e,
            },
        decreases ewt(self@), 0nat,
    {
        let ghost ev = self@;
        let ghost env = scope@;
        let ghost off0 = *offset;
        let ghost iv = exprs_view(items@);
        proof {
            lemma_exprs_view_index(items@);
            assert(ewt(ev) == 2 + ewts(iv));
            assert(iv.take(0) =~= Seq::<ExprView>::empty());
        }
        let mut ops: Vec<Op> = Vec::new();
        let mut i: usize = 0;
        proof {
            assert(mir::ops_view(ops@) =~= Seq::<OpView>::empty());
        }
        while i < items.len()
            invariant
                i <= items@.len(),
                *offset == off0,
                compiles_seq(iv.take(i as int), env, off0) == Ok::<Seq<OpView>, ErrorView>(
                    mir::ops_view(ops@),
                ),
            decreases items@.len() - i,
        {
            proof {
                lemma_ewts_elem(iv, i as int);
            }
            match items[i].compile(scope, offset) {
                Ok(op) => {
                    let ghost prev = ops@;
                    ops.push(op);
                    i = i + 1;
                    proof {
                        assert(iv.take(i as int).drop_last() =~= iv.take(i as int - 1));
                        assert(iv.take(i as int).last() == iv[i as int - 1]);
                        lemma_ops_view_push(prev, ops@.last());
                        assert(ops@ =~= prev.push(ops@.last()));
                    }
                },
                Err(e) => {
                    proof {
                        lemma_compiles_seq_err(iv, env, off0, i as int, e@);
                    }
                    return Err(e);
                },
            }
        }
        proof {
            assert(iv.take(items@.len() as int) =~= iv);
        }
        Ok(Op::Do(ops))
    }

    /// The lowering of an increment of a named integer: its address, a raw
    /// bump of the cell it names, and the address dropped again.
    #[verifier::rlimit(100)]
    fn compile_increment(&self, name: &String, scope: &TypeEnv, offset: &mut u32) -> (r: Result<
        Op,
        Error,
    >)
        requires
            self@ == ExprView::Increment(name@),
        ensures
            *final(offset) == *old(offset),
            match compile_body_v(self@, scope@, *old(offset)) {
                Ok(opv) => r matches Ok(o) && o@ == opv,
                Err(e) => r matches Err(er) && er@ == e,
            },
        decreases ewt(self@), 0nat,
    {
        let refer = match Expr::Refer(name.clone()).compile(scope, offset) {
            Ok(op) => op,
            Err(e) => {
                return Err(e);
            },
        };
        let parts: Vec<Op> = vec![refer, Op::Increment(sp_deref2(), 1), Op::Stfree(1)];
        proof {
            lemma_ops_view_matches(
                parts@,
                seq![
                    mir::op_view(parts@[0]),
                    OpView::Increment(stack_target(), 1),
                    OpView::Stfree(1),
                ],
            );
        }
        Ok(Op::Do(parts))
    }

    /// The lowering of a decrement of a named integer.
    #[verifier::rlimit(100)]
    fn compile_decrement(&self, name: &String, scope: &TypeEnv, offset: &mut u32) -> (r: Result<
        Op,
        Error,
    >)
        requires
            self@ == ExprView::Decrement(name@),
        ensures
            *final(offset) == *old(offset),
            match compile_body_v(self@, scope@, *old(offset)) {
                Ok(opv) => r matches Ok(o) && o@ == opv,
                Err(e) => r matches Err(er) && er@ == e,
            },
        decreases ewt(self@), 0nat,
    {
        let refer = match Expr::Refer(name.clone()).compile(scope, offset) {
            Ok(op) => op,
            Err(e) => {
                return Err(e);
            },
        };
        let parts: Vec<Op> = vec![refer, Op::Decrement(sp_deref2(), 1), Op::Stfree(1)];
        proof {
            lemma_ops_view_matches(
                parts@,
                seq![
                    mir::op_view(parts@[0]),
                    OpView::Decrement(stack_target(), 1),
                    OpView::Stfree(1),
                ],
            );
        }
        Ok(Op::Do(parts))
    }

    /// The lowering of a tuple field access: the tuple is spilled to a heap
    /// block, the field's cells are loaded from its offset, and the block is
    /// freed.
    #[verifier::rlimit(100)]
    fn compile_nth(&self, tup: &Expr, n: u32, scope: &TypeEnv, offset: &mut u32) -> (r: Result<
        Op,
        Error,
    >)
        requires
            self@ == ExprView::Nth(Box::new(tup@), n),
        ensures
            *final(offset) == *old(offset),
            match compile_body_v(self@, scope@, *old(offset)) {
                Ok(opv) => r matches Ok(o) && o@ == opv,
                Err(e) => r matches Err(er) && er@ == e,
            },
        decreases ewt(self@), 0nat,
    {
        let ghost ev = self@;
        proof {
            assert(ewt(ev) == 2 + ewt(tup@));
        }
        let tt = match tup.get_type(scope) {
            Ok(t) => t,
            Err(e) => {
                return Err(e);
            },
        };
        let tup_size = match tt.get_size() {
            Ok(sz) => sz,
            Err(e) => {
                return Err(e);
            },
        };
        match tt.nth(n) {
            Some(pair) => {
                let item_size = match pair.0.get_size() {
                    Ok(sz) => sz,
                    Err(e) => {
                        return Err(e);
                    },
                };
                let size_before = pair.1;
                let tup_op = match tup.compile(scope, offset) {
                    Ok(op) => op,
                    Err(e) => {
                        return Err(e);
                    },
                };
                let parts: Vec<Op> = vec![
                    tup_op,
                    Op::PushLiteral(mir::Literal(tup_size)),
                    Op::Alloc,
                    Op::Duplicate,
                    Op::StoreAt(mir::r1(), 1),
                    Op::Store(tup_size),
                    Op::LoadFrom(mir::r1(), 1),
                    Op::PushLiteral(mir::Literal(size_before)),
                    Op::Add,
                    Op::Load(item_size),
                    Op::LoadFrom(mir::r1(), 1),
                    Op::Free,
                ];
                proof {
                    lemma_ops_view_matches(
                        parts@,
                        seq![
                            mir::op_view(parts@[0]),
                            OpView::PushLiteral(mir::Literal(tup_size)),
                            OpView::Alloc,
                            OpView::Duplicate,
                            OpView::StoreAt(mir::spec_r1(), 1),
                            OpView::Store(tup_size),
                            OpView::LoadFrom(mir::spec_r1(), 1),
                            OpView::PushLiteral(mir::Literal(size_before)),
                            OpView::Add,
                            OpView::Load(item_size),
                            OpView::LoadFrom(mir::spec_r1(), 1),
                            OpView::Free,
                        ],
                    );
                }
                Ok(Op::Do(parts))
            },
            None => Err(Error::NthOfNonTuple(self.clone(), tt)),
        }
    }

    /// The lowering of a dereference: the pointer's value, then a load of
    /// the pointee's cells.
    #[verifier::rlimit(100)]
    fn compile_deref(&self, value: &Expr, scope: &TypeEnv, offset: &mut u32) -> (r: Result<
        Op,
        Error,
    >)
        requires
            self@ == ExprView::Deref(Box::new(value@)),
        ensures
            *final(offset) == *old(offset),
            match compile_body_v(self@, scope@, *old(offset)) {
                Ok(opv) => r matches Ok(o) && o@ == opv,
                Err(e) => r matches Err(er) && er@ == e,
            },
        decreases ewt(self@), 0nat,
    {
        let ghost ev = self@;
        proof {
            assert(ewt(ev) == 2 + ewt(value@));
        }
        let pt = match value.get_type(scope) {
            Ok(t) => t,
            Err(e) => {
                return Err(e);
            },
        };
        match pt {
            Type::Pointer(t) => {
                let vop = match value.compile(scope, offset) {
                    Ok(op) => op,
                    Err(e) => {
                        return Err(e);
                    },
                };
                let size = match t.get_size() {
                    Ok(sz) => sz,
                    Err(e) => {
                        return Err(e);
                    },
                };
                let parts: Vec<Op> = vec![vop, Op::Load(size)];
                proof {
                    lemma_ops_view_matches(
                        parts@,
                        seq![mir::op_view(parts@[0]), OpView::Load(size)],
                    );
                }
                Ok(Op::Do(parts))
            },
            _ => Err(Error::DerefNonPointer(self.clone(), pt)),
        }
    }

    /// The lowering of a store through a pointer: the value, the address,
    /// and a store of the value's cells.
    #[verifier::rlimit(100)]
    fn compile_deref_assign(
        &self,
        addr: &Expr,
        value: &Expr,
        scope: &TypeEnv,
        offset: &mut u32,
    ) -> (r: Result<Op, Error>)
        requires
            self@ == ExprView::DerefAssign(Box::new(addr@), Box::new(value@)),
        ensures
            *final(offset) == *old(offset),
            match compile_body_v(self@, scope@, *old(offset)) {
                Ok(opv) => r matches Ok(o) && o@ == opv,
                Err(e) => r matches Err(er) && er@ == e,
            },
        decreases ewt(self@), 0nat,
    {
        let ghost ev = self@;
        proof {
            lemma_ewt_pos(addr@);
            lemma_ewt_pos(value@);
            assert(ewt(ev) == 2 + ewt(addr@) + ewt(value@));
        }
        let vop = match value.compile(scope, offset) {
            Ok(op) => op,
            Err(e) => {
                return Err(e);
            },
        };
        let aop = match addr.compile(scope, offset) {
            Ok(op) => op,
            Err(e) => {
                return Err(e);
            },
        };
        let vt = match value.get_type(scope) {
            Ok(t) => t,
            Err(e) => {
                return Err(e);
            },
        };
        let size = match vt.get_size() {
            Ok(sz) => sz,
            Err(e) => {
                return Err(e);
            },
        };
        let parts: Vec<Op> = vec![vop, aop, Op::Store(size)];
        proof {
            lemma_ops_view_matches(
                parts@,
                seq![mir::op_view(parts@[0]), mir::op_view(parts@[1]), OpView::Store(size)],
            );
        }
        Ok(Op::Do(parts))
    }
}

} // verus!

verus! {

impl Expr {
    /// The lowering of pointer indexing, rewritten into dereferenced
    /// pointer arithmetic: `*(p + i * size)`.
    #[verifier::rlimit(60)]
    fn compile_index(&self, ptr: &Expr, idx: &Expr, scope: &TypeEnv, offset: &mut u32) -> (r:
        Result<Op, Error>)
        requires
            self@ == ExprView::Index(Box::new(ptr@), Box::new(idx@)),
        ensures
            *final(offset) == *old(offset),
            match compile_body_v(self@, scope@, *old(offset)) {
                Ok(opv) => r matches Ok(o) && o@ == opv,
                Err(e) => r matches Err(er) && er@ == e,
            },
        decreases ewt(self@), 0nat,
    {
        let ghost ev = self@;
        proof {
            lemma_ewt_pos(ptr@);
            lemma_ewt_pos(idx@);
            assert(ewt(ev) == 9 + ewt(ptr@) + ewt(idx@));
        }
        let pt = match ptr.get_type(scope) {
            Ok(t) => t,
            Err(e) => {
                return Err(e);
            },
        };
        match pt {
            Type::Pointer(t) => {
                let size = match t.get_size() {
                    Ok(sz) => sz,
                    Err(e) => {
                        return Err(e);
                    },
                };
                let rewritten = Expr::Deref(
                    Box::new(
                        Expr::Add(
                            Box::new((*ptr).clone()),
                            Box::new(
                                Expr::Mul(
                                    Box::new((*idx).clone()),
                                    Box::new(Expr::Integer(size)),
                                ),
                            ),
                        ),
                    ),
                );
                proof {
                    reveal_with_fuel(expr_view, 5);
                    assert(rewritten@ == ExprView::Deref(
                        Box::new(
                            ExprView::Add(
                                Box::new(ptr@),
                                Box::new(
                                    ExprView::Mul(
                                        Box::new(idx@),
                                        Box::new(ExprView::Integer(size)),
                                    ),
                                ),
                            ),
                        ),
                    ));
                    assert(ewt(ExprView::Integer(size)) == 1);
                    assert(ewt(ExprView::Mul(Box::new(idx@), Box::new(ExprView::Integer(size))))
                        == 3 + ewt(idx@));
                    assert(ewt(ExprView::Add(
                        Box::new(ptr@),
                        Box::new(
                            ExprView::Mul(Box::new(idx@), Box::new(ExprView::Integer(size))),
                        ),
                    )) == 5 + ewt(ptr@) + ewt(idx@));
                    assert(ewt(rewritten@) == 7 + ewt(ptr@) + ewt(idx@));
                }
                rewritten.compile(scope, offset)
            },
            _ => Err(Error::DerefNonPointer(self.clone(), pt)),
        }
    }

    /// The lowering of an indexed address, rewritten into pointer
    /// arithmetic: `p + size * i`.
    #[verifier::rlimit(60)]
    fn compile_refer_index(&self, ptr: &Expr, idx: &Expr, scope: &TypeEnv, offset: &mut u32) -> (r:
        Result<Op, Error>)
        requires
            self@ == ExprView::ReferIndex(Box::new(ptr@), Box::new(idx@)),
        ensures
            *final(offset) == *old(offset),
            match compile_body_v(self@, scope@, *old(offset)) {
                Ok(opv) => r matches Ok(o) && o@ == opv,
                Err(e) => r matches Err(er) && er@ == e,
            },
        decreases ewt(self@), 0nat,
    {
        let ghost ev = self@;
        proof {
            lemma_ewt_pos(ptr@);
            lemma_ewt_pos(idx@);
            assert(ewt(ev) == 9 + ewt(ptr@) + ewt(idx@));
        }
        let pt = match ptr.get_type(scope) {
            Ok(t) => t,
            Err(e) => {
                return Err(e);
            },
        };
        match pt {
            Type::Pointer(t) => {
                let size = match t.get_size() {
                    Ok(sz) => sz,
                    Err(e) => {
                        return Err(e);
                    },
                };
                let rewritten = Expr::Add(
                    Box::new((*ptr).clone()),
                    Box::new(
                        Expr::Mul(
                            Box::new(Expr::Integer(size)),
                            Box::new((*idx).clone()),
                        ),
                    ),
                );
                proof {
                    reveal_with_fuel(expr_view, 5);
                    assert(rewritten@ == ExprView::Add(
                        Box::new(ptr@),
                        Box::new(
                            ExprView::Mul(
                                Box::new(ExprView::Integer(size)),
                                Box::new(idx@),
                            ),
                        ),
                    ));
                    assert(ewt(ExprView::Integer(size)) == 1);
                    assert(ewt(ExprView::Mul(Box::new(ExprView::Integer(size)), Box::new(idx@)))
                        == 3 + ewt(idx@));
                    assert(ewt(rewritten@) == 5 + ewt(ptr@) + ewt(idx@));
                }
                rewritten.compile(scope, offset)
            },
            _ => Err(Error::DerefNonPointer(self.clone(), pt)),
        }
    }

    /// The lowering of an indexed store, rewritten into a store through
    /// pointer arithmetic: `*(p + size * i) = v`.
    #[verifier::rlimit(60)]
    fn compile_index_assign(
        &self,
        ptr: &Expr,
        idx: &Expr,
        val: &Expr,
        scope: &TypeEnv,
        offset: &mut u32,
    ) -> (r: Result<Op, Error>)
        requires
            self@ == ExprView::IndexAssign(Box::new(ptr@), Box::new(idx@), Box::new(val@)),
        ensures
            *final(offset) == *old(offset),
            match compile_body_v(self@, scope@, *old(offset)) {
                Ok(opv) => r matches Ok(o) && o@ == opv,
                Err(e) => r matches Err(er) && er@ == e,
            },
        decreases ewt(self@), 0nat,
    {
        let ghost ev = self@;
        proof {
            lemma_ewt_pos(ptr@);
            lemma_ewt_pos(idx@);
            lemma_ewt_pos(val@);
            assert(ewt(ev) == 9 + ewt(ptr@) + ewt(idx@) + ewt(val@));
        }
        let pt = match ptr.get_type(scope) {
            Ok(t) => t,
            Err(e) => {
                return Err(e);
            },
        };
        match pt {
            Type::Pointer(t) => {
                let size = match t.get_size() {
                    Ok(sz) => sz,
                    Err(e) => {
                        return Err(e);
                    },
                };
                let rewritten = Expr::DerefAssign(
                    Box::new(
                        Expr::Add(
                            Box::new((*ptr).clone()),
                            Box::new(
                                Expr::Mul(
                                    Box::new(Expr::Integer(size)),
                                    Box::new((*idx).clone()),
                                ),
                            ),
                        ),
                    ),
                    Box::new((*val).clone()),
                );
                proof {
                    reveal_with_fuel(expr_view, 5);
                    assert(rewritten@ == ExprView::DerefAssign(
                        Box::new(
                            ExprView::Add(
                                Box::new(ptr@),
                                Box::new(
                                    ExprView::Mul(
                                        Box::new(ExprView::Integer(size)),
                                        Box::new(idx@),
                                    ),
                                ),
                            ),
                        ),
                        Box::new(val@),
                    ));
                    assert(ewt(ExprView::Integer(size)) == 1);
                    assert(ewt(ExprView::Mul(Box::new(ExprView::Integer(size)), Box::new(idx@)))
                        == 3 + ewt(idx@));
                    assert(ewt(ExprView::Add(
                        Box::new(ptr@),
                        Box::new(
                            ExprView::Mul(Box::new(ExprView::Integer(size)), Box::new(idx@)),
                        ),
                    )) == 5 + ewt(ptr@) + ewt(idx@));
                    assert(ewt(rewritten@) == 7 + ewt(ptr@) + ewt(idx@) + ewt(val@));
                }
                rewritten.compile(scope, offset)
            },
            _ => Err(Error::DerefNonPointer(self.clone(), pt)),
        }
    }

    /// The lowering of a block: its elements in order, each but the last
    /// followed by a `Stfree` of its size when it leaves anything on the
    /// stack.
    #[verifier::loop_isolation(false)]
    #[verifier::rlimit(100)]
    fn compile_block(&self, items: &Vec<Expr>, scope: &TypeEnv, offset: &mut u32) -> (r: Result<
        Op,
        Error,
    >)
        requires
            self@ == ExprView::Block(exprs_view(items@)),
        ensures
            *final(offset) == *old(offset),
            match compile_body_v(self@, scope@, *old(offset)) {
                Ok(opv) => r matches Ok(o) && o@ == opv,
                Err(e) => r matches Err(er) && er@ == e,
            },
        decreases ewt(self@), 0nat,
    {
        let ghost ev = self@;
        let ghost env = scope@;
        let ghost off0 = *offset;
        let ghost iv = exprs_view(items@);
        proof {
            lemma_exprs_view_index(items@);
            assert(ewt(ev) == 2 + ewts(iv));
            assert(iv.take(0) =~= Seq::<ExprView>::empty());
        }
        let mut ops: Vec<Op> = Vec::new();
        let mut i: usize = 0;
        proof {
            assert(mir::ops_view(ops@) =~= Seq::<OpView>::empty());
        }
        while i < items.len()
            invariant
                i <= items@.len(),
                *offset == off0,
                i == 0 ==> ops@ == Seq::<Op>::empty(),
                i < items@.len() ==> block_rest(iv.take(i as int), env, off0) == Ok::<
                    Seq<OpView>,
                    ErrorView,
                >(mir::ops_view(ops@)),
                i == items@.len() && i > 0 ==> block_items(iv, env, off0) == Ok::<
                    Seq<OpView>,
                    ErrorView,
                >(mir::ops_view(ops@)),
            decreases items@.len() - i,
        {
            proof {
                lemma_ewts_elem(iv, i as int);
            }
            let t = match items[i].get_type(scope) {
                Ok(t) => t,
                Err(e) => {
                    proof {
                        lemma_block_err(iv, env, off0, i as int, e@);
                    }
                    return Err(e);
                },
            };
            let size = match t.get_size() {
                Ok(sz) => sz,
                Err(e) => {
                    proof {
                        lemma_block_err(iv, env, off0, i as int, e@);
                    }
                    return Err(e);
                },
            };
            let op = match items[i].compile(scope, offset) {
                Ok(op) => op,
                Err(e) => {
                    proof {
                        lemma_block_err(iv, env, off0, i as int, e@);
                    }
                    return Err(e);
                },
            };
            let ghost prev = ops@;
            ops.push(op);
            let emitted_free = size > 0 && i + 1 < items.len();
            if emitted_free {
                ops.push(Op::Stfree(size));
            }
            i = i + 1;
            proof {
                assert(iv.take(i as int).drop_last() =~= iv.take(i as int - 1));
                assert(iv.take(i as int).last() == iv[i as int - 1]);
                let mid = prev.push(op);
                lemma_ops_view_push(prev, op);
                if emitted_free {
                    assert(ops@ =~= mid.push(Op::Stfree(size)));
                    lemma_ops_view_push(mid, Op::Stfree(size));
                    assert(mir::ops_view(ops@) =~= mir::ops_view(prev).push(mir::op_view(op))
                        + seq![OpView::Stfree(size)]);
                } else {
                    assert(ops@ =~= mid);
                    if i < items@.len() {
                        assert(mir::ops_view(ops@) =~= mir::ops_view(prev).push(mir::op_view(op))
                            + Seq::<OpView>::empty());
                    }
                }
                if i == items@.len() {
                    assert(iv.drop_last() =~= iv.take(i as int - 1));
                    assert(iv.last() == iv[i as int - 1]);
                }
            }
        }
        proof {
            if items@.len() == 0 {
                lemma_ops_view_empty();
                assert(iv.len() == 0);
            }
        }
        Ok(Op::Do(ops))
    }

    /// The lowering of an assignment to a name: the value, the name's
    /// address macro, and a store of the name's cells.
    #[verifier::rlimit(100)]
    fn compile_assign(&self, name: &String, expr: &Expr, scope: &TypeEnv, offset: &mut u32) -> (r:
        Result<Op, Error>)
        requires
            self@ == ExprView::Assign(name@, Box::new(expr@)),
        ensures
            *final(offset) == *old(offset),
            match compile_body_v(self@, scope@, *old(offset)) {
                Ok(opv) => r matches Ok(o) && o@ == opv,
                Err(e) => r matches Err(er) && er@ == e,
            },
        decreases ewt(self@), 0nat,
    {
        let ghost ev = self@;
        proof {
            assert(ewt(ev) == 2 + ewt(expr@));
        }
        let eop = match expr.compile(scope, offset) {
            Ok(op) => op,
            Err(e) => {
                return Err(e);
            },
        };
        let size = match scope.get(name) {
            Some(t) => match t.get_size() {
                Ok(sz) => sz,
                Err(e) => {
                    return Err(e);
                },
            },
            None => {
                return Err(Error::VariableNotInScope(name.clone()));
            },
        };
        let parts: Vec<Op> = vec![eop, Op::Macro(name.clone()), Op::Store(size)];
        proof {
            lemma_ops_view_matches(
                parts@,
                seq![mir::op_view(parts@[0]), OpView::Macro(name@), OpView::Store(size)],
            );
        }
        Ok(Op::Do(parts))
    }

    /// The lowering of a conditional: the condition and body as the two
    /// children of a structured one-shot `If`.
    #[verifier::rlimit(100)]
    fn compile_if(&self, cond: &Expr, body: &Expr, scope: &TypeEnv, offset: &mut u32) -> (r:
        Result<Op, Error>)
        requires
            self@ == ExprView::If(Box::new(cond@), Box::new(body@)),
        ensures
            *final(offset) == *old(offset),
            match compile_body_v(self@, scope@, *old(offset)) {
                Ok(opv) => r matches Ok(o) && o@ == opv,
                Err(e) => r matches Err(er) && er@ == e,
            },
        decreases ewt(self@), 0nat,
    {
        let ghost ev = self@;
        proof {
            lemma_ewt_pos(cond@);
            lemma_ewt_pos(body@);
            assert(ewt(ev) == 2 + ewt(cond@) + ewt(body@));
        }
        let cop = match cond.compile(scope, offset) {
            Ok(op) => op,
            Err(e) => {
                return Err(e);
            },
        };
        let bop = match body.compile(scope, offset) {
            Ok(op) => op,
            Err(e) => {
                return Err(e);
            },
        };
        let cv: Vec<Op> = vec![cop];
        let bv: Vec<Op> = vec![bop];
        proof {
            lemma_ops_view_matches(cv@, seq![mir::op_view(cv@[0])]);
            lemma_ops_view_matches(bv@, seq![mir::op_view(bv@[0])]);
        }
        Ok(Op::If(cv, bv))
    }

    /// The lowering of a loop: the condition and body as the two children
    /// of a structured `While`.
    #[verifier::rlimit(100)]
    fn compile_while(&self, cond: &Expr, body: &Expr, scope: &TypeEnv, offset: &mut u32) -> (r:
        Result<Op, Error>)
        requires
            self@ == ExprView::While(Box::new(cond@), Box::new(body@)),
        ensures
            *final(offset) == *old(offset),
            match compile_body_v(self@, scope@, *old(offset)) {
                Ok(opv) => r matches Ok(o) && o@ == opv,
                Err(e) => r matches Err(er) && er@ == e,
            },
        decreases ewt(self@), 0nat,
    {
        let ghost ev = self@;
        proof {
            lemma_ewt_pos(cond@);
            lemma_ewt_pos(body@);
            assert(ewt(ev) == 2 + ewt(cond@) + ewt(body@));
        }
        let cop = match cond.compile(scope, offset) {
            Ok(op) => op,
            Err(e) => {
                return Err(e);
            },
        };
        let bop = match body.compile(scope, offset) {
            Ok(op) => op,
            Err(e) => {
                return Err(e);
            },
        };
        let cv: Vec<Op> = vec![cop];
        let bv: Vec<Op> = vec![bop];
        proof {
            lemma_ops_view_matches(cv@, seq![mir::op_view(cv@[0])]);
            lemma_ops_view_matches(bv@, seq![mir::op_view(bv@[0])]);
        }
        Ok(Op::While(cv, bv))
    }

    /// The lowering of a character write: the operand, then the write.
    #[verifier::rlimit(100)]
    fn compile_putchar(&self, x: &Expr, scope: &TypeEnv, offset: &mut u32) -> (r: Result<
        Op,
        Error,
    >)
        requires
            self@ == ExprView::Putchar(Box::new(x@)),
        ensures
            *final(offset) == *old(offset),
            match compile_body_v(self@, scope@, *old(offset)) {
                Ok(opv) => r matches Ok(o) && o@ == opv,
                Err(e) => r matches Err(er) && er@ == e,
            },
        decreases ewt(self@), 0nat,
    {
        let ghost ev = self@;
        proof {
            assert(ewt(ev) == 2 + ewt(x@));
        }
        let xop = match x.compile(scope, offset) {
            Ok(op) => op,
            Err(e) => {
                return Err(e);
            },
        };
        let parts: Vec<Op> = vec![xop, Op::Putchar];
        proof {
            lemma_ops_view_matches(parts@, seq![mir::op_view(parts@[0]), OpView::Putchar]);
        }
        Ok(Op::Do(parts))
    }

    /// The lowering of a number write: the operand, then the write.
    #[verifier::rlimit(100)]
    fn compile_putnum(&self, x: &Expr, scope: &TypeEnv, offset: &mut u32) -> (r: Result<Op, Error>)
        requires
            self@ == ExprView::Putnum(Box::new(x@)),
        ensures
            *final(offset) == *old(offset),
            match compile_body_v(self@, scope@, *old(offset)) {
                Ok(opv) => r matches Ok(o) && o@ == opv,
                Err(e) => r matches Err(er) && er@ == e,
            },
        decreases ewt(self@), 0nat,
    {
        let ghost ev = self@;
        proof {
            assert(ewt(ev) == 2 + ewt(x@));
        }
        let xop = match x.compile(scope, offset) {
            Ok(op) => op,
            Err(e) => {
                return Err(e);
            },
        };
        let parts: Vec<Op> = vec![xop, Op::Putnum];
        proof {
            lemma_ops_view_matches(parts@, seq![mir::op_view(parts@[0]), OpView::Putnum]);
        }
        Ok(Op::Do(parts))
    }

    /// The lowering of a free: the pointer, then the allocator's free.
    #[verifier::rlimit(100)]
    fn compile_free(&self, x: &Expr, scope: &TypeEnv, offset: &mut u32) -> (r: Result<Op, Error>)
        requires
            self@ == ExprView::Free(Box::new(x@)),
        ensures
            *final(offset) == *old(offset),
            match compile_body_v(self@, scope@, *old(offset)) {
                Ok(opv) => r matches Ok(o) && o@ == opv,
                Err(e) => r matches Err(er) && er@ == e,
            },
        decreases ewt(self@), 0nat,
    {
        let ghost ev = self@;
        proof {
            assert(ewt(ev) == 2 + ewt(x@));
        }
        let xop = match x.compile(scope, offset) {
            Ok(op) => op,
            Err(e) => {
                return Err(e);
            },
        };
        let parts: Vec<Op> = vec![xop, Op::Free];
        proof {
            lemma_ops_view_matches(parts@, seq![mir::op_view(parts@[0]), OpView::Free]);
        }
        Ok(Op::Do(parts))
    }

    /// The lowering of a logical not: the operand, then the flip.
    #[verifier::rlimit(100)]
    fn compile_not(&self, x: &Expr, scope: &TypeEnv, offset: &mut u32) -> (r: Result<Op, Error>)
        requires
            self@ == ExprView::Not(Box::new(x@)),
        ensures
            *final(offset) == *old(offset),
            match compile_body_v(self@, scope@, *old(offset)) {
                Ok(opv) => r matches Ok(o) && o@ == opv,
                Err(e) => r matches Err(er) && er@ == e,
            },
        decreases ewt(self@), 0nat,
    {
        let ghost ev = self@;
        proof {
            assert(ewt(ev) == 2 + ewt(x@));
        }
        let xop = match x.compile(scope, offset) {
            Ok(op) => op,
            Err(e) => {
                return Err(e);
            },
        };
        let parts: Vec<Op> = vec![xop, Op::Not];
        proof {
            lemma_ops_view_matches(parts@, seq![mir::op_view(parts@[0]), OpView::Not]);
        }
        Ok(Op::Do(parts))
    }

    /// The lowering of a variable use: its address macro, then a load of
    /// its cells.
    #[verifier::rlimit(100)]
    fn compile_variable(&self, name: &String, scope: &TypeEnv, offset: &mut u32) -> (r: Result<
        Op,
        Error,
    >)
        requires
            self@ == ExprView::Variable(name@),
        ensures
            *final(offset) == *old(offset),
            match compile_body_v(self@, scope@, *old(offset)) {
                Ok(opv) => r matches Ok(o) && o@ == opv,
                Err(e) => r matches Err(er) && er@ == e,
            },
        decreases ewt(self@), 0nat,
    {
        let size = match scope.get(name) {
            Some(t) => match t.get_size() {
                Ok(sz) => sz,
                Err(e) => {
                    return Err(e);
                },
            },
            None => {
                return Err(Error::VariableNotInScope(name.clone()));
            },
        };
        let parts: Vec<Op> = vec![Op::Macro(name.clone()), Op::Load(size)];
        proof {
            lemma_ops_view_matches(parts@, seq![OpView::Macro(name@), OpView::Load(size)]);
        }
        Ok(Op::Do(parts))
    }

    /// The lowering of an inferring `let`: the value's type is computed and
    /// the binding compiles as the explicit `let` it abbreviates.
    #[verifier::rlimit(100)]
    fn compile_let_infer(
        &self,
        name: &String,
        expr: &Expr,
        body: &Expr,
        scope: &TypeEnv,
        offset: &mut u32,
    ) -> (r: Result<Op, Error>)
        requires
            self@ == ExprView::LetInfer(name@, Box::new(expr@), Box::new(body@)),
        ensures
            *final(offset) == *old(offset),
            match compile_body_v(self@, scope@, *old(offset)) {
                Ok(opv) => r matches Ok(o) && o@ == opv,
                Err(e) => r matches Err(er) && er@ == e,
            },
        decreases ewt(self@), 0nat,
    {
        let ghost ev = self@;
        proof {
            lemma_ewt_pos(expr@);
            lemma_ewt_pos(body@);
            assert(ewt(ev) == 5 + ewt(expr@) + ewt(body@));
        }
        let t = match expr.get_type(scope) {
            Ok(ty) => ty,
            Err(e) => {
                return Err(e);
            },
        };
        let ghost tv = type_view(t);
        let expanded = Expr::Let(
            name.clone(),
            t,
            Box::new((*expr).clone()),
            Box::new((*body).clone()),
        );
        proof {
            assert(expanded@ == ExprView::Let(name@, tv, Box::new(expr@), Box::new(body@)));
        }
        expanded.compile(scope, offset)
    }

    /// The lowering of a call: the arguments in order, then the callee's
    /// macro.
    #[verifier::loop_isolation(false)]
    #[verifier::rlimit(100)]
    fn compile_call_args(
        &self,
        name: &String,
        args: &Vec<Expr>,
        scope: &TypeEnv,
        offset: &mut u32,
    ) -> (r: Result<Op, Error>)
        requires
            self@ == ExprView::Call(name@, exprs_view(args@)),
        ensures
            *final(offset) == *old(offset),
            match compile_body_v(self@, scope@, *old(offset)) {
                Ok(opv) => r matches Ok(o) && o@ == opv,
                Err(e) => r matches Err(er) && er@ == e,
            },
        decreases ewt(self@), 0nat,
    {
        let ghost ev = self@;
        let ghost env = scope@;
        let ghost off0 = *offset;
        let ghost av = exprs_view(args@);
        proof {
            lemma_exprs_view_index(args@);
            assert(ewt(ev) == 2 + ewts(av));
            assert(av.take(0) =~= Seq::<ExprView>::empty());
        }
        let mut ops: Vec<Op> = Vec::new();
        let mut i: usize = 0;
        proof {
            assert(mir::ops_view(ops@) =~= Seq::<OpView>::empty());
        }
        while i < args.len()
            invariant
                i <= args@.len(),
                *offset == off0,
                compiles_seq(av.take(i as int), env, off0) == Ok::<Seq<OpView>, ErrorView>(
                    mir::ops_view(ops@),
                ),
            decreases args@.len() - i,
        {
            proof {
                lemma_ewts_elem(av, i as int);
            }
            match args[i].compile(scope, offset) {
                Ok(op) => {
                    let ghost prev = ops@;
                    ops.push(op);
                    i = i + 1;
                    proof {
                        assert(av.take(i as int).drop_last() =~= av.take(i as int - 1));
                        assert(av.take(i as int).last() == av[i as int - 1]);
                        lemma_ops_view_push(prev, ops@.last());
                        assert(ops@ =~= prev.push(ops@.last()));
                    }
                },
                Err(e) => {
                    proof {
                        lemma_compiles_seq_err(av, env, off0, i as int, e@);
                    }
                    return Err(e);
                },
            }
        }
        let ghost prev = ops@;
        ops.push(Op::Macro(name.clone()));
        proof {
            assert(av.take(args@.len() as int) =~= av);
            lemma_ops_view_push(prev, ops@.last());
            assert(ops@ =~= prev.push(ops@.last()));
            assert(mir::op_view(ops@.last()) == OpView::Macro(name@));
        }
        Ok(Op::Do(ops))
    }
}

} // verus!

verus! {

impl Expr {
    /// The lowering of an equality: the zero short-circuits emit a logical
    /// not of the other operand; otherwise both operands in reversed order,
    /// then the comparison.
    #[verifier::rlimit(100)]
    fn compile_eq(&self, a: &Expr, b: &Expr, scope: &TypeEnv, offset: &mut u32) -> (r: Result<
        Op,
        Error,
    >)
        requires
            self@ == ExprView::Eq(Box::new(a@), Box::new(b@)),
        ensures
            *final(offset) == *old(offset),
            match compile_body_v(self@, scope@, *old(offset)) {
                Ok(opv) => r matches Ok(o) && o@ == opv,
                Err(e) => r matches Err(er) && er@ == e,
            },
        decreases ewt(self@), 0nat,
    {
        let ghost ev = self@;
        proof {
            lemma_ewt_pos(a@);
            lemma_ewt_pos(b@);
            assert(ewt(ev) == 2 + ewt(a@) + ewt(b@));
            lemma_view_int_zero(*a);
            lemma_view_int_zero(*b);
        }
        if matches!(*b, Expr::Integer(0u32)) {
            let aop = match a.compile(scope, offset) {
                Ok(op) => op,
                Err(e) => {
                    return Err(e);
                },
            };
            let parts: Vec<Op> = vec![aop, Op::Not];
            proof {
                lemma_ops_view_matches(parts@, seq![mir::op_view(parts@[0]), OpView::Not]);
            }
            Ok(Op::Do(parts))
        } else if matches!(*a, Expr::Integer(0u32)) {
            let bop = match b.compile(scope, offset) {
                Ok(op) => op,
                Err(e) => {
                    return Err(e);
                },
            };
            let parts: Vec<Op> = vec![bop, Op::Not];
            proof {
                lemma_ops_view_matches(parts@, seq![mir::op_view(parts@[0]), OpView::Not]);
            }
            Ok(Op::Do(parts))
        } else {
            let bop = match b.compile(scope, offset) {
                Ok(op) => op,
                Err(e) => {
                    return Err(e);
                },
            };
            let aop = match a.compile(scope, offset) {
                Ok(op) => op,
                Err(e) => {
                    return Err(e);
                },
            };
            let parts: Vec<Op> = vec![bop, aop, Op::Eq];
            proof {
                lemma_ops_view_matches(
                    parts@,
                    seq![mir::op_view(parts@[0]), mir::op_view(parts@[1]), OpView::Eq],
                );
            }
            Ok(Op::Do(parts))
        }
    }

    /// The lowering of an inequality: against a zero or nul literal the
    /// other operand stands alone, by the convention that any non-zero cell
    /// is true; otherwise both operands in reversed order, then the
    /// comparison.
    #[verifier::rlimit(100)]
    fn compile_neq(&self, a: &Expr, b: &Expr, scope: &TypeEnv, offset: &mut u32) -> (r: Result<
        Op,
        Error,
    >)
        requires
            self@ == ExprView::Neq(Box::new(a@), Box::new(b@)),
        ensures
            *final(offset) == *old(offset),
            match compile_body_v(self@, scope@, *old(offset)) {
                Ok(opv) => r matches Ok(o) && o@ == opv,
                Err(e) => r matches Err(er) && er@ == e,
            },
        decreases ewt(self@), 0nat,
    {
        let ghost ev = self@;
        proof {
            lemma_ewt_pos(a@);
            lemma_ewt_pos(b@);
            assert(ewt(ev) == 2 + ewt(a@) + ewt(b@));
            lemma_view_int_zero(*a);
            lemma_view_int_zero(*b);
            lemma_view_char_nul(*a);
            lemma_view_char_nul(*b);
        }
        if matches!(*b, Expr::Integer(0u32)) {
            a.compile(scope, offset)
        } else if matches!(*a, Expr::Integer(0u32)) {
            b.compile(scope, offset)
        } else if matches!(*b, Expr::Character('\0')) {
            a.compile(scope, offset)
        } else if matches!(*a, Expr::Character('\0')) {
            b.compile(scope, offset)
        } else {
            let bop = match b.compile(scope, offset) {
                Ok(op) => op,
                Err(e) => {
                    return Err(e);
                },
            };
            let aop = match a.compile(scope, offset) {
                Ok(op) => op,
                Err(e) => {
                    return Err(e);
                },
            };
            let parts: Vec<Op> = vec![bop, aop, Op::Neq];
            proof {
                lemma_ops_view_matches(
                    parts@,
                    seq![mir::op_view(parts@[0]), mir::op_view(parts@[1]), OpView::Neq],
                );
            }
            Ok(Op::Do(parts))
        }
    }

    /// The lowering of an allocation: count times element size, the
    /// allocator call, and the optional initializer stores through the
    /// third register.
    #[verifier::loop_isolation(false)]
    #[verifier::rlimit(100)]
    fn compile_alloc(
        &self,
        x: &Expr,
        t: &Type,
        inits: &Option<Vec<Expr>>,
        scope: &TypeEnv,
        offset: &mut u32,
    ) -> (r: Result<Op, Error>)
        requires
            self@ == ExprView::Alloc(
                Box::new(x@),
                type_view(*t),
                match inits {
                    Some(vals) => Some(exprs_view(vals@)),
                    None => None,
                },
            ),
        ensures
            *final(offset) == *old(offset),
            match compile_body_v(self@, scope@, *old(offset)) {
                Ok(opv) => r matches Ok(o) && o@ == opv,
                Err(e) => r matches Err(er) && er@ == e,
            },
        decreases ewt(self@), 0nat,
    {
        let ghost ev = self@;
        let ghost env = scope@;
        let ghost off0 = *offset;
        proof {
            lemma_ewt_pos(x@);
            match inits {
                Some(vals) => {
                    assert(ewt(ev) == 2 + ewt(x@) + ewts(exprs_view(vals@)));
                },
                None => {
                    assert(ewt(ev) == 2 + ewt(x@));
                },
            }
        }
        let xop = match x.compile(scope, offset) {
            Ok(o) => o,
            Err(e) => {
                return Err(e);
            },
        };
        let size_t = match t.get_size() {
            Ok(sz) => sz,
            Err(e) => {
                return Err(e);
            },
        };
        let mut inner: Vec<Op> = Vec::new();
        if let Some(vals) = inits {
            let ghost vv = exprs_view(vals@);
            proof {
                lemma_exprs_view_index(vals@);
                assert(vv.take(0) =~= Seq::<ExprView>::empty());
            }
            inner.push(Op::StoreAt(mir::r3(), 1));
            let mut total: u32 = 0;
            let mut i: usize = 0;
            proof {
                lemma_ops_view_empty();
                lemma_ops_view_push(Seq::empty(), Op::StoreAt(mir::r3(), 1));
                assert(inner@ =~= Seq::<Op>::empty().push(Op::StoreAt(mir::r3(), 1)));
                assert(mir::ops_view(inner@) =~= seq![OpView::StoreAt(mir::spec_r3(), 1)]);
                assert(alloc_inits(vv.take(0), env, off0) matches Ok(pr) && pr.0
                    =~= Seq::<OpView>::empty());
            }
            while i < vals.len()
                invariant
                    i <= vals@.len(),
                    *offset == off0,
                    inner@.len() == i + 1,
                    alloc_inits(vv.take(i as int), env, off0) matches Ok(pr) && mir::ops_view(
                        inner@,
                    ) == seq![OpView::StoreAt(mir::spec_r3(), 1)] + pr.0 && total == pr.1,
                decreases vals@.len() - i,
            {
                proof {
                    lemma_ewts_elem(vv, i as int);
                    assert(ewt(vv[i as int]) < ewt(ev));
                }
                let ti = match vals[i].get_type(scope) {
                    Ok(ty) => ty,
                    Err(e) => {
                        proof {
                            lemma_alloc_inits_err(vv, env, off0, i as int, e@);
                        }
                        return Err(e);
                    },
                };
                let sz = match ti.get_size() {
                    Ok(sz) => sz,
                    Err(e) => {
                        proof {
                            lemma_alloc_inits_err(vv, env, off0, i as int, e@);
                        }
                        return Err(e);
                    },
                };
                let op = match vals[i].compile(scope, offset) {
                    Ok(o) => o,
                    Err(e) => {
                        proof {
                            lemma_alloc_inits_err(vv, env, off0, i as int, e@);
                        }
                        return Err(e);
                    },
                };
                total = sat_add_exec(total, sz);
                let ghost prev = inner@;
                inner.push(op);
                i = i + 1;
                proof {
                    assert(vv.take(i as int).drop_last() =~= vv.take(i as int - 1));
                    assert(vv.take(i as int).last() == vv[i as int - 1]);
                    lemma_ops_view_push(prev, op);
                    assert(inner@ =~= prev.push(op));
                    let pr = alloc_inits(vv.take(i as int), env, off0)->Ok_0;
                    assert(mir::ops_view(inner@) =~= seq![OpView::StoreAt(mir::spec_r3(), 1)]
                        + pr.0);
                }
            }
            proof {
                assert(vv.take(vals@.len() as int) =~= vv);
            }
            let ghost prev = inner@;
            inner.push(Op::LoadFrom(mir::r3(), 1));
            inner.push(Op::Store(total));
            inner.push(Op::LoadFrom(mir::r3(), 1));
            proof {
                let pr = alloc_inits(vv, env, off0)->Ok_0;
                let m1 = prev.push(Op::LoadFrom(mir::r3(), 1));
                let m2 = m1.push(Op::Store(total));
                lemma_ops_view_push(prev, Op::LoadFrom(mir::r3(), 1));
                lemma_ops_view_push(m1, Op::Store(total));
                lemma_ops_view_push(m2, Op::LoadFrom(mir::r3(), 1));
                assert(inner@ =~= m2.push(Op::LoadFrom(mir::r3(), 1)));
                assert(mir::ops_view(inner@) =~= seq![OpView::StoreAt(mir::spec_r3(), 1)] + pr.0
                    + seq![
                    OpView::LoadFrom(mir::spec_r3(), 1),
                    OpView::Store(pr.1),
                    OpView::LoadFrom(mir::spec_r3(), 1),
                ]);
            }
        } else {
            proof {
                assert(mir::ops_view(inner@) =~= Seq::<OpView>::empty());
            }
        }
        let ghost inner_view = mir::ops_view(inner@);
        let parts: Vec<Op> = vec![
            xop,
            Op::PushLiteral(mir::Literal(size_t)),
            Op::Mul,
            Op::Alloc,
            Op::Do(inner),
        ];
        proof {
            lemma_ops_view_matches(
                parts@,
                seq![
                    mir::op_view(parts@[0]),
                    OpView::PushLiteral(mir::Literal(size_t)),
                    OpView::Mul,
                    OpView::Alloc,
                    OpView::Do(inner_view),
                ],
            );
        }
        Ok(Op::Do(parts))
    }

    /// The lowering of a function literal: a frame around the body, the
    /// body compiled with the arguments in scope.
    #[verifier::loop_isolation(false)]
    #[verifier::rlimit(100)]
    fn compile_function(
        &self,
        args: &Vec<(String, Type)>,
        ret: &Type,
        body: &Expr,
        scope: &TypeEnv,
        offset: &mut u32,
    ) -> (r: Result<Op, Error>)
        requires
            self@ == ExprView::Function(params_view(args@), type_view(*ret), Box::new(body@)),
        ensures
            *final(offset) == *old(offset),
            match compile_body_v(self@, scope@, *old(offset)) {
                Ok(opv) => r matches Ok(o) && o@ == opv,
                Err(e) => r matches Err(er) && er@ == e,
            },
        decreases ewt(self@), 0nat,
    {
        let ghost ev = self@;
        let ghost env = scope@;
        let ghost off0 = *offset;
        let ghost pv = params_view(args@);
        proof {
            assert(ewt(ev) == 2 + ewt(body@));
        }
        let mut scope2 = scope.clone();
        let mut i: usize = 0;
        proof {
            assert(pv.take(0) =~= Seq::<(Seq<char>, TypeView)>::empty());
        }
        while i < args.len()
            invariant
                i <= args@.len(),
                scope2@ == env_insert_params(env, pv.take(i as int)),
            decreases args@.len() - i,
        {
            let name = args[i].0.clone();
            let t = args[i].1.clone();
            scope2.insert(name, t);
            i = i + 1;
            proof {
                assert(pv.take(i as int).drop_last() =~= pv.take(i as int - 1));
                assert(pv.take(i as int).last() == pv[i as int - 1]);
            }
        }
        proof {
            assert(pv.take(args@.len() as int) =~= pv);
        }
        let mut pairs: Vec<(String, u32)> = Vec::new();
        let mut j: usize = 0;
        proof {
            assert(mir::args_view(pairs@) =~= Seq::<(Seq<char>, u32)>::empty());
        }
        while j < args.len()
            invariant
                j <= args@.len(),
                pairs@.len() == j,
                arg_pairs(pv.take(j as int)) == Ok::<Seq<(Seq<char>, u32)>, ErrorView>(
                    mir::args_view(pairs@),
                ),
            decreases args@.len() - j,
        {
            match args[j].1.get_size() {
                Ok(sz) => {
                    let name = args[j].0.clone();
                    let ghost prev = pairs@;
                    pairs.push((name, sz));
                    j = j + 1;
                    proof {
                        assert(pv.take(j as int).drop_last() =~= pv.take(j as int - 1));
                        assert(pv.take(j as int).last() == pv[j as int - 1]);
                        assert(mir::args_view(pairs@) =~= mir::args_view(prev).push(
                            (pv[j as int - 1].0, sat32(size_of(pv[j as int - 1].1))),
                        ));
                    }
                },
                Err(e) => {
                    proof {
                        lemma_arg_pairs_err(pv, j as int);
                    }
                    return Err(e);
                },
            }
        }
        proof {
            assert(pv.take(args@.len() as int) =~= pv);
        }
        let ret_size = match ret.get_size() {
            Ok(sz) => sz,
            Err(e) => {
                return Err(e);
            },
        };
        let bop = match body.compile(&scope2, offset) {
            Ok(o) => o,
            Err(e) => {
                return Err(e);
            },
        };
        let code: Vec<Op> = vec![bop];
        proof {
            lemma_ops_view_matches(code@, seq![mir::op_view(code@[0])]);
        }
        Ok(mir::function(pairs, ret_size, code))
    }

    /// The lowering of a `let` binding: a macro binding with a bumped frame
    /// offset for a function, or a stack slot with a heap hand-off of the
    /// body's result for a value.
    #[verifier::loop_isolation(false)]
    #[verifier::rlimit(100)]
    fn compile_let_binding(
        &self,
        name: &String,
        t: &Type,
        expr: &Expr,
        body: &Expr,
        scope: &TypeEnv,
        offset: &mut u32,
    ) -> (r: Result<Op, Error>)
        requires
            self@ == ExprView::Let(name@, type_view(*t), Box::new(expr@), Box::new(body@)),
        ensures
            *final(offset) == *old(offset),
            match compile_body_v(self@, scope@, *old(offset)) {
                Ok(opv) => r matches Ok(o) && o@ == opv,
                Err(e) => r matches Err(er) && er@ == e,
            },
        decreases ewt(self@), 0nat,
    {
        let ghost ev = self@;
        let ghost env = scope@;
        let ghost off0 = *offset;
        proof {
            lemma_ewt_pos(expr@);
            lemma_ewt_pos(body@);
            assert(ewt(ev) == 2 + ewt(expr@) + ewt(body@));
            assert(compile_body_v(ev, env, off0) == compile_let(
                ev,
                name@,
                type_view(*t),
                expr@,
                body@,
                env,
                off0,
            ));
        }
        let mut scope2 = scope.clone();
        scope2.insert(name.clone(), t.clone());
        proof {
            assert(scope2@ == env_insert(env, name@, type_view(*t)));
        }
        match t {
            Type::Function(argts, _) => {
                let ghost atv = types_view(argts@);
                proof {
                    lemma_types_view_index(argts@);
                    assert(atv.take(0) =~= Seq::<TypeView>::empty());
                }
                let mut args_size: u32 = 0;
                let mut i: usize = 0;
                while i < argts.len()
                    invariant
                        i <= argts@.len(),
                        fn_args_size(atv.take(i as int)) == Ok::<u32, ErrorView>(args_size),
                    decreases argts@.len() - i,
                {
                    match argts[i].get_size() {
                        Ok(sz) => {
                            args_size = sat_add_exec(args_size, sz);
                            i = i + 1;
                            proof {
                                assert(atv.take(i as int).drop_last() =~= atv.take(i as int - 1));
                                assert(atv.take(i as int).last() == atv[i as int - 1]);
                            }
                        },
                        Err(e) => {
                            proof {
                                lemma_fn_args_size_err(atv, i as int);
                            }
                            return Err(e);
                        },
                    }
                }
                proof {
                    assert(atv.take(argts@.len() as int) =~= atv);
                }
                let saved = *offset;
                *offset = sat_add_exec(saved, args_size);
                let eop = match expr.compile(&scope2, offset) {
                    Ok(o) => o,
                    Err(e) => {
                        *offset = saved;
                        return Err(e);
                    },
                };
                *offset = saved;
                let bop = match body.compile(&scope2, offset) {
                    Ok(o) => o,
                    Err(e) => {
                        return Err(e);
                    },
                };
                let evv: Vec<Op> = vec![eop];
                let bvv: Vec<Op> = vec![bop];
                proof {
                    lemma_ops_view_matches(evv@, seq![mir::op_view(evv@[0])]);
                    lemma_ops_view_matches(bvv@, seq![mir::op_view(bvv@[0])]);
                }
                Ok(Op::Let(name.clone(), evv, bvv))
            },
            _ => {
                let this_offset = *offset;
                let size = match t.get_size() {
                    Ok(sz) => sz,
                    Err(e) => {
                        return Err(e);
                    },
                };
                *offset = sat_add_exec(this_offset, size);
                let eop = match expr.compile(&scope2, offset) {
                    Ok(o) => o,
                    Err(e) => {
                        *offset = this_offset;
                        return Err(e);
                    },
                };
                let bop = match body.compile(&scope2, offset) {
                    Ok(o) => o,
                    Err(e) => {
                        *offset = this_offset;
                        return Err(e);
                    },
                };
                *offset = this_offset;
                let rt = match body.get_type(&scope2) {
                    Ok(ty) => ty,
                    Err(e) => {
                        return Err(e);
                    },
                };
                let result_size = match rt.get_size() {
                    Ok(sz) => sz,
                    Err(e) => {
                        return Err(e);
                    },
                };
                let addr: Vec<Op> = vec![
                    Op::LoadFrom(mir::fp(), 1),
                    Op::PushLiteral(mir::Literal(this_offset)),
                    Op::Add,
                ];
                let tail: Vec<Op> = if result_size > 0 {
                    vec![
                        Op::PushLiteral(mir::Literal(result_size)),
                        Op::Alloc,
                        Op::Duplicate,
                        Op::StoreAt(mir::r2(), 1),
                        Op::Store(result_size),
                        Op::Stfree(size),
                        Op::LoadFrom(mir::r2(), 1),
                        Op::Load(result_size),
                        Op::LoadFrom(mir::r2(), 1),
                        Op::Free,
                    ]
                } else {
                    vec![Op::Stfree(size)]
                };
                proof {
                    if result_size > 0 {
                        lemma_ops_view_matches(
                            tail@,
                            seq![
                                OpView::PushLiteral(mir::Literal(result_size)),
                                OpView::Alloc,
                                OpView::Duplicate,
                                OpView::StoreAt(mir::spec_r2(), 1),
                                OpView::Store(result_size),
                                OpView::Stfree(size),
                                OpView::LoadFrom(mir::spec_r2(), 1),
                                OpView::Load(result_size),
                                OpView::LoadFrom(mir::spec_r2(), 1),
                                OpView::Free,
                            ],
                        );
                    } else {
                        lemma_ops_view_matches(tail@, seq![OpView::Stfree(size)]);
                    }
                }
                let ghost tail_view = mir::ops_view(tail@);
                let inner: Vec<Op> = vec![
                    Op::Stalloc(size),
                    eop,
                    Op::Macro(name.clone()),
                    Op::Store(size),
                    bop,
                    Op::Do(tail),
                ];
                proof {
                    lemma_ops_view_matches(
                        addr@,
                        seq![
                            OpView::LoadFrom(mir::spec_fp(), 1),
                            OpView::PushLiteral(mir::Literal(this_offset)),
                            OpView::Add,
                        ],
                    );
                    lemma_ops_view_matches(
                        inner@,
                        seq![
                            OpView::Stalloc(size),
                            mir::op_view(inner@[1]),
                            OpView::Macro(name@),
                            OpView::Store(size),
                            mir::op_view(inner@[4]),
                            OpView::Do(tail_view),
                        ],
                    );
                }
                Ok(Op::Let(name.clone(), addr, inner))
            },
        }
    }
}

} // verus!

verus! {

proof fn lemma_fn_args_size_err(argts: Seq<TypeView>, i: int)
    requires
        0 <= i < argts.len(),
        fn_args_size(argts.take(i)) is Ok,
        !has_size(argts[i]),
    ensures
        fn_args_size(argts) == Err::<u32, ErrorView>(
            ErrorView::SizeOfFunction(size_err(argts[i])),
        ),
    decreases argts.len(),
{
    if i == argts.len() - 1 {
        assert(argts.drop_last() =~= argts.take(i));
        assert(argts.last() == argts[i]);
    } else {
        assert(argts.drop_last().take(i) =~= argts.take(i));
        assert(argts.drop_last()[i] == argts[i]);
        lemma_fn_args_size_err(argts.drop_last(), i);
    }
}

proof fn lemma_arg_pairs_err(params: Seq<(Seq<char>, TypeView)>, i: int)
    requires
        0 <= i < params.len(),
        arg_pairs(params.take(i)) is Ok,
        !has_size(params[i].1),
    ensures
        arg_pairs(params) == Err::<Seq<(Seq<char>, u32)>, ErrorView>(
            ErrorView::SizeOfFunction(size_err(params[i].1)),
        ),
    decreases params.len(),
{
    if i == params.len() - 1 {
        assert(params.drop_last() =~= params.take(i));
        assert(params.last() == params[i]);
    } else {
        assert(params.drop_last().take(i) =~= params.take(i));
        assert(params.drop_last()[i] == params[i]);
        lemma_arg_pairs_err(params.drop_last(), i);
    }
}

} // verus!

verus! {

/// Checking is a pure function of the expression and the environment: any
/// two checker results for the same expression under the same environment
/// agree, in the type computed and in the error reported alike.
pub proof fn lemma_type_check_deterministic(
    r1: Result<Type, Error>,
    r2: Result<Type, Error>,
    e: Expr,
    env: Seq<(Seq<char>, TypeView)>,
)
    requires
        res_tv(r1) == type_of(e@, env),
        res_tv(r2) == type_of(e@, env),
    ensures
        res_tv(r1) == res_tv(r2),
{
}

/// The size model: scalars and pointers take one cell, the empty type none,
/// a tuple the sum of its fields, and a function type has no size at all.
pub proof fn lemma_size_model(
    t: TypeView,
    items: Seq<TypeView>,
    args: Seq<TypeView>,
    ret: TypeView,
)
    ensures
        size_of(TypeView::Void) == 0,
        size_of(TypeView::Integer) == 1,
        size_of(TypeView::Bool) == 1,
        size_of(TypeView::Character) == 1,
        size_of(TypeView::Pointer(Box::new(t))) == 1,
        size_of(TypeView::Tuple(items)) == sizes_sum(items),
        items.len() > 0 ==> sizes_sum(items) == sizes_sum(items.drop_last()) + size_of(
            items.last(),
        ),
        !has_size(TypeView::Function(args, Box::new(ret))),
{
}

/// An inferring `let` accepts exactly when the explicit `let` with the
/// value's computed type accepts, and with the same resulting type and the
/// same error otherwise.
pub proof fn lemma_let_infer_equiv(
    name: Seq<char>,
    t: TypeView,
    e: ExprView,
    b: ExprView,
    env: Seq<(Seq<char>, TypeView)>,
)
    requires
        type_of(e, env) == Ok::<TypeView, ErrorView>(t),
    ensures
        type_of(ExprView::LetInfer(name, Box::new(e), Box::new(b)), env) == type_of(
            ExprView::Let(name, t, Box::new(e), Box::new(b)),
            env,
        ),
{
}

/// An inferring `let` lowers exactly as the explicit `let` with the value's
/// computed type: the same emitted operation tree, or the same error.
pub proof fn lemma_let_infer_lowers_identically(
    name: Seq<char>,
    t: TypeView,
    e: ExprView,
    b: ExprView,
    env: Seq<(Seq<char>, TypeView)>,
    off: u32,
)
    requires
        type_of(e, env) == Ok::<TypeView, ErrorView>(t),
    ensures
        compile_v(ExprView::LetInfer(name, Box::new(e), Box::new(b)), env, off) == compile_v(
            ExprView::Let(name, t, Box::new(e), Box::new(b)),
            env,
            off,
        ),
{
    lemma_let_infer_equiv(name, t, e, b, env);
}

/// A function body sees only the function-typed bindings of the outer
/// scope, plus its own arguments: two environments that agree on their
/// function-typed bindings give every function literal the same type.
pub proof fn lemma_function_closure(
    params: Seq<(Seq<char>, TypeView)>,
    ret: TypeView,
    body: ExprView,
    env1: Seq<(Seq<char>, TypeView)>,
    env2: Seq<(Seq<char>, TypeView)>,
)
    requires
        env_fns(env1) == env_fns(env2),
    ensures
        type_of(ExprView::Function(params, ret, Box::new(body)), env1) == type_of(
            ExprView::Function(params, ret, Box::new(body)),
            env2,
        ),
{
}

/// Pointer arithmetic is one-sided: a pointer plus an integer is accepted
/// and keeps the pointer's type.
pub proof fn lemma_pointer_plus_integer(
    a: ExprView,
    b: ExprView,
    p: TypeView,
    env: Seq<(Seq<char>, TypeView)>,
)
    requires
        type_of(a, env) == Ok::<TypeView, ErrorView>(TypeView::Pointer(Box::new(p))),
        type_of(b, env) == Ok::<TypeView, ErrorView>(TypeView::Integer),
    ensures
        type_of(ExprView::Add(Box::new(a), Box::new(b)), env) == Ok::<TypeView, ErrorView>(
            TypeView::Pointer(Box::new(p)),
        ),
{
}

/// Pointer arithmetic is one-sided: an integer plus a pointer is rejected
/// as a type mismatch.
pub proof fn lemma_integer_plus_pointer_rejected(
    a: ExprView,
    b: ExprView,
    p: TypeView,
    env: Seq<(Seq<char>, TypeView)>,
)
    requires
        type_of(a, env) == Ok::<TypeView, ErrorView>(TypeView::Integer),
        type_of(b, env) == Ok::<TypeView, ErrorView>(TypeView::Pointer(Box::new(p))),
    ensures
        type_of(ExprView::Add(Box::new(a), Box::new(b)), env) matches Err(e) && e
            == ErrorView::MismatchedTypes(
            ExprView::Add(Box::new(a), Box::new(b)),
            TypeView::Integer,
            TypeView::Pointer(Box::new(p)),
        ),
{
}

} // verus!

verus! {

impl Expr {
    #[verifier::loop_isolation(false)]
    #[verifier::rlimit(100)]
    fn get_type_tuple(&self, items: &Vec<Expr>, scope: &TypeEnv) -> (r: Result<Type, Error>)
        requires
            self@ == ExprView::Tuple(exprs_view(items@)),
        ensures
            res_tv(r) == type_of(self@, scope@),
        decreases ewt(self@), 0nat,
    {
        let ghost ev = self@;
        let ghost env = scope@;
        proof {
            assert(ewt(self@) == 2 + ewts(exprs_view(items@)));
        }
        let ghost iv = exprs_view(items@);
        proof {
            lemma_exprs_view_index(items@);
        }
        let mut item_types: Vec<Type> = Vec::new();
        let mut i: usize = 0;
        proof {
            assert(iv.take(0) =~= Seq::<ExprView>::empty());
            assert(types_view(item_types@) =~= Seq::<TypeView>::empty());
        }
        while i < items.len()
            invariant
                i <= items@.len(),
                item_types@.len() == i,
                types_of(iv.take(i as int), env) == Ok::<Seq<TypeView>, ErrorView>(
                    types_view(item_types@),
                ),
            decreases items@.len() - i,
        {
            proof {
                lemma_ewts_elem(iv, i as int);
                assert(ewt(iv[i as int]) < ewt(ev));
            }
            match items[i].get_type(scope) {
                Ok(t) => {
                    let ghost prev_items = item_types@;
                    let ghost tv = type_view(t);
                    item_types.push(t);
                    i = i + 1;
                    proof {
                        assert(iv.take(i as int).drop_last() =~= iv.take(i as int - 1));
                        assert(iv.take(i as int).last() == iv[i as int - 1]);
                        assert(item_types@.drop_last() =~= prev_items);
                        assert(item_types@.last() == item_types@[i as int - 1]);
                        assert(types_view(item_types@) == types_view(prev_items).push(tv));
                        assert(types_of(iv.take(i as int), env) == Ok::<
                            Seq<TypeView>,
                            ErrorView,
                        >(types_view(item_types@)));
                    }
                },
                Err(e) => {
                    proof {
                        lemma_types_of_err(iv, env, i as int, e@);
                    }
                    return Err(e);
                },
            }
        }
        proof {
            assert(iv.take(items@.len() as int) =~= iv);
        }
        Ok(Type::Tuple(item_types))
        }

    #[verifier::loop_isolation(false)]
    #[verifier::rlimit(100)]
    fn get_type_alloc(&self, count: &Expr, t: &Type, inits: &Option<Vec<Expr>>, scope: &TypeEnv) -> (r: Result<Type, Error>)
        requires
            self@ == ExprView::Alloc(
                Box::new(count@),
                type_view(*t),
                match inits {
                    Some(vals) => Some(exprs_view(vals@)),
                    None => None,
                },
            ),
        ensures
            res_tv(r) == type_of(self@, scope@),
        decreases ewt(self@), 0nat,
    {
        let ghost ev = self@;
        let ghost env = scope@;
        proof {
            lemma_ewt_pos(count@);
            match inits {
                Some(vals) => {
                    assert(ewt(self@) == 2 + ewt(count@) + ewts(exprs_view(vals@)));
                },
                None => {
                    assert(ewt(self@) == 2 + ewt(count@));
                },
            }
        }
        let ct = match count.get_type(scope) {
            Ok(ty) => ty,
            Err(e) => {
                return Err(e);
            },
        };
        if !matches!(ct, Type::Integer) {
            return Err(Error::MismatchedTypes(self.clone(), Type::Integer, ct));
        }
        if matches!(t, Type::Void) {
            return Err(Error::AllocVoid(self.clone()));
        }
        if let Some(vals) = inits {
            let ghost vv = exprs_view(vals@);
            proof {
                lemma_exprs_view_index(vals@);
            }
            let mut i: usize = 0;
            proof {
                assert(vv.skip(0) =~= vv);
            }
            while i < vals.len()
                invariant
                    i <= vals@.len(),
                    check_inits(vv, type_view(*t), ev, env) == check_inits(
                        vv.skip(i as int),
                        type_view(*t),
                        ev,
                        env,
                    ),
                decreases vals@.len() - i,
            {
                proof {
                    lemma_ewts_elem(vv, i as int);
                    assert(ewt(vv[i as int]) < ewt(ev));
                    assert(vv.skip(i as int)[0] == vv[i as int]);
                    assert(vv.skip(i as int).drop_first() =~= vv.skip(i as int + 1));
                }
                match vals[i].get_type(scope) {
                    Ok(vt) => {
                        if !type_eq(&vt, t) {
                            return Err(
                                Error::MismatchedTypes(self.clone(), t.clone(), vt),
                            );
                        }
                    },
                    Err(e) => {
                        return Err(e);
                    },
                }
                i = i + 1;
            }
            proof {
                assert(vv.skip(vals@.len() as int).len() == 0);
            }
        }
        Ok(Type::Pointer(Box::new(t.clone())))
        }

    #[verifier::loop_isolation(false)]
    #[verifier::rlimit(100)]
    fn get_type_block(&self, items: &Vec<Expr>, scope: &TypeEnv) -> (r: Result<Type, Error>)
        requires
            self@ == ExprView::Block(exprs_view(items@)),
        ensures
            res_tv(r) == type_of(self@, scope@),
        decreases ewt(self@), 0nat,
    {
        let ghost ev = self@;
        let ghost env = scope@;
        proof {
            assert(ewt(self@) == 2 + ewts(exprs_view(items@)));
        }
        let ghost iv = exprs_view(items@);
        proof {
            lemma_exprs_view_index(items@);
        }
        let mut result = Type::Void;
        let mut i: usize = 0;
        let ghost result_types: Seq<TypeView> = Seq::empty();
        proof {
            assert(iv.take(0) =~= Seq::<ExprView>::empty());
        }
        while i < items.len()
            invariant
                i <= items@.len(),
                result_types.len() == i,
                types_of(iv.take(i as int), env) == Ok::<Seq<TypeView>, ErrorView>(
                    result_types,
                ),
                type_view(result) == if i == 0 {
                    TypeView::Void
                } else {
                    result_types.last()
                },
            decreases items@.len() - i,
        {
            proof {
                lemma_ewts_elem(iv, i as int);
                assert(ewt(iv[i as int]) < ewt(ev));
            }
            match items[i].get_type(scope) {
                Ok(t) => {
                    result = t;
                    i = i + 1;
                    proof {
                        result_types = result_types.push(type_view(result));
                        assert(iv.take(i as int).drop_last() =~= iv.take(i as int - 1));
                        assert(iv.take(i as int).last() == iv[i as int - 1]);
                    }
                },
                Err(e) => {
                    proof {
                        lemma_types_of_err(iv, env, i as int, e@);
                    }
                    return Err(e);
                },
            }
        }
        proof {
            assert(iv.take(items@.len() as int) =~= iv);
        }
        Ok(result)
        }

    #[verifier::loop_isolation(false)]
    #[verifier::rlimit(100)]
    fn get_type_function(&self, args: &Vec<(String, Type)>, ret: &Type, body: &Expr, scope: &TypeEnv) -> (r: Result<Type, Error>)
        requires
            self@ == ExprView::Function(params_view(args@), type_view(*ret), Box::new(body@)),
        ensures
            res_tv(r) == type_of(self@, scope@),
        decreases ewt(self@), 0nat,
    {
        let ghost ev = self@;
        let ghost env = scope@;
        proof {
            assert(ewt(self@) == 2 + ewt(body@));
        }
        let ghost pv = params_view(args@);
        let mut test_scope = scope.functions_only();
        let mut i: usize = 0;
        proof {
            assert(pv.take(0) =~= Seq::<(Seq<char>, TypeView)>::empty());
        }
        while i < args.len()
            invariant
                i <= args@.len(),
                test_scope@ == env_insert_params(env_fns(env), pv.take(i as int)),
            decreases args@.len() - i,
        {
            let name = args[i].0.clone();
            let t = args[i].1.clone();
            test_scope.insert(name, t);
            i = i + 1;
            proof {
                assert(pv.take(i as int).drop_last() =~= pv.take(i as int - 1));
                assert(pv.take(i as int).last() == pv[i as int - 1]);
            }
        }
        proof {
            assert(pv.take(args@.len() as int) =~= pv);
        }
        let bt = match body.get_type(&test_scope) {
            Ok(t) => t,
            Err(e) => {
                return Err(e);
            },
        };
        if !type_eq(&bt, ret) {
            return Err(Error::MismatchedTypes(self.clone(), ret.clone(), bt));
        }
        let mut arg_types: Vec<Type> = Vec::new();
        let mut j: usize = 0;
        while j < args.len()
            invariant
                j <= args@.len(),
                arg_types@.len() == j,
                forall|k: int|
                    0 <= k < j ==> #[trigger] type_view(arg_types@[k]) == pv[k].1,
            decreases args@.len() - j,
        {
            arg_types.push(args[j].1.clone());
            j = j + 1;
        }
        proof {
            lemma_types_view_index(arg_types@);
            assert(types_view(arg_types@) =~= param_types(pv));
        }
        Ok(Type::Function(arg_types, Box::new(ret.clone())))
        }

    #[verifier::loop_isolation(false)]
    #[verifier::rlimit(100)]
    fn get_type_call(&self, name: &String, args: &Vec<Expr>, scope: &TypeEnv) -> (r: Result<Type, Error>)
        requires
            self@ == ExprView::Call(name@, exprs_view(args@)),
        ensures
            res_tv(r) == type_of(self@, scope@),
        decreases ewt(self@), 0nat,
    {
        let ghost ev = self@;
        let ghost env = scope@;
        proof {
            assert(ewt(self@) == 2 + ewts(exprs_view(args@)));
        }
        let ghost av = exprs_view(args@);
        proof {
            lemma_exprs_view_index(args@);
        }
        match scope.get(name) {
            Some(t) => match t {
                Type::Function(params, ret) => {
                    let ghost pv = types_view(params@);
                    proof {
                        lemma_types_view_index(params@);
                    }
                    if params.len() != args.len() {
                        return Err(
                            Error::MismatchedTypes(self.clone(), t.clone(), Type::Void),
                        );
                    }
                    let mut i: usize = 0;
                    proof {
                        assert(pv.skip(0) =~= pv);
                        assert(av.skip(0) =~= av);
                    }
                    while i < args.len()
                        invariant
                            i <= args@.len(),
                            check_args(pv, av, ev, env) == check_args(
                                pv.skip(i as int),
                                av.skip(i as int),
                                ev,
                                env,
                            ),
                        decreases args@.len() - i,
                    {
                        proof {
                            lemma_ewts_elem(av, i as int);
                            assert(ewt(av[i as int]) < ewt(ev));
                            assert(av.skip(i as int)[0] == av[i as int]);
                            assert(av.skip(i as int).drop_first() =~= av.skip(
                                i as int + 1,
                            ));
                            assert(pv.skip(i as int)[0] == pv[i as int]);
                            assert(pv.skip(i as int).drop_first() =~= pv.skip(
                                i as int + 1,
                            ));
                        }
                        let bt = match args[i].get_type(scope) {
                            Ok(ty) => ty,
                            Err(e) => {
                                return Err(e);
                            },
                        };
                        if !type_eq(&params[i], &bt) {
                            return Err(
                                Error::MismatchedTypes(
                                    self.clone(),
                                    params[i].clone(),
                                    bt,
                                ),
                            );
                        }
                        i = i + 1;
                    }
                    proof {
                        assert(av.skip(args@.len() as int).len() == 0);
                    }
                    Ok((**ret).clone())
                },
                _ => Err(Error::CallNonFunction(name.clone())),
            },
            None => Err(Error::VariableNotInScope(name.clone())),
        }
        }

}

} // verus!

verus! {

/// Runs the whole pipeline on a closed expression: the stack and frame
/// pointers are seeded to the first cell above the reserved registers, the
/// expression is lowered under an empty environment at offset zero, and the
/// operation is assembled under the empty macro scope.  An assembler fault
/// is rewrapped so the caller sees one error type.
pub fn compile_to_lir(e: &Expr) -> (r: Result<lir::Program, Error>)
    ensures
        match compile_v(e@, Seq::empty(), 0) {
            Err(er) => r matches Err(e2) && e2@ == er,
            Ok(opv) => match mir::assembled(opv, Seq::empty()) {
                Ok(emitted) => r matches Ok(p) && p@ == mir::set_ops(
                    mir::spec_sp(),
                    mir::TOTAL_REGISTERS,
                ) + mir::set_ops(mir::spec_fp(), mir::TOTAL_REGISTERS) + emitted,
                Err(pe) => r matches Err(e2) && e2@ == ErrorView::MIRError(pe.1),
            },
        },
{
    let env = TypeEnv::new();
    let mut offset: u32 = 0;
    let op = match e.compile(&env, &mut offset) {
        Ok(op) => op,
        Err(er) => {
            return Err(er);
        },
    };
    let mut program = lir::Program::default();
    mir::sp().set(mir::TOTAL_REGISTERS, &mut program);
    mir::fp().set(mir::TOTAL_REGISTERS, &mut program);
    proof {
        assert(program@ =~= mir::set_ops(mir::spec_sp(), mir::TOTAL_REGISTERS) + mir::set_ops(
            mir::spec_fp(),
            mir::TOTAL_REGISTERS,
        ));
    }
    match op.assemble(&mut program) {
        Ok(()) => Ok(program),
        Err(me) => Err(Error::MIRError(me)),
    }
}

} // verus!
