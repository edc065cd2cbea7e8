use vstd::prelude::*;

verus! {

broadcast use vstd::std_specs::vec::group_vec_axioms;

/// The native builtins of the prelude.  A native function value carries one
/// of these names; what the name does to its arguments is the host's part
/// (see the `host` parameter of [`crate::interpreter::eval`]).
#[derive(PartialEq, Eq, Structural, Debug, Clone, Copy)]
pub enum NativeFn {
    Add,
    Sub,
    Mul,
    Div,
    NumEq,
    Gt,
    Ge,
    Lt,
    Le,
    Print,
    Println,
    Gets,
    Sleep,
}

/// An expression at the specification level: text as character sequences,
/// lists as sequences, numbers as their 64-bit float encoding.
pub enum SpecExpr {
    Nil,
    Bool(bool),
    Keyword(Seq<char>),
    Symbol(Seq<char>),
    Number(u64),
    Str(Seq<char>),
    List(Seq<SpecExpr>),
    Func(NativeFn),
    Lambda(Box<SpecExpr>, Box<SpecExpr>),
}

/// The single tagged representation for both syntax trees and values.  A
/// number holds the 64-bit encoding of a double-precision float; the library
/// never reads the encoded value itself.
#[derive(PartialEq, Debug)]
pub enum LanaExpr {
    Nil,
    Bool(bool),
    Keyword(String),
    Symbol(String),
    Number(u64),
    String(String),
    List(Vec<LanaExpr>),
    Func(NativeFn),
    Lambda(LanaLambda),
}

/// A lambda value: the parameter list and the body, captured verbatim and
/// unevaluated.
#[derive(PartialEq, Debug)]
pub struct LanaLambda {
    pub params: Box<LanaExpr>,
    pub body: Box<LanaExpr>,
}

pub open spec fn spec_expr_of(e: LanaExpr) -> SpecExpr
    decreases e,
{
    match e {
        LanaExpr::Nil => SpecExpr::Nil,
        LanaExpr::Bool(b) => SpecExpr::Bool(b),
        LanaExpr::Keyword(s) => SpecExpr::Keyword(s@),
        LanaExpr::Symbol(s) => SpecExpr::Symbol(s@),
        LanaExpr::Number(n) => SpecExpr::Number(n),
        LanaExpr::String(s) => SpecExpr::Str(s@),
        LanaExpr::List(v) => SpecExpr::List(spec_exprs_of(v, 0)),
        LanaExpr::Func(f) => SpecExpr::Func(f),
        LanaExpr::Lambda(l) => SpecExpr::Lambda(
            Box::new(spec_expr_of(*l.params)),
            Box::new(spec_expr_of(*l.body)),
        ),
    }
}

/// The models of the elements of `v` from index `i` on.
pub open spec fn spec_exprs_of(v: Vec<LanaExpr>, i: int) -> Seq<SpecExpr>
    decreases v, v.len() - i,
{
    if i < 0 || i >= v.len() {
        Seq::<SpecExpr>::empty()
    } else {
        seq![spec_expr_of(v[i])] + spec_exprs_of(v, i + 1)
    }
}

/// An expression and its model always agree on the variant, and literal
/// leaves carry their payload into the model unchanged.
pub proof fn lemma_view_variants(e: LanaExpr)
    ensures
        (e@ is Nil <==> e is Nil),
        (e@ is Bool <==> e is Bool),
        (e@ is Number <==> e is Number),
        (e@ is Keyword <==> e is Keyword),
        (e@ is Str <==> e is String),
        (e@ is Symbol <==> e is Symbol),
        (e@ is List <==> e is List),
        (e@ is Func <==> e is Func),
        (e@ is Lambda <==> e is Lambda),
        (e is Bool ==> e@ == SpecExpr::Bool(e->Bool_0)),
        (e is Number ==> e@ == SpecExpr::Number(e->Number_0)),
        (e is Symbol ==> e@ == SpecExpr::Symbol(e->Symbol_0@)),
        (e is Func ==> e@ == SpecExpr::Func(e->Func_0)),
{
    match e {
        LanaExpr::Nil => {}
        LanaExpr::Bool(_) => {}
        LanaExpr::Keyword(_) => {}
        LanaExpr::Symbol(_) => {}
        LanaExpr::Number(_) => {}
        LanaExpr::String(_) => {}
        LanaExpr::List(_) => {}
        LanaExpr::Func(_) => {}
        LanaExpr::Lambda(_) => {}
    }
}

/// A structural copy of every element of a list, models kept.
fn duplicate_elements(v: &Vec<LanaExpr>) -> (out: Vec<LanaExpr>)
    ensures
        out@.len() == v@.len(),
        forall|j: int| 0 <= j < v@.len() ==> out@[j]@ == v@[j]@,
    decreases *v,
{
    let mut out: Vec<LanaExpr> = Vec::new();
    let mut i: usize = 0;
    while i < v.len()
        invariant
            i <= v@.len(),
            out@.len() == i,
            forall|j: int| 0 <= j < i ==> out@[j]@ == v@[j]@,
        decreases v@.len() - i,
    {
        proof {
            assert(decreases_to!((*v) => (*v)[i as int]));
        }
        out.push(v[i].duplicate());
        i = i + 1;
    }
    out
}

/// The models of a list's elements line up with the elements, one for one.
pub proof fn lemma_spec_exprs_of(v: Vec<LanaExpr>, i: int)
    requires
        0 <= i <= v.len(),
    ensures
        spec_exprs_of(v, i).len() == v.len() - i,
        forall|j: int|
            0 <= j < v.len() - i ==> #[trigger] spec_exprs_of(v, i)[j] == spec_expr_of(v[i + j]),
    decreases v.len() - i,
{
    if i < v.len() {
        lemma_spec_exprs_of(v, i + 1);
        assert forall|j: int|
            0 <= j < v.len() - i implies #[trigger] spec_exprs_of(v, i)[j] == spec_expr_of(
            v[i + j],
        ) by {
            if j > 0 {
                assert(spec_exprs_of(v, i)[j] == spec_exprs_of(v, i + 1)[j - 1]);
            }
        }
    }
}

impl View for LanaExpr {
    type V = SpecExpr;

    open spec fn view(&self) -> SpecExpr {
        spec_expr_of(*self)
    }
}

impl View for LanaLambda {
    type V = SpecExpr;

    open spec fn view(&self) -> SpecExpr {
        SpecExpr::Lambda(Box::new(spec_expr_of(*self.params)), Box::new(spec_expr_of(*self.body)))
    }
}

/// The name of a value's kind, as error messages spell it.
pub open spec fn spec_kind_name(e: SpecExpr) -> Seq<char> {
    match e {
        SpecExpr::Bool(_) => "boolean"@,
        SpecExpr::Symbol(_) => "symbol"@,
        SpecExpr::Keyword(_) => "keyword"@,
        SpecExpr::Number(_) => "number"@,
        SpecExpr::List(_) => "list"@,
        SpecExpr::Func(_) => "function"@,
        SpecExpr::Lambda(_, _) => "lambda"@,
        SpecExpr::Nil => "nil"@,
        SpecExpr::Str(_) => "string"@,
    }
}

impl LanaExpr {
    /// The name of an expression's variant, as error messages spell it.
    pub open spec fn spec_enum_name(self) -> Seq<char> {
        spec_kind_name(self@)
    }

    pub fn enum_name(&self) -> (r: String)
        ensures
            r@ == self.spec_enum_name(),
    {
        match self {
            LanaExpr::Bool(_) => "boolean".to_owned(),
            LanaExpr::Symbol(_) => "symbol".to_owned(),
            LanaExpr::Keyword(_) => "keyword".to_owned(),
            LanaExpr::Number(_) => "number".to_owned(),
            LanaExpr::List(_) => "list".to_owned(),
            LanaExpr::Func(_) => "function".to_owned(),
            LanaExpr::Lambda(_) => "lambda".to_owned(),
            LanaExpr::Nil => "nil".to_owned(),
            LanaExpr::String(_) => "string".to_owned(),
        }
    }

    /// A structural copy whose model is the same.
    pub fn duplicate(&self) -> (r: Self)
        ensures
            r@ == self@,
        decreases *self,
    {
        match self {
            LanaExpr::Nil => LanaExpr::Nil,
            LanaExpr::Bool(b) => LanaExpr::Bool(*b),
            LanaExpr::Keyword(s) => LanaExpr::Keyword(s.clone()),
            LanaExpr::Symbol(s) => LanaExpr::Symbol(s.clone()),
            LanaExpr::Number(n) => LanaExpr::Number(*n),
            LanaExpr::String(s) => LanaExpr::String(s.clone()),
            LanaExpr::List(v) => {
                let out = duplicate_elements(v);
                let r = LanaExpr::List(out);
                proof {
                    lemma_spec_exprs_of(out, 0);
                    lemma_spec_exprs_of(*v, 0);
                    assert(spec_exprs_of(out, 0) =~= spec_exprs_of(*v, 0));
                }
                r
            }
            LanaExpr::Func(f) => LanaExpr::Func(*f),
            LanaExpr::Lambda(l) => LanaExpr::Lambda(
                LanaLambda {
                    params: Box::new((&*l.params).duplicate()),
                    body: Box::new((&*l.body).duplicate()),
                },
            ),
        }
    }
}

} // verus!
