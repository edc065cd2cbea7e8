pub mod lana_env;

use vstd::prelude::*;
use vstd::string::StringExecFns;

use crate::interpreter::lana_env::{env_preserved, LanaEnv};
use crate::lana_err::{LanaErr, SpecErr};
use crate::lana_expr::{lemma_spec_exprs_of, lemma_view_variants, spec_exprs_of, spec_kind_name, LanaExpr, LanaLambda, NativeFn, SpecExpr};
use crate::text::{spec_digits, str_content_eq, usize_to_string};

verus! {

/// The value kinds that evaluate to themselves.
pub open spec fn self_evaluating(e: SpecExpr) -> bool {
    e is Nil || e is Bool || e is Keyword || e is Number || e is Str
}

/// The two falsy values; everything else selects an `if`'s first branch.
pub open spec fn spec_falsy(e: SpecExpr) -> bool {
    e == SpecExpr::Nil || e == SpecExpr::Bool(false)
}

/// How an exec outcome lines up with a specification-level outcome.
pub open spec fn result_matches(r: Result<LanaExpr, LanaErr>, out: Result<SpecExpr, SpecErr>) -> bool {
    match out {
        Ok(v) => r is Ok && r->Ok_0@ == v,
        Err(e) => r is Err && r->Err_0@ == e,
    }
}

/// A name resolved through the frame chain, with the bindings of the active
/// frame taken from `am` rather than read from the environment itself.
pub open spec fn chain_lookup(env: LanaEnv, am: Map<Seq<char>, SpecExpr>, name: Seq<char>) -> Option<
    SpecExpr,
> {
    if am.contains_key(name) {
        Some(am[name])
    } else {
        match env.frames@[env.active()].outer {
            Some(o) => if 0 <= o < env.active() {
                env.lookup_from(o as int, name)
            } else {
                None
            },
            None => None,
        }
    }
}

/// A non-list form, settled in one step: a self-evaluating leaf is itself, a
/// symbol resolves through the chain, a naked callable is an error.  `None`
/// for lists, which only the recursive evaluator settles.
pub open spec fn settle_atom(
    env: LanaEnv,
    am: Map<Seq<char>, SpecExpr>,
    e: SpecExpr,
) -> Option<Result<SpecExpr, SpecErr>> {
    if self_evaluating(e) {
        Some(Ok(e))
    } else {
        match e {
            SpecExpr::Symbol(name) => match chain_lookup(env, am, name) {
                Some(v) => Some(Ok(v)),
                None => Some(Err(SpecErr::Reason("Undefined symbol '"@ + name + "'"@))),
            },
            SpecExpr::Func(_) => Some(Err(SpecErr::Reason("Unexpected function"@))),
            SpecExpr::Lambda(_, _) => Some(Err(SpecErr::Reason("Unexpected lambda"@))),
            _ => None,
        }
    }
}

/// One evaluation step settled without unbounded recursion, together with
/// the active frame's bindings after the step: a non-list form, or a
/// `(def name value)` whose value is a non-list form.  `am` is the active
/// frame's bindings before the step.
pub open spec fn settle(env: LanaEnv, am: Map<Seq<char>, SpecExpr>, e: SpecExpr) -> Option<
    (Result<SpecExpr, SpecErr>, Map<Seq<char>, SpecExpr>),
> {
    match settle_atom(env, am, e) {
        Some(out) => Some((out, am)),
        None => match e {
            SpecExpr::List(elems) => if elems.len() == 3 && elems[0] == SpecExpr::Symbol("def"@)
                && elems[1] is Symbol {
                match settle_atom(env, am, elems[2]) {
                    Some(Ok(v)) => Some((Ok(v), am.insert(elems[1]->Symbol_0, v))),
                    Some(Err(er)) => Some((Err(er), am)),
                    None => None,
                }
            } else {
                None
            },
            _ => None,
        },
    }
}

/// A whole sequence of forms settled left to right, the active frame's
/// bindings threaded through: the last form's value, or the first error.
/// `None` once any form is not settled.
pub open spec fn settle_seq(
    env: LanaEnv,
    am: Map<Seq<char>, SpecExpr>,
    elems: Seq<SpecExpr>,
    i: int,
) -> Option<(Result<SpecExpr, SpecErr>, Map<Seq<char>, SpecExpr>)>
    decreases elems.len() - i when 0 <= i < elems.len()
{
    match settle(env, am, elems[i]) {
        None => None,
        Some(p) => match p.0 {
            Err(e) => Some((Err(e), p.1)),
            Ok(v) => if i == elems.len() - 1 {
                Some((Ok(v), p.1))
            } else {
                settle_seq(env, p.1, elems, i + 1)
            },
        },
    }
}

/// The settled values of a sequence of non-list argument forms, in order;
/// the first settled error wins.  `None` once any form is a list.
pub open spec fn atoms_eval(
    env: LanaEnv,
    am: Map<Seq<char>, SpecExpr>,
    elems: Seq<SpecExpr>,
    i: int,
) -> Option<Result<Seq<SpecExpr>, SpecErr>>
    decreases elems.len() - i when 0 <= i <= elems.len()
{
    if i >= elems.len() {
        Some(Ok(Seq::<SpecExpr>::empty()))
    } else {
        match settle_atom(env, am, elems[i]) {
            None => None,
            Some(out) => match out {
                Err(e) => Some(Err(e)),
                Ok(v) => match atoms_eval(env, am, elems, i + 1) {
                    None => None,
                    Some(rest) => match rest {
                        Err(e) => Some(Err(e)),
                        Ok(vs) => Some(Ok(seq![v] + vs)),
                    },
                },
            },
        }
    }
}

/// With the active frame's own bindings, the chain resolves names exactly as
/// the environment does.
proof fn lemma_chain_is_lookup(env: LanaEnv, name: Seq<char>)
    requires
        env.wf(),
    ensures
        chain_lookup(env, env.frame_map(env.active()), name) == env.lookup(name),
{
}

/// Name resolution below the active frame only reads what every evaluation
/// step preserves, so preserved environments resolve alike there.
proof fn lemma_lookup_preserved(a: LanaEnv, b: LanaEnv, k: int, name: Seq<char>)
    requires
        env_preserved(a, b),
        0 <= k < a.frames@.len() - 1,
    ensures
        a.lookup_from(k, name) == b.lookup_from(k, name),
    decreases k,
{
    assert(b.frame_map(k) == a.frame_map(k));
    if !a.frame_map(k).contains_key(name) {
        if let Some(o) = a.frames@[k].outer {
            if 0 <= o < k {
                lemma_lookup_preserved(a, b, o as int, name);
            }
        }
    }
}

proof fn lemma_chain_preserved(a: LanaEnv, b: LanaEnv, am: Map<Seq<char>, SpecExpr>, name: Seq<char>)
    requires
        env_preserved(a, b),
        a.frames@.len() >= 1,
    ensures
        chain_lookup(a, am, name) == chain_lookup(b, am, name),
{
    assert(b.frames@[b.active()].outer == a.frames@[a.active()].outer);
    if !am.contains_key(name) {
        if let Some(o) = a.frames@[a.active()].outer {
            if 0 <= o < a.active() {
                lemma_lookup_preserved(a, b, o as int, name);
            }
        }
    }
}

/// What any evaluation step preserves is everything the settled fragment
/// reads, so settlement is the same before and after such a step.
proof fn lemma_settle_preserved(a: LanaEnv, b: LanaEnv, am: Map<Seq<char>, SpecExpr>, e: SpecExpr)
    requires
        env_preserved(a, b),
        a.frames@.len() >= 1,
    ensures
        settle_atom(a, am, e) == settle_atom(b, am, e),
        settle(a, am, e) == settle(b, am, e),
{
    match e {
        SpecExpr::Symbol(name) => {
            lemma_chain_preserved(a, b, am, name);
        }
        SpecExpr::List(elems) => {
            if elems.len() == 3 {
                match elems[2] {
                    SpecExpr::Symbol(name2) => {
                        lemma_chain_preserved(a, b, am, name2);
                    }
                    _ => {}
                }
            }
        }
        _ => {}
    }
}

/// A settled argument list has one value per form.
proof fn lemma_atoms_eval_len(
    env: LanaEnv,
    am: Map<Seq<char>, SpecExpr>,
    elems: Seq<SpecExpr>,
    i: int,
)
    requires
        0 <= i <= elems.len(),
    ensures
        (match atoms_eval(env, am, elems, i) {
            Some(whole) => whole matches Ok(vs) ==> vs.len() == elems.len() - i,
            None => true,
        }),
    decreases elems.len() - i,
{
    if i < elems.len() {
        lemma_atoms_eval_len(env, am, elems, i + 1);
    }
}

/// The reserved head symbols, consulted before ordinary application.
pub open spec fn is_special(s: Seq<char>) -> bool {
    s == "if"@ || s == "def"@ || s == "fn"@ || s == "defn"@ || s == "do"@
}

/// Whether a list head names a special form.
pub open spec fn is_special_head(e: SpecExpr) -> bool {
    match e {
        SpecExpr::Symbol(s) => is_special(s),
        _ => false,
    }
}

/// The texts of a parameter list: one name per element, or nothing if any
/// element is not a symbol.
pub open spec fn symbol_texts_from(elems: Seq<SpecExpr>, i: int) -> Option<Seq<Seq<char>>>
    decreases elems.len() - i when 0 <= i <= elems.len()
{
    if i >= elems.len() {
        Some(Seq::<Seq<char>>::empty())
    } else {
        match elems[i] {
            SpecExpr::Symbol(s) => match symbol_texts_from(elems, i + 1) {
                Some(r) => Some(seq![s] + r),
                None => None,
            },
            _ => None,
        }
    }
}

pub open spec fn symbol_texts(elems: Seq<SpecExpr>) -> Option<Seq<Seq<char>>> {
    symbol_texts_from(elems, 0)
}

/// The error returned when evaluation runs out of nesting budget.
pub open spec fn spec_depth_err() -> SpecErr {
    SpecErr::Reason("Evaluation is nested too deeply"@)
}

fn depth_err() -> (r: LanaErr)
    ensures
        r@ == spec_depth_err(),
{
    LanaErr::Reason("Evaluation is nested too deeply".to_owned())
}

/// The elements of `list` from index `from` on, copied.
fn tail_duplicate(list: &Vec<LanaExpr>, from: usize) -> (out: Vec<LanaExpr>)
    requires
        from <= list@.len(),
    ensures
        out@.len() == list@.len() - from,
        forall|j: int| 0 <= j < out@.len() ==> (#[trigger] out@[j]@) == list@[from + j]@,
{
    let mut out: Vec<LanaExpr> = Vec::new();
    let mut i: usize = from;
    while i < list.len()
        invariant
            from <= i <= list@.len(),
            out@.len() == i - from,
            forall|j: int| 0 <= j < out@.len() ==> (#[trigger] out@[j]@) == list@[from + j]@,
        decreases list@.len() - i,
    {
        out.push(list[i].duplicate());
        i = i + 1;
    }
    out
}

proof fn lemma_env_preserved_trans(a: LanaEnv, b: LanaEnv, c: LanaEnv)
    requires
        env_preserved(a, b),
        env_preserved(b, c),
    ensures
        env_preserved(a, c),
{
}

/// Evaluate one expression in the given environment.
///
/// `host` performs the native builtins: it is handed the builtin's name and
/// the already evaluated arguments, and its result — success or error — is
/// returned as the application's result, exactly as it came back.  `fuel`
/// bounds the nesting of recursive evaluation; a burnt-out budget surfaces as
/// an error rather than unbounded recursion.
///
/// The contract pins the result and the environment's change wherever
/// evaluation does not recurse into an unbounded sub-evaluation: leaves,
/// symbols, and everything [`settle`] covers, one special form deep, plus
/// each special form's own shape errors.  Where a sub-form needs the full
/// recursion — a nested application, a lambda body — the clauses still pin
/// the frame discipline (`env_preserved`), the special-form dispatch, and
/// that any success of a builtin application is the host's own verdict.
pub fn eval<F: Fn(&NativeFn, &Vec<LanaExpr>) -> Result<LanaExpr, LanaErr>>(
    expr: &LanaExpr,
    env: &mut LanaEnv,
    host: &F,
    fuel: u64,
) -> (r: Result<LanaExpr, LanaErr>)
    requires
        old(env).wf(),
        forall|a: (&NativeFn, &Vec<LanaExpr>)| #[trigger] call_requires(*host, a),
    ensures
        final(env).wf(),
        env_preserved(*old(env), *final(env)),
        (!(expr is List) ==> *final(env) == *old(env)),
        (self_evaluating(expr@) ==> (r is Ok && r->Ok_0@ == expr@)),
        (fuel > 0 ==> match settle(*old(env), old(env).frame_map(old(env).active()), expr@) {
            Some(p) => result_matches(r, p.0) && final(env).frames@.len()
                == old(env).frames@.len() && final(env).frame_map(final(env).active()) == p.1,
            None => true,
        }),
        (expr matches LanaExpr::Symbol(k) ==> match old(env).lookup(k@) {
            Some(val) => r is Ok && r->Ok_0@ == val,
            None => r is Err && r->Err_0@ == SpecErr::Reason("Undefined symbol '"@ + k@ + "'"@),
        }),
        (expr matches LanaExpr::List(v) && v@.len() == 0 ==> (r is Err && r->Err_0@
            == SpecErr::Reason("Expected a non-empty list"@))),
        (expr matches LanaExpr::List(v) && v@.len() == 1 && v@[0]@ == SpecExpr::Symbol("do"@) ==> (
        r is Ok && r->Ok_0@ == SpecExpr::Nil)),
        (expr matches LanaExpr::List(v) ==> (v@.len() > 1 && v@[0]@ == SpecExpr::Symbol("do"@)
            && fuel > 1 ==> match settle_seq(
            *old(env),
            old(env).frame_map(old(env).active()),
            spec_exprs_of(*v, 1),
            0,
        ) {
            Some(p) => result_matches(r, p.0) && final(env).frames@.len()
                == old(env).frames@.len() && final(env).frame_map(final(env).active()) == p.1,
            None => true,
        })),
        (expr matches LanaExpr::List(v) ==> (v@.len() > 0 && v@[0]@ == SpecExpr::Symbol("fn"@)
            ==> match r {
            Ok(out) => spec_lambda_args(spec_exprs_of(*v, 1)) == Ok::<SpecExpr, SpecErr>(out@),
            Err(er) => spec_lambda_args(spec_exprs_of(*v, 1)) == Err::<SpecExpr, SpecErr>(er@),
        })),
        (expr matches LanaExpr::List(v) ==> (v@.len() > 0 && v@[0]@ == SpecExpr::Symbol("def"@)
            && r is Ok ==> (v@.len() == 3 && v@[1]@ is Symbol && final(env).frame_map(
            final(env).active(),
        ).contains_key(v@[1]@->Symbol_0) && final(env).frame_map(final(env).active())[v@[1]@
            ->Symbol_0] == r->Ok_0@))),
        (expr matches LanaExpr::List(v) ==> (v@.len() > 0 && v@[0]@ == SpecExpr::Symbol("defn"@)
            && r is Ok ==> (v@.len() >= 2 && v@[1]@ is Symbol && r->Ok_0@ is Lambda && final(env).frame_map(final(env).active()).contains_key(v@[1]@->Symbol_0) && final(env).frame_map(
            final(env).active(),
        )[v@[1]@->Symbol_0] == r->Ok_0@))),
        (expr matches LanaExpr::List(v) ==> (v@.len() > 1 && v@[0]@ == SpecExpr::Symbol("defn"@)
            && v@[1]@ is Symbol ==> match spec_lambda_args(spec_exprs_of(*v, 2)) {
            Ok(lam) => r is Ok && r->Ok_0@ == lam && final(env).frames@.len()
                == old(env).frames@.len() && final(env).frame_map(final(env).active()) == old(env).frame_map(old(env).active()).insert(v@[1]@->Symbol_0, lam),
            Err(e) => r is Err && r->Err_0@ == e && *final(env) == *old(env),
        })),
        (expr matches LanaExpr::List(v) ==> (v@.len() == 1 && v@[0]@ == SpecExpr::Symbol("if"@)
            ==> (r is Err && r->Err_0@ == SpecErr::Reason("Expected if condition"@)))),
        (expr matches LanaExpr::List(v) ==> (2 <= v@.len() <= 4 && v@[0]@ == SpecExpr::Symbol(
            "if"@,
        ) && fuel > 1 ==> match settle(*old(env), old(env).frame_map(old(env).active()), v@[1]@) {
            Some(p1) => match p1.0 {
                Err(e) => r is Err && r->Err_0@ == e && final(env).frames@.len()
                    == old(env).frames@.len() && final(env).frame_map(final(env).active())
                    == p1.1,
                Ok(c) => {
                    let sel: int = if spec_falsy(c) {
                        2
                    } else {
                        1
                    };
                    if sel + 1 < v@.len() {
                        match settle(*old(env), p1.1, v@[sel + 1]@) {
                            Some(p2) => result_matches(r, p2.0) && final(env).frames@.len()
                                == old(env).frames@.len() && final(env).frame_map(
                                final(env).active(),
                            ) == p2.1,
                            None => true,
                        }
                    } else {
                        r is Err && r->Err_0@ == SpecErr::Reason(
                            if spec_falsy(c) {
                                "Expected if's else branch"@
                            } else {
                                "Expected if's then branch"@
                            },
                        ) && final(env).frames@.len() == old(env).frames@.len() && final(env).frame_map(final(env).active()) == p1.1
                    }
                }
            },
            None => true,
        })),
        (expr matches LanaExpr::List(v) ==> (v@.len() == 3 && v@[0]@ == SpecExpr::Symbol("def"@)
            && v@[1]@ is Symbol && fuel > 0 ==> match settle_atom(
            *old(env),
            old(env).frame_map(old(env).active()),
            v@[2]@,
        ) {
            Some(out) => match out {
                Ok(val) => r is Ok && r->Ok_0@ == val && final(env).frames@.len()
                    == old(env).frames@.len() && final(env).frame_map(final(env).active()) == old(env).frame_map(old(env).active()).insert(v@[1]@->Symbol_0, val),
                Err(e) => r is Err && r->Err_0@ == e && *final(env) == *old(env),
            },
            None => true,
        })),
        (expr matches LanaExpr::List(v) ==> (v@.len() > 4 && v@[0]@ == SpecExpr::Symbol("if"@)
            ==> (r is Err && r->Err_0@ == SpecErr::Reason(
            "Expected 2-3 arguments, got "@ + spec_digits((v@.len() - 1) as nat),
        )))),
        (expr matches LanaExpr::List(v) ==> (v@.len() > 0 && !is_special_head(v@[0]@) && fuel > 0
            ==> match settle_atom(*old(env), old(env).frame_map(old(env).active()), v@[0]@) {
            Some(h) => match h {
                Err(e) => r is Err && r->Err_0@ == e,
                Ok(hv) => !(hv is Func) && !(hv is Lambda) ==> (r is Err && r->Err_0@
                    == SpecErr::Reason(
                    "First form must be a function, got "@ + spec_kind_name(hv),
                )),
            },
            None => true,
        })),
        (expr matches LanaExpr::List(v) ==> (v@.len() > 0 && !is_special_head(v@[0]@) && fuel > 0
            ==> match settle_atom(*old(env), old(env).frame_map(old(env).active()), v@[0]@) {
            Some(h) => match h {
                Ok(hv) => match hv {
                    SpecExpr::Func(op) => r is Ok ==> (exists|
                        argv: Vec<LanaExpr>,
                        res: Result<LanaExpr, LanaErr>,
                    |
                        #[trigger] call_ensures(*host, (&op, &argv), res) && res is Ok && r->Ok_0
                            == res->Ok_0),
                    _ => true,
                },
                Err(_) => true,
            },
            None => true,
        })),
        (expr matches LanaExpr::List(v) ==> (v@.len() > 0 && !is_special_head(v@[0]@) && fuel > 0
            ==> match settle_atom(*old(env), old(env).frame_map(old(env).active()), v@[0]@) {
            Some(h) => match h {
                Ok(hv) => match hv {
                    SpecExpr::Func(op) => match atoms_eval(
                        *old(env),
                        old(env).frame_map(old(env).active()),
                        spec_exprs_of(*v, 1),
                        0,
                    ) {
                        Some(whole) => match whole {
                            Ok(vs) => exists|argv: Vec<LanaExpr>, res: Result<LanaExpr, LanaErr>|
                                #[trigger] call_ensures(*host, (&op, &argv), res)
                                    && spec_exprs_of(argv, 0) == vs && r == res,
                            Err(e) => r is Err && r->Err_0@ == e,
                        },
                        None => true,
                    },
                    _ => true,
                },
                Err(_) => true,
            },
            None => true,
        })),
        (expr is Func ==> (r is Err && r->Err_0@ == SpecErr::Reason("Unexpected function"@))),
        (expr is Lambda ==> (r is Err && r->Err_0@ == SpecErr::Reason("Unexpected lambda"@))),
    decreases fuel, 2int,
{
    match expr {
        LanaExpr::Nil => Ok(LanaExpr::Nil),
        LanaExpr::Bool(_) => Ok(expr.duplicate()),
        LanaExpr::Keyword(_) => Ok(expr.duplicate()),
        LanaExpr::Number(_) => Ok(expr.duplicate()),
        LanaExpr::String(_) => Ok(expr.duplicate()),
        LanaExpr::Symbol(k) => {
            proof {
                lemma_chain_is_lookup(*old(env), k@);
            }
            match env.get(k.as_str()) {
                Some(v) => Ok(v),
                None => Err(
                    LanaErr::Reason("Undefined symbol '".to_owned().concat(k.as_str()).concat("'")),
                ),
            }
        }
        LanaExpr::List(list) => {
            proof {
                lemma_spec_exprs_of(*list, 0);
            }
            if list.len() == 0 {
                return Err(LanaErr::Reason("Expected a non-empty list".to_owned()));
            }
            let first_form = &list[0];
            let arg_forms = tail_duplicate(list, 1);
            match eval_built_in_form(first_form, &arg_forms, env, host, fuel) {
                Some(result) => {
                    proof {
                        lemma_spec_exprs_of(arg_forms, 0);
                        lemma_spec_exprs_of(*list, 1);
                        assert forall|j: int|
                            0 <= j < arg_forms@.len() implies spec_exprs_of(arg_forms, 0)[j]
                            == spec_exprs_of(*list, 1)[j] by {
                            assert(arg_forms[j] == arg_forms@[j]);
                            assert((*list)[1 + j] == list@[1 + j]);
                            assert(arg_forms@[j]@ == list@[1 + j]@);
                        }
                        assert(spec_exprs_of(arg_forms, 0) =~= spec_exprs_of(*list, 1));
                        if arg_forms.len() >= 1 {
                            lemma_spec_exprs_of(arg_forms, 1);
                            lemma_spec_exprs_of(*list, 2);
                            assert forall|j: int|
                                0 <= j < arg_forms@.len() - 1 implies spec_exprs_of(arg_forms, 1)[j]
                                == spec_exprs_of(*list, 2)[j] by {
                                assert(arg_forms[1 + j] == arg_forms@[1 + j]);
                                assert((*list)[2 + j] == list@[2 + j]);
                                assert(arg_forms@[1 + j]@ == list@[2 + j]@);
                            }
                            assert(spec_exprs_of(arg_forms, 1) =~= spec_exprs_of(*list, 2));
                        }
                    }
                    result
                }
                None => {
                    if fuel == 0 {
                        return Err(depth_err());
                    }
                    proof {
                        lemma_spec_exprs_of(arg_forms, 0);
                        lemma_spec_exprs_of(*list, 1);
                        assert forall|j: int|
                            0 <= j < arg_forms@.len() implies spec_exprs_of(arg_forms, 0)[j]
                            == spec_exprs_of(*list, 1)[j] by {
                            assert(arg_forms[j] == arg_forms@[j]);
                            assert((*list)[1 + j] == list@[1 + j]);
                            assert(arg_forms@[j]@ == list@[1 + j]@);
                        }
                        assert(spec_exprs_of(arg_forms, 0) =~= spec_exprs_of(*list, 1));
                        match first_form@ {
                            SpecExpr::Symbol(name) => {
                                lemma_chain_is_lookup(*old(env), name);
                            }
                            _ => {}
                        }
                    }
                    let first_eval = match eval(first_form, env, host, fuel - 1) {
                        Ok(v) => v,
                        Err(e) => {
                            return Err(e);
                        }
                    };
                    match first_eval {
                        LanaExpr::Func(function) => {
                            let ghost mid1 = *env;
                            let args_eval = match eval_exprs(&arg_forms, env, host, fuel) {
                                Ok(v) => v,
                                Err(e) => {
                                    proof {
                                        lemma_env_preserved_trans(*old(env), mid1, *env);
                                    }
                                    return Err(e);
                                }
                            };
                            proof {
                                lemma_env_preserved_trans(*old(env), mid1, *env);
                            }
                            let verdict = (*host)(&function, &args_eval);
                            proof {
                                lemma_spec_exprs_of(args_eval, 0);
                                lemma_atoms_eval_len(
                                    *old(env),
                                    old(env).frame_map(old(env).active()),
                                    spec_exprs_of(*list, 1),
                                    0,
                                );
                                match settle_atom(
                                    *old(env),
                                    old(env).frame_map(old(env).active()),
                                    first_form@,
                                ) {
                                    Some(_) => {
                                        lemma_view_variants(*first_form);
                                        assert(mid1 == *old(env));
                                        assert(mid1.frame_map(mid1.active()) == old(env).frame_map(
                                            old(env).active(),
                                        ));
                                        assert(atoms_eval(
                                            mid1,
                                            mid1.frame_map(mid1.active()),
                                            spec_exprs_of(arg_forms, 0),
                                            0,
                                        ) == atoms_eval(
                                            *old(env),
                                            old(env).frame_map(old(env).active()),
                                            spec_exprs_of(*list, 1),
                                            0,
                                        ));
                                        match atoms_eval(
                                            *old(env),
                                            old(env).frame_map(old(env).active()),
                                            spec_exprs_of(*list, 1),
                                            0,
                                        ) {
                                            Some(whole) => match whole {
                                                Ok(vs) => {
                                                    if vs.len() == args_eval@.len() {
                                                        assert forall|j: int|
                                                            0 <= j < args_eval@.len()
                                                                implies spec_exprs_of(
                                                                args_eval,
                                                                0,
                                                            )[j] == vs[j] by {
                                                            assert(args_eval[j] == args_eval@[j]);
                                                            assert(args_eval@[j]@ == vs[j]);
                                                        }
                                                        assert(spec_exprs_of(args_eval, 0) =~= vs);
                                                    }
                                                }
                                                Err(_) => {}
                                            },
                                            None => {}
                                        }
                                    }
                                    None => {}
                                }
                                assert(call_ensures(*host, (&function, &args_eval), verdict));
                            }
                            verdict
                        }
                        LanaExpr::Lambda(lambda) => {
                            let ghost mid1 = *env;
                            let bindings = match env_for_lambda(
                                &lambda.params,
                                &arg_forms,
                                env,
                                host,
                                fuel,
                            ) {
                                Ok(b) => b,
                                Err(e) => {
                                    proof {
                                        lemma_env_preserved_trans(*old(env), mid1, *env);
                                    }
                                    return Err(e);
                                }
                            };
                            let ghost before_call = *env;
                            env.push_frame(bindings);
                            let ghost pushed = *env;
                            let body_result = eval(&lambda.body, env, host, fuel - 1);
                            let ghost after_body = *env;
                            proof {
                                assert(env.frames@.len() == pushed.frames@.len());
                            }
                            env.pop_frame();
                            proof {
                                assert forall|k: int|
                                    0 <= k < before_call.frames@.len() implies (
                                #[trigger] env.frames@[k].outer) == before_call.frames@[k].outer by {
                                    assert(pushed.frames@[k] == before_call.frames@[k]);
                                    assert(after_body.frames@[k].outer == pushed.frames@[k].outer);
                                    assert(env.frames@[k] == after_body.frames@[k]);
                                }
                                assert forall|k: int|
                                    0 <= k < before_call.frames@.len() implies (
                                #[trigger] env.frame_map(k)) == before_call.frame_map(k) by {
                                    assert(pushed.frames@[k] == before_call.frames@[k]);
                                    assert(after_body.frame_map(k) == pushed.frame_map(k));
                                    assert(env.frames@[k] == after_body.frames@[k]);
                                }
                                assert(env_preserved(before_call, *env));
                                lemma_env_preserved_trans(*old(env), mid1, before_call);
                                lemma_env_preserved_trans(*old(env), before_call, *env);
                            }
                            body_result
                        }
                        other => Err(
                            LanaErr::Reason(
                                "First form must be a function, got ".to_owned().concat(
                                    other.enum_name().as_str(),
                                ),
                            ),
                        ),
                    }
                }
            }
        }
        LanaExpr::Func(_) => Err(LanaErr::Reason("Unexpected function".to_owned())),
        LanaExpr::Lambda(_) => Err(LanaErr::Reason("Unexpected lambda".to_owned())),
    }
}

/// Evaluate every argument form, left to right, in the current environment.
fn eval_exprs<F: Fn(&NativeFn, &Vec<LanaExpr>) -> Result<LanaExpr, LanaErr>>(
    args: &Vec<LanaExpr>,
    env: &mut LanaEnv,
    host: &F,
    fuel: u64,
) -> (r: Result<Vec<LanaExpr>, LanaErr>)
    requires
        old(env).wf(),
        forall|a: (&NativeFn, &Vec<LanaExpr>)| #[trigger] call_requires(*host, a),
    ensures
        final(env).wf(),
        env_preserved(*old(env), *final(env)),
        (r is Ok ==> r->Ok_0@.len() == args@.len()),
        (args@.len() > 0 && fuel == 0 ==> (r is Err && r->Err_0@ == spec_depth_err())),
        (r is Ok ==> forall|j: int|
            0 <= j < args@.len() ==> (self_evaluating(#[trigger] args@[j]@) ==> r->Ok_0@[j]@
                == args@[j]@)),
        (fuel > 0 ==> match atoms_eval(
            *old(env),
            old(env).frame_map(old(env).active()),
            spec_exprs_of(*args, 0),
            0,
        ) {
            Some(whole) => match whole {
                Ok(vs) => r is Ok && r->Ok_0@.len() == args@.len() && (forall|j: int|
                    0 <= j < args@.len() ==> (#[trigger] r->Ok_0@[j]@) == vs[j]) && *final(env)
                    == *old(env),
                Err(e) => r is Err && r->Err_0@ == e && *final(env) == *old(env),
            },
            None => true,
        }),
    decreases fuel, 0int,
{
    if args.len() > 0 && fuel == 0 {
        return Err(depth_err());
    }
    let ghost env0 = *old(env);
    let ghost am0 = old(env).frame_map(old(env).active());
    let ghost elems = spec_exprs_of(*args, 0);
    proof {
        lemma_spec_exprs_of(*args, 0);
        lemma_atoms_eval_len(env0, am0, elems, 0);
    }
    let mut out: Vec<LanaExpr> = Vec::new();
    let mut i: usize = 0;
    while i < args.len()
        invariant
            env.wf(),
            env_preserved(*old(env), *env),
            env0 == *old(env),
            am0 == old(env).frame_map(old(env).active()),
            elems == spec_exprs_of(*args, 0),
            elems.len() == args@.len(),
            forall|j: int| 0 <= j < args@.len() ==> elems[j] == (#[trigger] args@[j])@,
            fuel > 0 || args@.len() == 0,
            i <= args@.len(),
            out@.len() == i,
            forall|j: int|
                0 <= j < i ==> (self_evaluating(#[trigger] args@[j]@) ==> out@[j]@ == args@[j]@),
            (match atoms_eval(env0, am0, elems, 0) {
                Some(whole) => *env == env0 && (match atoms_eval(env0, am0, elems, i as int) {
                    Some(rest) => match whole {
                        Ok(vs) => match rest {
                            Ok(rv) => vs.len() == elems.len() && rv.len() == elems.len() - i && (
                            forall|j: int| 0 <= j < i ==> (#[trigger] out@[j]@) == vs[j]) && (
                            forall|j: int| i <= j < elems.len() ==> (#[trigger] vs[j]) == rv[j - i]),
                            Err(_) => false,
                        },
                        Err(e) => rest == Err::<Seq<SpecExpr>, SpecErr>(e),
                    },
                    None => false,
                }),
                None => true,
            }),
            forall|a: (&NativeFn, &Vec<LanaExpr>)| #[trigger] call_requires(*host, a),
        decreases args@.len() - i,
    {
        let ghost before = *env;
        proof {
            lemma_view_variants(args@[i as int]);
            match args@[i as int]@ {
                SpecExpr::Symbol(name) => {
                    lemma_chain_is_lookup(before, name);
                }
                _ => {}
            }
        }
        match eval(&args[i], env, host, fuel - 1) {
            Ok(v) => {
                out.push(v);
            }
            Err(e) => {
                proof {
                    lemma_env_preserved_trans(*old(env), before, *env);
                }
                return Err(e);
            }
        }
        proof {
            lemma_env_preserved_trans(*old(env), before, *env);
        }
        i = i + 1;
    }
    Ok(out)
}

/// The parameter names of a lambda: the parameter list must be a list of
/// symbols, one name per parameter.
fn parse_list_of_symbol_strings(expr: &LanaExpr) -> (r: Result<Vec<String>, LanaErr>)
    ensures
        (match r {
            Ok(names) => expr@ is List && symbol_texts(expr@->List_0) == Some(
                names@.map_values(|s: String| s@),
            ),
            Err(er) => if expr@ is List {
                symbol_texts(expr@->List_0) is None && er@ == SpecErr::Reason(
                    "Expected symbols in lambda argument list"@,
                )
            } else {
                er@ == SpecErr::Reason("Expected lambda args to be a list"@)
            },
        }),
{
    match expr {
        LanaExpr::List(v) => {
            proof {
                lemma_spec_exprs_of(*v, 0);
            }
            let ghost elems = expr@->List_0;
            let mut names: Vec<String> = Vec::new();
            let mut i: usize = 0;
            proof {
                assert(names@.map_values(|s: String| s@) =~= Seq::<Seq<char>>::empty());
            }
            while i < v.len()
                invariant
                    i <= v@.len(),
                    expr@ is List,
                    elems == expr@->List_0,
                    elems.len() == v@.len(),
                    forall|j: int| 0 <= j < v@.len() ==> elems[j] == (#[trigger] v@[j])@,
                    names@.len() == i,
                    ({
                        match symbol_texts_from(elems, i as int) {
                            Some(rest) => symbol_texts(elems) == Some(
                                names@.map_values(|s: String| s@) + rest,
                            ),
                            None => symbol_texts(elems) is None,
                        }
                    }),
                decreases v@.len() - i,
            {
                match &v[i] {
                    LanaExpr::Symbol(s) => {
                        let ghost before = names@.map_values(|s: String| s@);
                        names.push(s.clone());
                        proof {
                            assert(names@.map_values(|s: String| s@) =~= before.push(s@));
                            match symbol_texts_from(elems, i + 1) {
                                Some(rest) => {
                                    assert(before + (seq![s@] + rest) =~= before.push(s@) + rest);
                                }
                                None => {}
                            }
                        }
                    }
                    _ => {
                        return Err(
                            LanaErr::Reason("Expected symbols in lambda argument list".to_owned()),
                        );
                    }
                }
                i = i + 1;
            }
            proof {
                assert(names@.map_values(|s: String| s@) + Seq::<Seq<char>>::empty()
                    =~= names@.map_values(|s: String| s@));
            }
            Ok(names)
        }
        _ => Err(LanaErr::Reason("Expected lambda args to be a list".to_owned())),
    }
}

/// The bindings of a lambda invocation: parameter names zipped with the
/// evaluated arguments.  The argument count must match the parameter count
/// exactly.
fn env_for_lambda<F: Fn(&NativeFn, &Vec<LanaExpr>) -> Result<LanaExpr, LanaErr>>(
    params: &LanaExpr,
    args: &Vec<LanaExpr>,
    env: &mut LanaEnv,
    host: &F,
    fuel: u64,
) -> (r: Result<Vec<(String, LanaExpr)>, LanaErr>)
    requires
        old(env).wf(),
        forall|a: (&NativeFn, &Vec<LanaExpr>)| #[trigger] call_requires(*host, a),
    ensures
        final(env).wf(),
        env_preserved(*old(env), *final(env)),
        (!(params@ is List) ==> (r is Err && r->Err_0@ == SpecErr::Reason(
            "Expected lambda args to be a list"@,
        ) && *final(env) == *old(env))),
        (params@ is List ==> match symbol_texts(params@->List_0) {
            None => r is Err && r->Err_0@ == SpecErr::Reason(
                "Expected symbols in lambda argument list"@,
            ) && *final(env) == *old(env),
            Some(names) => if names.len() != args@.len() {
                r is Err && r->Err_0@ == SpecErr::Reason(
                    "Expected "@ + spec_digits(names.len()) + " argument(s), got "@ + spec_digits(
                        args@.len(),
                    ),
                ) && *final(env) == *old(env)
            } else {
                r is Ok ==> (r->Ok_0@.len() == args@.len() && (forall|j: int|
                    0 <= j < args@.len() ==> (#[trigger] r->Ok_0@[j].0@) == names[j]))
            },
        }),
        (r is Ok ==> params@ is List && symbol_texts(params@->List_0) is Some),
        (params@ is List ==> (symbol_texts(params@->List_0) matches Some(names) ==> (names.len()
            == args@.len() && fuel > 0 ==> match atoms_eval(
            *old(env),
            old(env).frame_map(old(env).active()),
            spec_exprs_of(*args, 0),
            0,
        ) {
            Some(whole) => match whole {
                Ok(vs) => r is Ok && r->Ok_0@.len() == args@.len() && (forall|j: int|
                    0 <= j < args@.len() ==> (#[trigger] r->Ok_0@[j].1@) == vs[j]) && *final(env)
                    == *old(env),
                Err(e) => r is Err && r->Err_0@ == e && *final(env) == *old(env),
            },
            None => true,
        }))),
    decreases fuel, 1int,
{
    let symbols = match parse_list_of_symbol_strings(params) {
        Ok(s) => s,
        Err(e) => {
            return Err(e);
        }
    };
    if symbols.len() != args.len() {
        return Err(
            LanaErr::Reason(
                "Expected ".to_owned().concat(usize_to_string(symbols.len()).as_str()).concat(
                    " argument(s), got ",
                ).concat(usize_to_string(args.len()).as_str()),
            ),
        );
    }
    let vs = match eval_exprs(args, env, host, fuel) {
        Ok(v) => v,
        Err(e) => {
            return Err(e);
        }
    };
    let mut data: Vec<(String, LanaExpr)> = Vec::new();
    let mut k: usize = 0;
    while k < symbols.len()
        invariant
            k <= symbols@.len(),
            vs@.len() == symbols@.len(),
            data@.len() == k,
            forall|j: int| 0 <= j < k ==> (#[trigger] data@[j].0@) == symbols@[j]@,
            forall|j: int| 0 <= j < k ==> (#[trigger] data@[j].1@) == vs@[j]@,
        decreases symbols@.len() - k,
    {
        data.push((symbols[k].clone(), vs[k].duplicate()));
        k = k + 1;
    }
    Ok(data)
}

/// The special forms, consulted on the unevaluated head of a list.  `None`
/// means the head is no special form and ordinary application applies.
fn eval_built_in_form<F: Fn(&NativeFn, &Vec<LanaExpr>) -> Result<LanaExpr, LanaErr>>(
    expr: &LanaExpr,
    args: &Vec<LanaExpr>,
    env: &mut LanaEnv,
    host: &F,
    fuel: u64,
) -> (r: Option<Result<LanaExpr, LanaErr>>)
    requires
        old(env).wf(),
        forall|a: (&NativeFn, &Vec<LanaExpr>)| #[trigger] call_requires(*host, a),
    ensures
        final(env).wf(),
        env_preserved(*old(env), *final(env)),
        (r is None <==> !(expr@ matches SpecExpr::Symbol(s) && is_special(s))),
        (r is None ==> *final(env) == *old(env)),
        (expr@ == SpecExpr::Symbol("do"@) && args@.len() == 0 ==> match r {
            Some(out) => out is Ok && out->Ok_0@ == SpecExpr::Nil,
            None => false,
        }),
        (expr@ == SpecExpr::Symbol("do"@) ==> match r {
            Some(out) => args@.len() > 0 && fuel > 1 ==> (match settle_seq(
                *old(env),
                old(env).frame_map(old(env).active()),
                spec_exprs_of(*args, 0),
                0,
            ) {
                Some(p) => result_matches(out, p.0) && final(env).frames@.len() == old(env).frames@.len() && final(env).frame_map(final(env).active()) == p.1,
                None => true,
            }),
            None => false,
        }),
        (expr@ == SpecExpr::Symbol("fn"@) ==> match r {
            Some(out) => match out {
                Ok(v) => spec_lambda_args(spec_exprs_of(*args, 0)) == Ok::<SpecExpr, SpecErr>(v@),
                Err(er) => spec_lambda_args(spec_exprs_of(*args, 0)) == Err::<SpecExpr, SpecErr>(
                    er@,
                ),
            },
            None => false,
        }),
        (expr@ == SpecExpr::Symbol("def"@) ==> match r {
            Some(out) => (out is Ok ==> (args@.len() == 2 && args@[0]@ is Symbol && final(env).frame_map(final(env).active()).contains_key(args@[0]@->Symbol_0) && final(env).frame_map(final(env).active())[args@[0]@->Symbol_0] == out->Ok_0@)) && (args@.len()
                == 2 && args@[0]@ is Symbol && fuel > 0 ==> (match settle_atom(
                *old(env),
                old(env).frame_map(old(env).active()),
                args@[1]@,
            ) {
                Some(o2) => match o2 {
                    Ok(v) => out is Ok && out->Ok_0@ == v && final(env).frames@.len() == old(env).frames@.len() && final(env).frame_map(final(env).active()) == old(env).frame_map(old(env).active()).insert(args@[0]@->Symbol_0, v),
                    Err(e) => out is Err && out->Err_0@ == e && *final(env) == *old(env),
                },
                None => true,
            })),
            None => false,
        }),
        (expr@ == SpecExpr::Symbol("defn"@) ==> match r {
            Some(out) => out is Ok ==> (args@.len() > 0 && args@[0]@ is Symbol && out->Ok_0@
                is Lambda && final(env).frame_map(final(env).active()).contains_key(
                args@[0]@->Symbol_0,
            ) && final(env).frame_map(final(env).active())[args@[0]@->Symbol_0] == out->Ok_0@),
            None => false,
        }),
        (expr@ == SpecExpr::Symbol("defn"@) ==> match r {
            Some(out) => args@.len() > 0 && args@[0]@ is Symbol ==> (match spec_lambda_args(
                spec_exprs_of(*args, 1),
            ) {
                Ok(lam) => out is Ok && out->Ok_0@ == lam && final(env).frames@.len() == old(env).frames@.len() && final(env).frame_map(final(env).active()) == old(env).frame_map(
                    old(env).active(),
                ).insert(args@[0]@->Symbol_0, lam),
                Err(e) => out is Err && out->Err_0@ == e && *final(env) == *old(env),
            }),
            None => false,
        }),
        (expr@ == SpecExpr::Symbol("if"@) ==> match r {
            Some(out) => (args@.len() == 0 ==> out is Err && out->Err_0@ == SpecErr::Reason(
                "Expected if condition"@,
            )) && (args@.len() > 3 ==> out is Err && out->Err_0@ == SpecErr::Reason(
                "Expected 2-3 arguments, got "@ + spec_digits(args@.len()),
            )) && (1 <= args@.len() <= 3 && fuel > 1 ==> (match settle(
                *old(env),
                old(env).frame_map(old(env).active()),
                args@[0]@,
            ) {
                Some(p1) => match p1.0 {
                    Err(e) => out is Err && out->Err_0@ == e && final(env).frames@.len()
                        == old(env).frames@.len() && final(env).frame_map(final(env).active())
                        == p1.1,
                    Ok(c) => {
                        let sel: int = if spec_falsy(c) {
                            2
                        } else {
                            1
                        };
                        if sel < args@.len() {
                            match settle(*old(env), p1.1, args@[sel]@) {
                                Some(p2) => result_matches(out, p2.0) && final(env).frames@.len()
                                    == old(env).frames@.len() && final(env).frame_map(
                                    final(env).active(),
                                ) == p2.1,
                                None => true,
                            }
                        } else {
                            out is Err && out->Err_0@ == SpecErr::Reason(
                                if spec_falsy(c) {
                                    "Expected if's else branch"@
                                } else {
                                    "Expected if's then branch"@
                                },
                            ) && final(env).frames@.len() == old(env).frames@.len() && final(env).frame_map(final(env).active()) == p1.1
                        }
                    }
                },
                None => true,
            })),
            None => false,
        }),
    decreases fuel, 1int,
{
    proof {
        reveal_strlit("if");
        reveal_strlit("def");
        reveal_strlit("fn");
        reveal_strlit("defn");
        reveal_strlit("do");
        assert("if"@[0] == 'i' && "do"@[0] == 'd' && "fn"@[0] == 'f' && "def"@[0] == 'd');
        assert("if"@.len() == 2 && "fn"@.len() == 2 && "def"@.len() == 3 && "do"@.len() == 2
            && "defn"@.len() == 4);
        assert("if"@ != "do"@ && "def"@ != "do"@ && "fn"@ != "do"@ && "defn"@ != "do"@);
        assert("if"@ != "def"@ && "if"@ != "fn"@ && "if"@ != "defn"@);
        assert("def"@ != "fn"@ && "def"@ != "defn"@ && "fn"@ != "defn"@);
    }
    match expr {
        LanaExpr::Symbol(s) => {
            if str_content_eq(s.as_str(), "if") {
                Some(eval_if_args(args, env, host, fuel))
            } else if str_content_eq(s.as_str(), "def") {
                Some(eval_def_args(args, env, host, fuel))
            } else if str_content_eq(s.as_str(), "fn") {
                Some(eval_lambda_args(args))
            } else if str_content_eq(s.as_str(), "defn") {
                Some(eval_defn_args(args, env, host, fuel))
            } else if str_content_eq(s.as_str(), "do") {
                Some(eval_do_args(args, env, host, fuel))
            } else {
                None
            }
        }
        _ => None,
    }
}

/// `(if cond then [else])`: nil and false select the third form, everything
/// else the second; a missing branch is an error only when selected.
fn eval_if_args<F: Fn(&NativeFn, &Vec<LanaExpr>) -> Result<LanaExpr, LanaErr>>(
    args: &Vec<LanaExpr>,
    env: &mut LanaEnv,
    host: &F,
    fuel: u64,
) -> (r: Result<LanaExpr, LanaErr>)
    requires
        old(env).wf(),
        forall|a: (&NativeFn, &Vec<LanaExpr>)| #[trigger] call_requires(*host, a),
    ensures
        final(env).wf(),
        env_preserved(*old(env), *final(env)),
        (args@.len() == 0 ==> (r is Err && r->Err_0@ == SpecErr::Reason(
            "Expected if condition"@,
        ) && *final(env) == *old(env))),
        (args@.len() > 3 ==> (r is Err && r->Err_0@ == SpecErr::Reason(
            "Expected 2-3 arguments, got "@ + spec_digits(args@.len()),
        ) && *final(env) == *old(env))),
        (1 <= args@.len() <= 3 && fuel == 0 ==> (r is Err && r->Err_0@ == spec_depth_err()
            && *final(env) == *old(env))),
        (1 <= args@.len() <= 3 && fuel > 1 ==> match settle(
            *old(env),
            old(env).frame_map(old(env).active()),
            args@[0]@,
        ) {
            Some(p1) => match p1.0 {
                Err(e) => r is Err && r->Err_0@ == e && final(env).frames@.len()
                    == old(env).frames@.len() && final(env).frame_map(final(env).active())
                    == p1.1,
                Ok(c) => {
                    let sel: int = if spec_falsy(c) {
                        2
                    } else {
                        1
                    };
                    if sel < args@.len() {
                        match settle(*old(env), p1.1, args@[sel]@) {
                            Some(p2) => result_matches(r, p2.0) && final(env).frames@.len()
                                == old(env).frames@.len() && final(env).frame_map(
                                final(env).active(),
                            ) == p2.1,
                            None => true,
                        }
                    } else {
                        r is Err && r->Err_0@ == SpecErr::Reason(
                            if spec_falsy(c) {
                                "Expected if's else branch"@
                            } else {
                                "Expected if's then branch"@
                            },
                        ) && final(env).frames@.len() == old(env).frames@.len() && final(env).frame_map(final(env).active()) == p1.1
                    }
                }
            },
            None => true,
        }),
    decreases fuel, 0int,
{
    if args.len() == 0 {
        return Err(LanaErr::Reason("Expected if condition".to_owned()));
    }
    if args.len() > 3 {
        return Err(
            LanaErr::Reason(
                "Expected 2-3 arguments, got ".to_owned().concat(
                    usize_to_string(args.len()).as_str(),
                ),
            ),
        );
    }
    if fuel == 0 {
        return Err(depth_err());
    }
    let ghost env0 = *old(env);
    let condition = match eval(&args[0], env, host, fuel - 1) {
        Ok(c) => c,
        Err(e) => {
            return Err(e);
        }
    };
    proof {
        lemma_view_variants(condition);
        lemma_view_variants(args@[0]);
    }
    let truthy = match &condition {
        LanaExpr::Bool(false) => false,
        LanaExpr::Nil => false,
        _ => true,
    };
    let branch_index: usize = if truthy {
        1
    } else {
        2
    };
    if branch_index >= args.len() {
        if truthy {
            return Err(LanaErr::Reason("Expected if's then branch".to_owned()));
        } else {
            return Err(LanaErr::Reason("Expected if's else branch".to_owned()));
        }
    }
    let ghost mid = *env;
    proof {
        lemma_settle_preserved(
            env0,
            mid,
            mid.frame_map(mid.active()),
            args@[branch_index as int]@,
        );
    }
    let out = eval(&args[branch_index], env, host, fuel - 1);
    proof {
        lemma_env_preserved_trans(*old(env), mid, *env);
    }
    out
}

/// `(def name expr)`: evaluate the expression and bind the name in the
/// innermost active frame; the bound value is returned.
fn eval_def_args<F: Fn(&NativeFn, &Vec<LanaExpr>) -> Result<LanaExpr, LanaErr>>(
    args: &Vec<LanaExpr>,
    env: &mut LanaEnv,
    host: &F,
    fuel: u64,
) -> (r: Result<LanaExpr, LanaErr>)
    requires
        old(env).wf(),
        forall|a: (&NativeFn, &Vec<LanaExpr>)| #[trigger] call_requires(*host, a),
    ensures
        final(env).wf(),
        env_preserved(*old(env), *final(env)),
        (args@.len() == 0 ==> (r is Err && r->Err_0@ == SpecErr::Reason(
            "Expected variable name"@,
        ) && *final(env) == *old(env))),
        (args@.len() > 0 && !(args@[0]@ is Symbol) ==> (r is Err && r->Err_0@ == SpecErr::Reason(
            "Expected variable name to be a symbol, got "@ + args@[0].spec_enum_name(),
        ) && *final(env) == *old(env))),
        (args@.len() > 2 && args@[0]@ is Symbol ==> (r is Err && r->Err_0@ == SpecErr::Reason(
            "Expected only two arguments in assignment, got "@ + spec_digits(args@.len()),
        ) && *final(env) == *old(env))),
        (args@.len() == 1 && args@[0]@ is Symbol ==> (r is Err && r->Err_0@ == SpecErr::Reason(
            "Expected assignment value"@,
        ) && *final(env) == *old(env))),
        (args@.len() == 2 && args@[0]@ is Symbol && fuel == 0 ==> (r is Err && r->Err_0@
            == spec_depth_err() && *final(env) == *old(env))),
        (r is Ok ==> (args@.len() == 2 && args@[0]@ is Symbol && final(env).frame_map(
            final(env).active(),
        ).contains_key(args@[0]@->Symbol_0) && final(env).frame_map(final(env).active())[args@[0]@
            ->Symbol_0] == r->Ok_0@)),
        (args@.len() == 2 && args@[0]@ is Symbol && fuel > 0 ==> match settle_atom(
            *old(env),
            old(env).frame_map(old(env).active()),
            args@[1]@,
        ) {
            Some(out) => match out {
                Ok(v) => r is Ok && r->Ok_0@ == v && final(env).frames@.len()
                    == old(env).frames@.len() && final(env).frame_map(final(env).active()) == old(env).frame_map(old(env).active()).insert(args@[0]@->Symbol_0, v),
                Err(e) => r is Err && r->Err_0@ == e && *final(env) == *old(env),
            },
            None => true,
        }),
    decreases fuel, 0int,
{
    if args.len() == 0 {
        return Err(LanaErr::Reason("Expected variable name".to_owned()));
    }
    let var_name = match &args[0] {
        LanaExpr::Symbol(name) => name.clone(),
        other => {
            return Err(
                LanaErr::Reason(
                    "Expected variable name to be a symbol, got ".to_owned().concat(
                        other.enum_name().as_str(),
                    ),
                ),
            );
        }
    };
    if args.len() > 2 {
        return Err(
            LanaErr::Reason(
                "Expected only two arguments in assignment, got ".to_owned().concat(
                    usize_to_string(args.len()).as_str(),
                ),
            ),
        );
    }
    if args.len() == 1 {
        return Err(LanaErr::Reason("Expected assignment value".to_owned()));
    }
    if fuel == 0 {
        return Err(depth_err());
    }
    proof {
        match args@[1]@ {
            SpecExpr::Symbol(name) => {
                lemma_chain_is_lookup(*old(env), name);
            }
            _ => {}
        }
    }
    let value = match eval(&args[1], env, host, fuel - 1) {
        Ok(v) => v,
        Err(e) => {
            return Err(e);
        }
    };
    let ghost mid = *env;
    let result = value.duplicate();
    env.insert(var_name, value);
    proof {
        assert(env_preserved(mid, *env));
        lemma_env_preserved_trans(*old(env), mid, *env);
    }
    Ok(result)
}

/// What `(fn params body)` yields for the given argument forms: both forms
/// captured verbatim, with the exact arity errors.
pub open spec fn spec_lambda_args(args: Seq<SpecExpr>) -> Result<SpecExpr, SpecErr> {
    if args.len() == 0 {
        Err(SpecErr::Reason("Expected lambda args and body"@))
    } else if args.len() == 1 {
        Err(SpecErr::Reason("Expected lambda body"@))
    } else if args.len() > 2 {
        Err(SpecErr::Reason("Lambdas definition takes only 2 arguments (args and body)"@))
    } else {
        Ok(SpecExpr::Lambda(Box::new(args[0]), Box::new(args[1])))
    }
}

/// `(fn params body)`: capture both forms, unevaluated, as a lambda value.
fn eval_lambda_args(args: &Vec<LanaExpr>) -> (r: Result<LanaExpr, LanaErr>)
    ensures
        (match r {
            Ok(v) => spec_lambda_args(spec_exprs_of(*args, 0)) == Ok::<SpecExpr, SpecErr>(v@),
            Err(er) => spec_lambda_args(spec_exprs_of(*args, 0)) == Err::<SpecExpr, SpecErr>(er@),
        }),
{
    proof {
        lemma_spec_exprs_of(*args, 0);
    }
    if args.len() == 0 {
        return Err(LanaErr::Reason("Expected lambda args and body".to_owned()));
    }
    if args.len() == 1 {
        return Err(LanaErr::Reason("Expected lambda body".to_owned()));
    }
    if args.len() > 2 {
        return Err(
            LanaErr::Reason("Lambdas definition takes only 2 arguments (args and body)".to_owned()),
        );
    }
    Ok(
        LanaExpr::Lambda(
            LanaLambda {
                params: Box::new(args[0].duplicate()),
                body: Box::new(args[1].duplicate()),
            },
        ),
    )
}

/// `(defn name params body)`: build the lambda as `fn` would, then bind it
/// to the name as `def` would; the lambda is returned.
fn eval_defn_args<F: Fn(&NativeFn, &Vec<LanaExpr>) -> Result<LanaExpr, LanaErr>>(
    args: &Vec<LanaExpr>,
    env: &mut LanaEnv,
    host: &F,
    fuel: u64,
) -> (r: Result<LanaExpr, LanaErr>)
    requires
        old(env).wf(),
        forall|a: (&NativeFn, &Vec<LanaExpr>)| #[trigger] call_requires(*host, a),
    ensures
        final(env).wf(),
        env_preserved(*old(env), *final(env)),
        (args@.len() == 0 ==> (r is Err && r->Err_0@ == SpecErr::Reason("Expected lambda name"@)
            && *final(env) == *old(env))),
        (args@.len() > 0 && !(args@[0]@ is Symbol) ==> (r is Err && r->Err_0@ == SpecErr::Reason(
            "Expected variable name to be a symbol, got "@ + args@[0].spec_enum_name(),
        ) && *final(env) == *old(env))),
        (args@.len() > 0 && args@[0]@ is Symbol ==> match spec_lambda_args(
            spec_exprs_of(*args, 1),
        ) {
            Ok(lam) => r is Ok && r->Ok_0@ == lam && final(env).frames@.len()
                == old(env).frames@.len() && final(env).frame_map(final(env).active()) == old(env).frame_map(old(env).active()).insert(args@[0]@->Symbol_0, lam),
            Err(e) => r is Err && r->Err_0@ == e && *final(env) == *old(env),
        }),
        (r is Ok ==> (args@.len() > 0 && args@[0]@ is Symbol && r->Ok_0@ is Lambda && final(env).frame_map(final(env).active()).contains_key(args@[0]@->Symbol_0) && final(env).frame_map(
            final(env).active(),
        )[args@[0]@->Symbol_0] == r->Ok_0@)),
    decreases fuel, 0int,
{
    if args.len() == 0 {
        return Err(LanaErr::Reason("Expected lambda name".to_owned()));
    }
    let var_name = match &args[0] {
        LanaExpr::Symbol(name) => name.clone(),
        other => {
            return Err(
                LanaErr::Reason(
                    "Expected variable name to be a symbol, got ".to_owned().concat(
                        other.enum_name().as_str(),
                    ),
                ),
            );
        }
    };
    let lambda_args = tail_duplicate(args, 1);
    proof {
        lemma_spec_exprs_of(lambda_args, 0);
        lemma_spec_exprs_of(*args, 1);
        assert forall|j: int|
            0 <= j < lambda_args@.len() implies spec_exprs_of(lambda_args, 0)[j] == spec_exprs_of(
            *args,
            1,
        )[j] by {
            assert(lambda_args[j] == lambda_args@[j]);
            assert((*args)[1 + j] == args@[1 + j]);
            assert(lambda_args@[j]@ == args@[1 + j]@);
        }
        assert(spec_exprs_of(lambda_args, 0) =~= spec_exprs_of(*args, 1));
    }
    let lambda = match eval_lambda_args(&lambda_args) {
        Ok(l) => l,
        Err(e) => {
            return Err(e);
        }
    };
    let result = lambda.duplicate();
    env.insert(var_name, lambda);
    Ok(result)
}

/// `(do expr...)`: evaluate each form in sequence in the current scope and
/// return the last value, or nil when no forms were given.
fn eval_do_args<F: Fn(&NativeFn, &Vec<LanaExpr>) -> Result<LanaExpr, LanaErr>>(
    args: &Vec<LanaExpr>,
    env: &mut LanaEnv,
    host: &F,
    fuel: u64,
) -> (r: Result<LanaExpr, LanaErr>)
    requires
        old(env).wf(),
        forall|a: (&NativeFn, &Vec<LanaExpr>)| #[trigger] call_requires(*host, a),
    ensures
        final(env).wf(),
        env_preserved(*old(env), *final(env)),
        (args@.len() == 0 ==> (r is Ok && r->Ok_0@ == SpecExpr::Nil && *final(env) == *old(env))),
        (args@.len() > 0 && fuel > 1 ==> match settle_seq(
            *old(env),
            old(env).frame_map(old(env).active()),
            spec_exprs_of(*args, 0),
            0,
        ) {
            Some(p) => result_matches(r, p.0) && final(env).frames@.len()
                == old(env).frames@.len() && final(env).frame_map(final(env).active()) == p.1,
            None => true,
        }),
    decreases fuel, 0int,
{
    if args.len() == 0 {
        return Ok(LanaExpr::Nil);
    }
    if fuel == 0 {
        return Err(depth_err());
    }
    let ghost env0 = *old(env);
    let ghost am0 = old(env).frame_map(old(env).active());
    let ghost elems = spec_exprs_of(*args, 0);
    proof {
        lemma_spec_exprs_of(*args, 0);
    }
    let mut result = LanaExpr::Number(0);
    let mut i: usize = 0;
    while i < args.len()
        invariant
            env.wf(),
            env_preserved(*old(env), *env),
            env0 == *old(env),
            am0 == old(env).frame_map(old(env).active()),
            elems == spec_exprs_of(*args, 0),
            elems.len() == args@.len(),
            args@.len() > 0,
            forall|j: int| 0 <= j < args@.len() ==> elems[j] == (#[trigger] args@[j])@,
            fuel > 0,
            i <= args@.len(),
            (fuel > 1 ==> match settle_seq(env0, am0, elems, 0) {
                Some(whole) => env.frames@.len() == env0.frames@.len() && (if i < elems.len() {
                    settle_seq(env0, env.frame_map(env.active()), elems, i as int) == Some(whole)
                } else {
                    whole.0 is Ok && result@ == whole.0->Ok_0 && env.frame_map(env.active())
                        == whole.1
                }),
                None => true,
            }),
            forall|a: (&NativeFn, &Vec<LanaExpr>)| #[trigger] call_requires(*host, a),
        decreases args@.len() - i,
    {
        let ghost before = *env;
        proof {
            lemma_settle_preserved(env0, before, before.frame_map(before.active()), elems[i as int]);
        }
        match eval(&args[i], env, host, fuel - 1) {
            Ok(v) => {
                result = v;
            }
            Err(e) => {
                proof {
                    lemma_env_preserved_trans(*old(env), before, *env);
                }
                return Err(e);
            }
        }
        proof {
            lemma_env_preserved_trans(*old(env), before, *env);
        }
        i = i + 1;
    }
    Ok(result)
}

} // verus!
