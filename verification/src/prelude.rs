use vstd::prelude::*;

use crate::interpreter::lana_env::entries_map;
use crate::lana_err::{LanaErr, SpecErr};
use crate::lana_expr::{LanaExpr, NativeFn, SpecExpr};
use crate::text::{spec_digits, usize_to_string};
use vstd::string::StringExecFns;

verus! {

/// The bindings of the root environment: every builtin under its surface
/// name.
pub open spec fn spec_prelude() -> Map<Seq<char>, SpecExpr> {
    Map::<Seq<char>, SpecExpr>::empty().insert("+"@, SpecExpr::Func(NativeFn::Add)).insert(
        "-"@,
        SpecExpr::Func(NativeFn::Sub),
    ).insert("*"@, SpecExpr::Func(NativeFn::Mul)).insert("/"@, SpecExpr::Func(NativeFn::Div)).insert(
        "="@,
        SpecExpr::Func(NativeFn::NumEq),
    ).insert(">"@, SpecExpr::Func(NativeFn::Gt)).insert(">="@, SpecExpr::Func(NativeFn::Ge)).insert(
        "<"@,
        SpecExpr::Func(NativeFn::Lt),
    ).insert("<="@, SpecExpr::Func(NativeFn::Le)).insert(
        "println"@,
        SpecExpr::Func(NativeFn::Println),
    ).insert("print"@, SpecExpr::Func(NativeFn::Print)).insert(
        "gets"@,
        SpecExpr::Func(NativeFn::Gets),
    ).insert("sleep"@, SpecExpr::Func(NativeFn::Sleep))
}

/// The root bindings, in insertion order.
pub fn prelude() -> (r: Vec<(String, LanaExpr)>)
    ensures
        entries_map(r@) == spec_prelude(),
{
    let mut v: Vec<(String, LanaExpr)> = Vec::new();
    v.push(("+".to_owned(), LanaExpr::Func(NativeFn::Add)));
    v.push(("-".to_owned(), LanaExpr::Func(NativeFn::Sub)));
    v.push(("*".to_owned(), LanaExpr::Func(NativeFn::Mul)));
    v.push(("/".to_owned(), LanaExpr::Func(NativeFn::Div)));
    v.push(("=".to_owned(), LanaExpr::Func(NativeFn::NumEq)));
    v.push((">".to_owned(), LanaExpr::Func(NativeFn::Gt)));
    v.push((">=".to_owned(), LanaExpr::Func(NativeFn::Ge)));
    v.push(("<".to_owned(), LanaExpr::Func(NativeFn::Lt)));
    v.push(("<=".to_owned(), LanaExpr::Func(NativeFn::Le)));
    v.push(("println".to_owned(), LanaExpr::Func(NativeFn::Println)));
    v.push(("print".to_owned(), LanaExpr::Func(NativeFn::Print)));
    v.push(("gets".to_owned(), LanaExpr::Func(NativeFn::Gets)));
    v.push(("sleep".to_owned(), LanaExpr::Func(NativeFn::Sleep)));
    proof {
        reveal_with_fuel(entries_map, 15);
        assert(entries_map(v@) =~= spec_prelude());
    }
    v
}

/// The index of the first argument that is not a number, or the length if
/// all are numbers.
pub open spec fn first_non_number(v: Seq<LanaExpr>, i: int) -> int
    decreases v.len() - i when 0 <= i <= v.len()
{
    if i >= v.len() {
        v.len() as int
    } else if v[i]@ is Number {
        first_non_number(v, i + 1)
    } else {
        i
    }
}

/// The numeric payload of one argument; anything but a number is a type
/// mismatch.
pub fn parse_single_number(expr: &LanaExpr) -> (r: Result<u64, LanaErr>)
    ensures
        (match r {
            Ok(b) => expr@ == SpecExpr::Number(b),
            Err(er) => !(expr@ is Number) && er@ == SpecErr::Reason(
                "Expected a number, got "@ + expr.spec_enum_name(),
            ),
        }),
{
    match expr {
        LanaExpr::Number(n) => Ok(*n),
        other => Err(
            LanaErr::Reason(
                "Expected a number, got ".to_owned().concat(other.enum_name().as_str()),
            ),
        ),
    }
}

/// The numeric payloads of all arguments, in order; the first argument that
/// is not a number is the error, as [`parse_single_number`] words it.
pub fn parse_list_of_numbers(args: &Vec<LanaExpr>) -> (r: Result<Vec<u64>, LanaErr>)
    ensures
        (match r {
            Ok(nums) => first_non_number(args@, 0) == args@.len() && nums@.len() == args@.len()
                && (forall|j: int|
                0 <= j < args@.len() ==> args@[j]@ == SpecExpr::Number(#[trigger] nums@[j])),
            Err(er) => ({
                let k = first_non_number(args@, 0);
                k < args@.len() && er@ == SpecErr::Reason(
                    "Expected a number, got "@ + args@[k].spec_enum_name(),
                )
            }),
        }),
{
    let mut nums: Vec<u64> = Vec::new();
    let mut i: usize = 0;
    while i < args.len()
        invariant
            i <= args@.len(),
            nums@.len() == i,
            first_non_number(args@, 0) == first_non_number(args@, i as int),
            forall|j: int| 0 <= j < i ==> args@[j]@ == SpecExpr::Number(#[trigger] nums@[j]),
        decreases args@.len() - i,
    {
        match parse_single_number(&args[i]) {
            Ok(b) => {
                nums.push(b);
            }
            Err(e) => {
                return Err(e);
            }
        }
        i = i + 1;
    }
    Ok(nums)
}

/// The first number of a fold that needs one (`-` and `/` subtract and
/// divide from their first argument).
pub fn require_first(nums: &Vec<u64>) -> (r: Result<u64, LanaErr>)
    ensures
        (nums@.len() == 0 ==> (r is Err && r->Err_0@ == SpecErr::Reason(
            "Expected at least one number"@,
        ))),
        (nums@.len() > 0 ==> (r is Ok && r->Ok_0 == nums@[0])),
{
    if nums.len() == 0 {
        Err(LanaErr::Reason("Expected at least one number".to_owned()))
    } else {
        Ok(nums[0])
    }
}

/// The n-ary comparison chain of `= > >= < <=`: given the verdict of the
/// binary relation on each consecutive pair of the numbers, the chain holds
/// exactly when every verdict is true — with one number it holds trivially,
/// and with none the builtin rejects the call.
pub fn tonicity_check(nums: &Vec<u64>, pair_ok: &Vec<bool>) -> (r: Result<LanaExpr, LanaErr>)
    requires
        nums@.len() > 0 ==> pair_ok@.len() == nums@.len() - 1,
    ensures
        (nums@.len() == 0 ==> (r is Err && r->Err_0@ == SpecErr::Reason(
            "Expected at least one number"@,
        ))),
        (nums@.len() > 0 ==> (r is Ok && r->Ok_0@ == SpecExpr::Bool(
            forall|j: int| 0 <= j < pair_ok@.len() ==> pair_ok@[j],
        ))),
{
    if nums.len() == 0 {
        return Err(LanaErr::Reason("Expected at least one number".to_owned()));
    }
    let mut all: bool = true;
    let mut i: usize = 0;
    while i < pair_ok.len()
        invariant
            i <= pair_ok@.len(),
            all == (forall|j: int| 0 <= j < i ==> pair_ok@[j]),
        decreases pair_ok@.len() - i,
    {
        if !pair_ok[i] {
            all = false;
        }
        i = i + 1;
    }
    Ok(LanaExpr::Bool(all))
}

/// What `print` and `println` hand back: they take at least one argument,
/// write every argument out, and return the first argument.
pub fn print_result(args: &Vec<LanaExpr>) -> (r: Result<LanaExpr, LanaErr>)
    ensures
        (args@.len() == 0 ==> (r is Err && r->Err_0@ == SpecErr::Reason(
            "Expected at least one argument"@,
        ))),
        (args@.len() > 0 ==> (r is Ok && r->Ok_0@ == args@[0]@)),
{
    if args.len() == 0 {
        Err(LanaErr::Reason("Expected at least one argument".to_owned()))
    } else {
        Ok(args[0].duplicate())
    }
}

/// `gets` takes no arguments.
pub fn gets_args_check(args: &Vec<LanaExpr>) -> (r: Result<(), LanaErr>)
    ensures
        (args@.len() > 0 ==> (r is Err && r->Err_0@ == SpecErr::Reason(
            "Expected no arguments, got "@ + spec_digits(args@.len()),
        ))),
        (args@.len() == 0 ==> r is Ok),
{
    if args.len() > 0 {
        Err(
            LanaErr::Reason(
                "Expected no arguments, got ".to_owned().concat(
                    usize_to_string(args.len()).as_str(),
                ),
            ),
        )
    } else {
        Ok(())
    }
}

/// `sleep` takes exactly one argument, a number: its payload.
pub fn sleep_arg(args: &Vec<LanaExpr>) -> (r: Result<u64, LanaErr>)
    ensures
        (args@.len() != 1 ==> (r is Err && r->Err_0@ == SpecErr::Reason(
            "Expected 1 argument, got "@ + spec_digits(args@.len()),
        ))),
        (args@.len() == 1 && !(args@[0]@ is Number) ==> (r is Err && r->Err_0@ == SpecErr::Reason(
            "Invalid argument: expected number, got "@ + args@[0].spec_enum_name(),
        ))),
        (args@.len() == 1 && args@[0]@ is Number ==> (r is Ok && SpecExpr::Number(r->Ok_0)
            == args@[0]@)),
{
    if args.len() != 1 {
        return Err(
            LanaErr::Reason(
                "Expected 1 argument, got ".to_owned().concat(usize_to_string(args.len()).as_str()),
            ),
        );
    }
    match &args[0] {
        LanaExpr::Number(n) => Ok(*n),
        other => Err(
            LanaErr::Reason(
                "Invalid argument: expected number, got ".to_owned().concat(
                    other.enum_name().as_str(),
                ),
            ),
        ),
    }
}

} // verus!
