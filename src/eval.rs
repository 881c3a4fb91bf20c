//! The evaluator: an environment of variables, user functions, native
//! function names and loaded modules, and the execution of statements.
use std::rc::Rc;
use vstd::prelude::*;

use crate::error::{Fault, LangError, TypeIssue};
use crate::literal::{Atom, AtomV};
use crate::package::{Host, PackageManager, PackagesV, found_view, is_builtin};
use crate::parser::{FuncBody, FuncV, Stmt, param_names, parse_program, program_of, stmts_v};
use crate::syntax::{CmpOp, CondV, Condition, Expr, arg_views, atom_views};
use crate::table::Table;
use crate::text::push_str;
use crate::value::{Val, Value, decimal, display};

verus! {

/// Whether an executable result is the modelled one.
pub open spec fn agrees<A: View>(r: Result<A, LangError>, m: Result<A::V, Fault>) -> bool {
    match (r, m) {
        (Ok(a), Ok(b)) => a@ == b,
        (Err(e), Err(f)) => e@ == f,
        _ => false,
    }
}

/// Reading a name: unbound names and move-only handles are errors.
pub open spec fn lookup_val(m: Map<Seq<char>, Val>, n: Seq<char>) -> Result<Val, Fault> {
    if m.contains_key(n) {
        if m[n] is Handle {
            Err(Fault::Type(TypeIssue::HandleCopy))
        } else {
            Ok(m[n])
        }
    } else {
        Err(Fault::UndefinedVariable(n))
    }
}

/// The value of an operand, with `self(..)` read from the call's parameters.
pub open spec fn atom_val(vars: Map<Seq<char>, Val>, frame: Map<Seq<char>, Val>, a: AtomV) -> Result<
    Val,
    Fault,
> {
    match a {
        AtomV::Lit(v) => Ok(v),
        AtomV::Var(n) => lookup_val(vars, n),
        AtomV::Param(n) => lookup_val(frame, n),
        AtomV::VarText(n) => if vars.contains_key(n) {
            Ok(Val::Text(display(vars[n])))
        } else {
            Err(Fault::UndefinedVariable(n))
        },
    }
}

/// The values of operands, left to right; the first error decides.
pub open spec fn atoms_val(
    vars: Map<Seq<char>, Val>,
    frame: Map<Seq<char>, Val>,
    s: Seq<AtomV>,
) -> Result<Seq<Val>, Fault>
    decreases s.len(),
{
    if s.len() == 0 {
        Ok(Seq::empty())
    } else {
        match atoms_val(vars, frame, s.drop_last()) {
            Err(f) => Err(f),
            Ok(vs) => match atom_val(vars, frame, s.last()) {
                Err(f) => Err(f),
                Ok(v) => Ok(vs.push(v)),
            },
        }
    }
}

/// The display texts of values, joined.
pub open spec fn joined(vs: Seq<Val>) -> Seq<char>
    decreases vs.len(),
{
    if vs.len() == 0 {
        Seq::empty()
    } else {
        joined(vs.drop_last()) + display(vs.last())
    }
}

/// A `+` chain: one operand is itself; two or more join their display texts.
pub open spec fn combine(vs: Seq<Val>) -> Val {
    if vs.len() == 1 {
        vs[0]
    } else {
        Val::Text(joined(vs))
    }
}

/// The value of a term.
pub open spec fn term_val(vars: Map<Seq<char>, Val>, frame: Map<Seq<char>, Val>, t: Seq<AtomV>) -> Result<
    Val,
    Fault,
> {
    match atoms_val(vars, frame, t) {
        Err(f) => Err(f),
        Ok(vs) => Ok(combine(vs)),
    }
}

/// The values of call arguments, left to right; the first error decides.
pub open spec fn args_val(
    vars: Map<Seq<char>, Val>,
    frame: Map<Seq<char>, Val>,
    args: Seq<Seq<AtomV>>,
) -> Result<Seq<Val>, Fault>
    decreases args.len(),
{
    if args.len() == 0 {
        Ok(Seq::empty())
    } else {
        match args_val(vars, frame, args.drop_last()) {
            Err(f) => Err(f),
            Ok(vs) => match term_val(vars, frame, args.last()) {
                Err(f) => Err(f),
                Ok(v) => Ok(vs.push(v)),
            },
        }
    }
}

/// Equality of values: like kinds only; any two unlike kinds differ.
pub open spec fn same_val(a: Val, b: Val) -> bool {
    match (a, b) {
        (Val::Int(x), Val::Int(y)) => x == y,
        (Val::Text(s), Val::Text(t)) => s == t,
        (Val::Null, Val::Null) => true,
        _ => false,
    }
}

/// The truth of a comparison of two values.
pub open spec fn compare(op: CmpOp, l: Val, r: Val) -> Result<bool, Fault> {
    match op {
        CmpOp::Eq => Ok(same_val(l, r)),
        CmpOp::Ne => Ok(!same_val(l, r)),
        CmpOp::Gt => match (l, r) {
            (Val::Int(x), Val::Int(y)) => Ok(x > y),
            _ => Err(Fault::Type(TypeIssue::NonNumericOrdering)),
        },
        CmpOp::Lt => match (l, r) {
            (Val::Int(x), Val::Int(y)) => Ok(x < y),
            _ => Err(Fault::Type(TypeIssue::NonNumericOrdering)),
        },
    }
}

/// The truth of a condition: left operand, then right, then the comparison.
pub open spec fn cond_val(vars: Map<Seq<char>, Val>, frame: Map<Seq<char>, Val>, c: CondV) -> Result<
    bool,
    Fault,
> {
    match atom_val(vars, frame, c.left) {
        Err(f) => Err(f),
        Ok(l) => match atom_val(vars, frame, c.right) {
            Err(f) => Err(f),
            Ok(r) => compare(c.op, l, r),
        },
    }
}

/// The model of an environment.
pub struct EnvV {
    pub vars: Map<Seq<char>, Val>,
    pub funcs: Map<Seq<char>, FuncV>,
    pub natives: Map<Seq<char>, bool>,
    pub packages: PackagesV,
}

/// The part of `require` that does not depend on the host: a loaded module
/// changes nothing; a built-in group becomes loaded. `None` where a module
/// file has to be found.
pub open spec fn require_effect(e: EnvV, name: Seq<char>) -> Option<EnvV> {
    if e.packages.loaded.contains(name) {
        Some(e)
    } else if is_builtin(name) {
        Some(EnvV { packages: PackagesV { loaded: e.packages.loaded.insert(name), ..e.packages }, ..e })
    } else {
        None
    }
}

/// The nesting of blocks, calls and module loads that a run allows.
pub const MAX_DEPTH: u32 = 200;

/// Variables, user functions, native function names and loaded modules of
/// one interpreter session.
pub struct Env {
    vars: Table<Value>,
    funcs: Table<Rc<FuncBody>>,
    natives: Table<bool>,
    packages: PackageManager,
}

impl View for Env {
    type V = EnvV;

    closed spec fn view(&self) -> EnvV {
        EnvV { vars: self.vars@, funcs: self.funcs@, natives: self.natives@, packages: self.packages@ }
    }
}

/// Combines operand values as a `+` chain does.
pub fn combine_values(vs: Vec<Value>) -> (r: Value)
    ensures
        r@ == combine(vs@.map_values(|v: Value| v@)),
{
    let ghost m = vs@.map_values(|v: Value| v@);
    let n = vs.len();
    if n == 1 {
        let mut vs = vs;
        let v = vs.pop().unwrap();
        return v;
    }
    let mut out = String::new();
    let mut j: usize = 0;
    while j < n
        invariant
            n == vs@.len(),
            m == vs@.map_values(|v: Value| v@),
            j <= n,
            out@ == joined(m.subrange(0, j as int)),
        decreases n - j,
    {
        assert(m.subrange(0, j + 1).drop_last() =~= m.subrange(0, j as int));
        let t = vs[j].display_text();
        push_str(&mut out, t.as_str());
        j = j + 1;
    }
    assert(m.subrange(0, n as int) =~= m);
    Value::String(out)
}

} // verus!

verus! {

/// The block that an `if` runs: the `then` block when the condition holds,
/// else the `else` block if there is one, else none.
pub fn choose_branch<'a>(cond: bool, then_block: &'a Vec<Stmt>, else_block: &'a Option<Vec<Stmt>>) -> (r:
    Option<&'a Vec<Stmt>>)
    ensures
        cond ==> r == Some(then_block),
        !cond && else_block is Some ==> r == Some(&else_block->0),
        !cond && else_block is None ==> r is None,
{
    if cond {
        Some(then_block)
    } else {
        match else_block {
            Some(b) => Some(b),
            None => None,
        }
    }
}

fn read_name(table: &Table<Value>, name: &String) -> (r: Result<Value, LangError>)
    requires
        table.wf(),
    ensures
        agrees(r, lookup_val(table@, name@)),
{
    match table.get(name.as_str()) {
        None => Err(LangError::UndefinedVariable(name.clone())),
        Some(v) => {
            if let Value::Handle(_) = v {
                Err(LangError::Type(TypeIssue::HandleCopy))
            } else {
                Ok(v.copy())
            }
        },
    }
}

proof fn lemma_error_persists(
    vars: Map<Seq<char>, Val>,
    frame: Map<Seq<char>, Val>,
    tv: Seq<AtomV>,
    k: int,
    f: Fault,
)
    requires
        0 <= k <= tv.len(),
        atoms_val(vars, frame, tv.subrange(0, k)) == Err::<Seq<Val>, Fault>(f),
    ensures
        atoms_val(vars, frame, tv.subrange(0, tv.len() as int)) == Err::<Seq<Val>, Fault>(f),
    decreases tv.len() - k,
{
    if k < tv.len() {
        assert(tv.subrange(0, k + 1).drop_last() =~= tv.subrange(0, k));
        lemma_error_persists(vars, frame, tv, k + 1, f);
    }
}

proof fn lemma_args_error_persists(
    vars: Map<Seq<char>, Val>,
    frame: Map<Seq<char>, Val>,
    av: Seq<Seq<AtomV>>,
    k: int,
    f: Fault,
)
    requires
        0 <= k <= av.len(),
        args_val(vars, frame, av.subrange(0, k)) == Err::<Seq<Val>, Fault>(f),
    ensures
        args_val(vars, frame, av.subrange(0, av.len() as int)) == Err::<Seq<Val>, Fault>(f),
    decreases av.len() - k,
{
    if k < av.len() {
        assert(av.subrange(0, k + 1).drop_last() =~= av.subrange(0, k));
        lemma_args_error_persists(vars, frame, av, k + 1, f);
    }
}

/// The value of an operand.
pub fn eval_atom(vars: &Table<Value>, frame: &Table<Value>, a: &Atom) -> (r: Result<Value, LangError>)
    requires
        vars.wf(),
        frame.wf(),
    ensures
        agrees(r, atom_val(vars@, frame@, a@)),
{
    match a {
        Atom::Lit(l) => Ok(l.to_value()),
        Atom::VarRef(n) => read_name(vars, n),
        Atom::SelfParamRef(n) => read_name(frame, n),
        Atom::VarText(n) => match vars.get(n.as_str()) {
            None => Err(LangError::UndefinedVariable(n.clone())),
            Some(v) => Ok(Value::String(v.display_text())),
        },
    }
}

/// The value of a term: its operands left to right, combined.
pub fn eval_term(vars: &Table<Value>, frame: &Table<Value>, t: &Vec<Atom>) -> (r: Result<Value, LangError>)
    requires
        vars.wf(),
        frame.wf(),
    ensures
        agrees(r, term_val(vars@, frame@, atom_views(t@))),
{
    let ghost tv = atom_views(t@);
    let mut vals: Vec<Value> = Vec::new();
    let mut i: usize = 0;
    assert(tv.subrange(0, 0).len() == 0);
    assert(vals@.map_values(|v: Value| v@) =~= Seq::<Val>::empty());
    while i < t.len()
        invariant
            vars.wf(),
            frame.wf(),
            tv == atom_views(t@),
            i <= t@.len(),
            atoms_val(vars@, frame@, tv.subrange(0, i as int)) == Ok::<Seq<Val>, Fault>(
                vals@.map_values(|v: Value| v@),
            ),
        decreases t@.len() - i,
    {
        assert(tv.subrange(0, i + 1).drop_last() =~= tv.subrange(0, i as int));
        match eval_atom(vars, frame, &t[i]) {
            Err(e) => {
                proof {
                    lemma_error_persists(vars@, frame@, tv, i + 1, e@);
                    assert(tv.subrange(0, tv.len() as int) =~= tv);
                }
                return Err(e);
            },
            Ok(v) => {
                let ghost before = vals@.map_values(|v: Value| v@);
                vals.push(v);
                assert(vals@.map_values(|v: Value| v@) =~= before.push(v@));
            },
        }
        i = i + 1;
    }
    assert(tv.subrange(0, t@.len() as int) =~= tv);
    Ok(combine_values(vals))
}

fn eq_values(l: &Value, r: &Value) -> (b: bool)
    ensures
        b == same_val(l@, r@),
{
    match (l, r) {
        (Value::Int(x), Value::Int(y)) => *x == *y,
        (Value::String(s), Value::String(t)) => *s == *t,
        (Value::Null, Value::Null) => true,
        _ => false,
    }
}

/// The truth of a condition.
pub fn eval_condition(vars: &Table<Value>, frame: &Table<Value>, c: &Condition) -> (r: Result<bool, LangError>)
    requires
        vars.wf(),
        frame.wf(),
    ensures
        agrees(r, cond_val(vars@, frame@, c@)),
{
    let l = match eval_atom(vars, frame, &c.left) {
        Ok(v) => v,
        Err(e) => {
            return Err(e);
        },
    };
    let r = match eval_atom(vars, frame, &c.right) {
        Ok(v) => v,
        Err(e) => {
            return Err(e);
        },
    };
    match c.op {
        CmpOp::Eq => Ok(eq_values(&l, &r)),
        CmpOp::Ne => Ok(!eq_values(&l, &r)),
        CmpOp::Gt => match (l, r) {
            (Value::Int(x), Value::Int(y)) => Ok(x > y),
            _ => Err(LangError::Type(TypeIssue::NonNumericOrdering)),
        },
        CmpOp::Lt => match (l, r) {
            (Value::Int(x), Value::Int(y)) => Ok(x < y),
            _ => Err(LangError::Type(TypeIssue::NonNumericOrdering)),
        },
    }
}

} // verus!

verus! {

/// Whether a name is registered as a user or a native function.
pub open spec fn is_defined(e: EnvV, name: Seq<char>) -> bool {
    e.funcs.contains_key(name) || e.natives.contains_key(name)
}

/// What a step may change at most: natives stay, loaded modules only grow,
/// the search root stays.
pub open spec fn stable(old: EnvV, new: EnvV) -> bool {
    &&& new.natives == old.natives
    &&& old.packages.loaded.subset_of(new.packages.loaded)
    &&& new.packages.root == old.packages.root
}

pub open spec fn null_and(r: Result<Value, LangError>) -> bool {
    r is Ok && r->Ok_0@ == Val::Null
}

pub open spec fn failed_with(r: Result<Value, LangError>, f: Fault) -> bool {
    r is Err && r->Err_0@ == f
}

/// A call of an undefined name fails; so does a call whose arguments fail,
/// and a call of a user function with the wrong number of arguments. None of
/// these changes anything.
pub open spec fn call_post(
    old: EnvV,
    new: EnvV,
    frame: Map<Seq<char>, Val>,
    name: Seq<char>,
    args: Seq<Seq<AtomV>>,
    r: Result<Value, LangError>,
) -> bool {
    &&& !is_defined(old, name) ==> failed_with(r, Fault::UndefinedFunction(name)) && new == old
    &&& is_defined(old, name) ==> match args_val(old.vars, frame, args) {
        Err(f) => failed_with(r, f) && new == old,
        Ok(vs) => old.funcs.contains_key(name) && old.funcs[name].params.len() != vs.len() ==> failed_with(
            r,
            Fault::Type(TypeIssue::Arity),
        ) && new == old,
    }
}

/// `require`: a loaded module is a no-op, a built-in group is just marked;
/// after success the module is loaded.
pub open spec fn require_post(old: EnvV, new: EnvV, name: Seq<char>, r: Result<Value, LangError>, d: nat) -> bool {
    &&& require_effect(old, name) is Some ==> null_and(r) && new == require_effect(old, name)->0
    &&& r is Ok ==> new.packages.loaded.contains(name)
    &&& require_effect(old, name) is None ==> exists|found: Option<Result<Seq<char>, Seq<char>>>|
        #[trigger] found_shape(old, new, name, found, r, d)
}

/// What loading a module given the host's answer does, short of running the
/// module's statements (stated by `found_post`).
pub open spec fn found_shape(
    old: EnvV,
    new: EnvV,
    name: Seq<char>,
    found: Option<Result<Seq<char>, Seq<char>>>,
    r: Result<Value, LangError>,
    d: nat,
) -> bool {
    match found {
        None => failed_with(r, Fault::ModuleNotFound(name)) && new == old,
        Some(Err(m)) => failed_with(r, Fault::NativeCall(m)) && new == old,
        Some(Ok(t)) => match program_of(t) {
            Err(f) => failed_with(r, f) && new == loaded_with(old, name),
            Ok(_) => d == 0 ==> failed_with(r, Fault::TooDeep) && new == loaded_with(old, name),
        },
    }
}

/// The block an `if` selects: the `then` block when the condition holds,
/// else the `else` block; `None` when it holds not and there is no `else`.
pub open spec fn selected(b: bool, then_block: Seq<Stmt>, els: Option<Vec<Stmt>>) -> Option<Seq<Stmt>> {
    if b {
        Some(then_block)
    } else {
        match els {
            Some(e) => Some(e@),
            None => None,
        }
    }
}

/// What executing one statement does to the environment and returns, with
/// `d` levels of nesting (blocks, user calls, module loads) left. What a
/// nested block does is stated by `if_post`, `user_call_post` and
/// `found_post` on the functions that run it.
pub open spec fn stmt_post(
    old: EnvV,
    new: EnvV,
    frame: Map<Seq<char>, Val>,
    s: Stmt,
    r: Result<Value, LangError>,
    d: nat,
) -> bool {
    match s {
        Stmt::Require(n) => require_post(old, new, n@, r, d),
        Stmt::VarDecl(n, Expr::Term(t)) => match term_val(old.vars, frame, atom_views(t@)) {
            Ok(v) => null_and(r) && new == (EnvV { vars: old.vars.insert(n@, v), ..old }),
            Err(f) => failed_with(r, f) && new == old,
        },
        Stmt::VarDecl(n, Expr::Call(c, a)) => exists|mid: EnvV, cr: Result<Value, LangError>|
            #[trigger] call_full(old, mid, frame, c@, arg_views(a@), cr, d) && (cr is Ok ==> null_and(r) && new
                == (EnvV { vars: mid.vars.insert(n@, cr->Ok_0@), ..mid })) && (cr is Err ==> r == cr && new
                == mid),
        Stmt::Expr(Expr::Term(t)) => agrees(r, term_val(old.vars, frame, atom_views(t@))) && new == old,
        Stmt::Expr(Expr::Call(c, a)) => call_full(old, new, frame, c@, arg_views(a@), r, d),
        Stmt::If(c, then_block, els) => match cond_val(old.vars, frame, c@) {
            Err(f) => failed_with(r, f) && new == old,
            Ok(b) => match selected(b, then_block@, els) {
                None => null_and(r) && new == old,
                Some(_) => d == 0 ==> failed_with(r, Fault::TooDeep) && new == old,
            },
        },
        Stmt::FuncDef(n, body) => null_and(r) && new == (EnvV { funcs: old.funcs.insert(n@, body@), ..old }),
    }
}

/// The parameter frame of a call: each name bound to its argument (a name
/// that repeats is bound to its first argument).
pub open spec fn bind(ps: Seq<Seq<char>>, vs: Seq<Val>) -> Map<Seq<char>, Val>
    decreases ps.len(),
{
    if ps.len() == 0 || vs.len() == 0 {
        Map::empty()
    } else {
        bind(ps.drop_first(), vs.drop_first()).insert(ps[0], vs[0])
    }
}

/// A call of a native function with well-formed arguments changes nothing
/// here, and a failure of the host becomes `NativeCall`.
pub open spec fn native_post(
    old: EnvV,
    new: EnvV,
    frame: Map<Seq<char>, Val>,
    name: Seq<char>,
    args: Seq<Seq<AtomV>>,
    r: Result<Value, LangError>,
) -> bool {
    !old.funcs.contains_key(name) && old.natives.contains_key(name) && args_val(old.vars, frame, args) is Ok
        ==> new == old && (r is Err ==> r->Err_0@ is NativeCall)
}

/// The user function a call with well-formed arguments of the right number
/// runs, with the argument values; `None` for any other call.
pub open spec fn user_call(
    old: EnvV,
    frame: Map<Seq<char>, Val>,
    name: Seq<char>,
    args: Seq<Seq<AtomV>>,
) -> bool {
    old.funcs.contains_key(name) && args_val(old.vars, frame, args) is Ok && old.funcs[name].params.len()
        == args_val(old.vars, frame, args)->Ok_0.len()
}

/// Everything a call does that does not depend on running a body: errors
/// before the call, natives, and `TooDeep` with no nesting left.
pub open spec fn call_full(
    old: EnvV,
    new: EnvV,
    frame: Map<Seq<char>, Val>,
    name: Seq<char>,
    args: Seq<Seq<AtomV>>,
    r: Result<Value, LangError>,
    d: nat,
) -> bool {
    &&& call_post(old, new, frame, name, args, r)
    &&& native_post(old, new, frame, name, args, r)
    &&& user_call(old, frame, name, args) && d == 0 ==> failed_with(r, Fault::TooDeep) && new == old
}

/// A call of a user function with well-formed arguments of the right number
/// runs its body with the parameters bound to the argument values, in the
/// caller's variables, with one level of nesting less.
pub open spec fn user_call_post(
    old: EnvV,
    new: EnvV,
    frame: Map<Seq<char>, Val>,
    name: Seq<char>,
    args: Seq<Seq<AtomV>>,
    r: Result<Value, LangError>,
    d: nat,
) -> bool {
    user_call(old, frame, name, args) && d > 0 ==> exists|tr: Seq<EnvV>, rs: Seq<Result<Value, LangError>>|
        #[trigger] block_run(
            old,
            new,
            bind(old.funcs[name].params, args_val(old.vars, frame, args)->Ok_0),
            old.funcs[name].body,
            tr,
            rs,
            r,
            (d - 1) as nat,
        )
}

/// An `if` whose condition selects a block runs that block, with one level
/// of nesting less.
pub open spec fn if_post(
    old: EnvV,
    new: EnvV,
    frame: Map<Seq<char>, Val>,
    c: CondV,
    then_block: Seq<Stmt>,
    els: Option<Vec<Stmt>>,
    r: Result<Value, LangError>,
    d: nat,
) -> bool {
    cond_val(old.vars, frame, c) is Ok && selected(cond_val(old.vars, frame, c)->Ok_0, then_block, els) is Some
        && d > 0 ==> exists|tr: Seq<EnvV>, rs: Seq<Result<Value, LangError>>|
        #[trigger] block_run(
            old,
            new,
            frame,
            selected(cond_val(old.vars, frame, c)->Ok_0, then_block, els)->0,
            tr,
            rs,
            r,
            (d - 1) as nat,
        )
}

/// `e` with module `name` marked loaded.
pub open spec fn loaded_with(e: EnvV, name: Seq<char>) -> EnvV {
    EnvV { packages: PackagesV { loaded: e.packages.loaded.insert(name), ..e.packages }, ..e }
}

/// Running module text `text` from state `start`: a text that does not parse
/// fails with its error; otherwise its statements run as a block in this
/// environment, and success gives `Null`; with no nesting left it fails with
/// `TooDeep`.
pub open spec fn module_run(start: EnvV, new: EnvV, text: Seq<char>, r: Result<Value, LangError>, d: nat) -> bool {
    match program_of(text) {
        Err(f) => failed_with(r, f) && new == start,
        Ok(m) => if d == 0 {
            failed_with(r, Fault::TooDeep) && new == start
        } else {
            exists|
                prog: Seq<Stmt>,
                tr: Seq<EnvV>,
                rs: Seq<Result<Value, LangError>>,
                r2: Result<Value, LangError>,
            |
                stmts_v(prog) == m && #[trigger] block_run(start, new, Map::empty(), prog, tr, rs, r2, (d - 1) as nat)
                    && (r2 is Ok ==> null_and(r)) && (r2 is Err ==> r == r2)
        },
    }
}

/// Loading a module given what the host found: no file is `ModuleNotFound`,
/// a file that cannot be read is `NativeCall` with the host's message (both
/// change nothing); a text marks the module loaded and runs in this
/// environment.
pub open spec fn found_post(
    old: EnvV,
    new: EnvV,
    name: Seq<char>,
    found: Option<Result<Seq<char>, Seq<char>>>,
    r: Result<Value, LangError>,
    d: nat,
) -> bool {
    match found {
        None => failed_with(r, Fault::ModuleNotFound(name)) && new == old,
        Some(Err(m)) => failed_with(r, Fault::NativeCall(m)) && new == old,
        Some(Ok(t)) => module_run(loaded_with(old, name), new, t, r, d),
    }
}

/// A run of a block: `tr` holds the states between its statements and `rs`
/// their results. Each executed statement does what `stmt_post` says; all but
/// the last executed one succeeded; a failure ends the block with that error;
/// success runs every statement and gives the last one's value.
pub open spec fn block_run(
    old: EnvV,
    new: EnvV,
    frame: Map<Seq<char>, Val>,
    b: Seq<Stmt>,
    tr: Seq<EnvV>,
    rs: Seq<Result<Value, LangError>>,
    r: Result<Value, LangError>,
    d: nat,
) -> bool {
    &&& tr.len() == rs.len() + 1
    &&& rs.len() <= b.len()
    &&& tr[0] == old
    &&& tr.last() == new
    &&& forall|k: int| 0 <= k < rs.len() ==> stmt_post(tr[k], tr[k + 1], frame, b[k], #[trigger] rs[k], d)
    &&& forall|k: int| 0 <= k < rs.len() - 1 ==> (#[trigger] rs[k]) is Ok
    &&& r is Ok ==> rs.len() == b.len() && (b.len() == 0 ==> r->Ok_0@ == Val::Null) && (b.len() > 0
        ==> rs.last() == r)
    &&& r is Err ==> rs.len() > 0 && rs.last() == r
}

proof fn lemma_stable_trans(a: EnvV, b: EnvV, c: EnvV)
    requires
        stable(a, b),
        stable(b, c),
    ensures
        stable(a, c),
{
}

impl Env {
    /// The tables are well formed.
    pub closed spec fn wf(&self) -> bool {
        self.vars.wf() && self.funcs.wf() && self.natives.wf()
    }

    /// An empty session: no variables, functions or natives; nothing loaded.
    pub fn new() -> (r: Self)
        ensures
            r.wf(),
            r@.vars == Map::<Seq<char>, Val>::empty(),
            r@.funcs == Map::<Seq<char>, FuncV>::empty(),
            r@.natives == Map::<Seq<char>, bool>::empty(),
            r@.packages.loaded == Set::<Seq<char>>::empty(),
    {
        Env { vars: Table::new(), funcs: Table::new(), natives: Table::new(), packages: PackageManager::new() }
    }

    /// Registers `name` as a native function that the host implements.
    pub fn register_native(&mut self, name: &str)
        requires
            old(self).wf(),
        ensures
            final(self).wf(),
            final(self)@ == (EnvV { natives: old(self)@.natives.insert(name@, true), ..old(self)@ }),
    {
        self.natives.insert(name.to_owned(), true);
    }

    /// Sets the root under which module files are looked up.
    pub fn set_require_path(&mut self, path: &str)
        requires
            old(self).wf(),
        ensures
            final(self).wf(),
            final(self)@.vars == old(self)@.vars,
            final(self)@.funcs == old(self)@.funcs,
            final(self)@.natives == old(self)@.natives,
            final(self)@.packages.loaded == old(self)@.packages.loaded,
            final(self)@.packages.root == path@,
    {
        self.packages.set_require_path(path);
    }

    /// Whether module `name` is loaded.
    pub fn is_loaded(&self, name: &str) -> (r: bool)
        ensures
            r == self@.packages.loaded.contains(name@),
    {
        self.packages.is_package_loaded(name)
    }

    /// A copy of the value of variable `name`; `None` when it is unbound or
    /// holds a handle.
    pub fn get_var(&self, name: &str) -> (r: Option<Value>)
        requires
            self.wf(),
        ensures
            r is Some <==> self@.vars.contains_key(name@) && !(self@.vars[name@] is Handle),
            r is Some ==> r->0@ == self@.vars[name@],
    {
        match self.vars.get(name) {
            Some(v) => {
                if let Value::Handle(_) = v {
                    None
                } else {
                    Some(v.copy())
                }
            },
            None => None,
        }
    }

    /// Binds variable `name` to `value`.
    pub fn set_var(&mut self, name: &str, value: Value)
        requires
            old(self).wf(),
        ensures
            final(self).wf(),
            final(self)@ == (EnvV { vars: old(self)@.vars.insert(name@, value@), ..old(self)@ }),
    {
        self.vars.insert(name.to_owned(), value);
    }

    /// Whether a user or native function is registered under `name`.
    pub fn is_function(&self, name: &str) -> (r: bool)
        requires
            self.wf(),
        ensures
            r == is_defined(self@, name@),
    {
        self.funcs.contains(name) || self.natives.contains(name)
    }

    fn eval_args(&self, args: &Vec<Vec<Atom>>, frame: &Table<Value>) -> (r: Result<Vec<Value>, LangError>)
        requires
            self.wf(),
            frame.wf(),
        ensures
            match (r, args_val(self@.vars, frame@, arg_views(args@))) {
                (Ok(v), Ok(m)) => v@.map_values(|x: Value| x@) == m,
                (Err(e), Err(f)) => e@ == f,
                _ => false,
            },
    {
        let ghost av = arg_views(args@);
        let mut vals: Vec<Value> = Vec::new();
        let mut i: usize = 0;
        assert(vals@.map_values(|x: Value| x@) =~= Seq::<Val>::empty());
        while i < args.len()
            invariant
                self.wf(),
                frame.wf(),
                av == arg_views(args@),
                i <= args@.len(),
                args_val(self@.vars, frame@, av.subrange(0, i as int)) == Ok::<Seq<Val>, Fault>(
                    vals@.map_values(|x: Value| x@),
                ),
            decreases args@.len() - i,
        {
            assert(av.subrange(0, i + 1).drop_last() =~= av.subrange(0, i as int));
            assert(av[i as int] == atom_views(args@[i as int]@));
            match eval_term(&self.vars, frame, &args[i]) {
                Ok(v) => {
                    let ghost before = vals@.map_values(|x: Value| x@);
                    vals.push(v);
                    assert(vals@.map_values(|x: Value| x@) =~= before.push(v@));
                },
                Err(e) => {
                    proof {
                        lemma_args_error_persists(self@.vars, frame@, av, i + 1, e@);
                        assert(av.subrange(0, av.len() as int) =~= av);
                    }
                    return Err(e);
                },
            }
            i = i + 1;
        }
        assert(av.subrange(0, args@.len() as int) =~= av);
        Ok(vals)
    }

    /// Calls function `name` with the given argument terms, evaluated in the
    /// caller's scope. A user function runs its body with its parameters bound
    /// to the arguments (read through `self(..)`); it sees and may change the
    /// caller's variables. Its value is the value of its body's last statement.
    /// A native function is called through the host.
    pub fn call_function<H: Host>(
        &mut self,
        name: &String,
        args: &Vec<Vec<Atom>>,
        frame: &Table<Value>,
        host: &mut H,
        fuel: u32,
    ) -> (r: Result<Value, LangError>)
        requires
            old(self).wf(),
            frame.wf(),
        ensures
            final(self).wf(),
            stable(old(self)@, final(self)@),
            call_full(old(self)@, final(self)@, frame@, name@, arg_views(args@), r, fuel as nat),
            user_call_post(old(self)@, final(self)@, frame@, name@, arg_views(args@), r, fuel as nat),
        decreases fuel, 1u32,
    {
        let f = match self.funcs.get(name.as_str()) {
            Some(f) => Some(Rc::clone(f)),
            None => None,
        };
        match f {
            Some(f) => {
                let vals = match self.eval_args(args, frame) {
                    Ok(v) => v,
                    Err(e) => {
                        return Err(e);
                    },
                };
                if vals.len() != f.params.len() {
                    return Err(LangError::Type(TypeIssue::Arity));
                }
                let ghost ps = param_names(f.params@);
                let ghost vs = vals@.map_values(|x: Value| x@);
                let n = f.params.len();
                let mut local: Table<Value> = Table::new();
                let mut vals = vals;
                let mut k: usize = n;
                assert(ps.subrange(n as int, n as int) =~= Seq::<Seq<char>>::empty());
                while k > 0
                    invariant
                        local.wf(),
                        n == f.params@.len(),
                        ps == param_names(f.params@),
                        vs.len() == n,
                        k <= n,
                        vals@.len() == k,
                        vals@.map_values(|x: Value| x@) == vs.subrange(0, k as int),
                        local@ == bind(ps.subrange(k as int, n as int), vs.subrange(k as int, n as int)),
                    decreases k,
                {
                    let ghost before = vals@;
                    let v = vals.pop().unwrap();
                    proof {
                        assert(v@ == vs[k - 1]) by {
                            assert(before.map_values(|x: Value| x@)[k - 1] == vs.subrange(0, k as int)[k - 1]);
                        }
                        assert(vals@.map_values(|x: Value| x@) =~= vs.subrange(0, k - 1));
                        let p2 = ps.subrange(k - 1, n as int);
                        let v2 = vs.subrange(k - 1, n as int);
                        assert(p2.drop_first() =~= ps.subrange(k as int, n as int));
                        assert(v2.drop_first() =~= vs.subrange(k as int, n as int));
                        assert(p2[0] == ps[k - 1]);
                        assert(ps[k - 1] == f.params@[k - 1]@);
                    }
                    local.insert(f.params[k - 1].clone(), v);
                    k = k - 1;
                }
                assert(ps.subrange(0, n as int) =~= ps);
                assert(vs.subrange(0, n as int) =~= vs);
                assert(old(self)@.funcs[name@] == f@);
                assert(args_val(old(self)@.vars, frame@, arg_views(args@)) == Ok::<Seq<Val>, Fault>(vs));
                if fuel == 0 {
                    return Err(LangError::TooDeep);
                }
                let ghost pre = self@;
                let f1: u32 = fuel - 1;
                assert(f1 as nat == ((fuel as nat) - 1) as nat);
                let res = self.exec_block(&f.body, &local, host, f1);
                proof {
                    let (tr, rs) = choose|tr: Seq<EnvV>, rs: Seq<Result<Value, LangError>>|
                        #[trigger] block_run(pre, self@, local@, f.body@, tr, rs, res, f1 as nat);
                    assert(local@ == bind(old(self)@.funcs[name@].params, vs));
                    assert(block_run(
                        old(self)@,
                        self@,
                        bind(old(self)@.funcs[name@].params, vs),
                        old(self)@.funcs[name@].body,
                        tr,
                        rs,
                        res,
                        f1 as nat,
                    ));
                    assert(user_call(old(self)@, frame@, name@, arg_views(args@)));
                    assert(exists|tr2: Seq<EnvV>, rs2: Seq<Result<Value, LangError>>|
                        #[trigger] block_run(
                            old(self)@,
                            self@,
                            bind(old(self)@.funcs[name@].params, vs),
                            old(self)@.funcs[name@].body,
                            tr2,
                            rs2,
                            res,
                            ((fuel as nat) - 1) as nat,
                        ));
                    assert(user_call_post(old(self)@, self@, frame@, name@, arg_views(args@), res, fuel as nat));
                }
                res
            },
            None => {
                if self.natives.contains(name.as_str()) {
                    let vals = match self.eval_args(args, frame) {
                        Ok(v) => v,
                        Err(e) => {
                            return Err(e);
                        },
                    };
                    match host.call_native(name.as_str(), vals) {
                        Ok(v) => Ok(v),
                        Err(m) => Err(LangError::NativeCall(m)),
                    }
                } else {
                    Err(LangError::UndefinedFunction(name.clone()))
                }
            },
        }
    }

    /// Loads module `name` given what the host found for it: no file is
    /// `ModuleNotFound`, an unreadable file is `NativeCall` with the host's
    /// message; a text marks the module loaded and runs in this environment.
    pub fn load_module<H: Host>(
        &mut self,
        name: &str,
        found: Option<Result<String, String>>,
        host: &mut H,
        fuel: u32,
    ) -> (r: Result<Value, LangError>)
        requires
            old(self).wf(),
        ensures
            final(self).wf(),
            stable(old(self)@, final(self)@),
            found_post(old(self)@, final(self)@, name@, found_view(found), r, fuel as nat),
            found_shape(old(self)@, final(self)@, name@, found_view(found), r, fuel as nat),
            r is Ok ==> final(self)@.packages.loaded.contains(name@),
        decreases fuel, 0u32,
    {
        match found {
            None => Err(LangError::ModuleNotFound(name.to_owned())),
            Some(Err(m)) => Err(LangError::NativeCall(m)),
            Some(Ok(text)) => {
                self.packages.mark_loaded(name);
                let ghost start = self@;
                assert(start == loaded_with(old(self)@, name@));
                let prog = match parse_program(text.as_str()) {
                    Ok(p) => p,
                    Err(e) => {
                        return Err(e);
                    },
                };
                if fuel == 0 {
                    return Err(LangError::TooDeep);
                }
                let top: Table<Value> = Table::new();
                let f1: u32 = fuel - 1;
                assert(f1 as nat == ((fuel as nat) - 1) as nat);
                let res = self.exec_block(&prog, &top, host, f1);
                let out = match res {
                    Ok(_) => Ok(Value::Null),
                    Err(e) => Err(e),
                };
                proof {
                    let (tr, rs) = choose|tr: Seq<EnvV>, rs: Seq<Result<Value, LangError>>|
                        #[trigger] block_run(start, self@, top@, prog@, tr, rs, res, f1 as nat);
                    assert(top@ == Map::<Seq<char>, Val>::empty());
                    assert(stmts_v(prog@) == program_of(text@)->Ok_0 && block_run(
                        start,
                        self@,
                        Map::empty(),
                        prog@,
                        tr,
                        rs,
                        res,
                        f1 as nat,
                    ) && (res is Ok ==> null_and(out)) && (res is Err ==> out == res));
                    assert(module_run(start, self@, text@, out, fuel as nat));
                }
                out
            },
        }
    }

    /// Loads module `name`: a loaded module is skipped, a built-in group is
    /// marked loaded, any other module's file is asked of the host under the
    /// search root and loaded as `load_module` says.
    pub fn require<H: Host>(&mut self, name: &str, host: &mut H, fuel: u32) -> (r: Result<Value, LangError>)
        requires
            old(self).wf(),
        ensures
            final(self).wf(),
            stable(old(self)@, final(self)@),
            require_post(old(self)@, final(self)@, name@, r, fuel as nat),
            require_effect(old(self)@, name@) is None ==> exists|found: Option<Result<Seq<char>, Seq<char>>>|
                #[trigger] found_post(old(self)@, final(self)@, name@, found, r, fuel as nat),
        decreases fuel, 2u32,
    {
        if self.packages.is_package_loaded(name) {
            return Ok(Value::Null);
        }
        if crate::package::builtin_module(name) {
            self.packages.mark_loaded(name);
            return Ok(Value::Null);
        }
        let found = host.find_module(self.packages.require_path(), name);
        let ghost fv = found_view(found);
        let r = self.load_module(name, found, host, fuel);
        assert(found_post(old(self)@, self@, name@, fv, r, fuel as nat));
        assert(found_shape(old(self)@, self@, name@, fv, r, fuel as nat));
        r
    }

    /// Executes one statement.
    pub fn exec_stmt<H: Host>(&mut self, s: &Stmt, frame: &Table<Value>, host: &mut H, fuel: u32) -> (r:
        Result<Value, LangError>)
        requires
            old(self).wf(),
            frame.wf(),
        ensures
            final(self).wf(),
            stable(old(self)@, final(self)@),
            stmt_post(old(self)@, final(self)@, frame@, *s, r, fuel as nat),
            s is If ==> if_post(old(self)@, final(self)@, frame@, s->If_0@, s->If_1@, s->If_2, r, fuel as nat),
        decreases fuel, 3u32,
    {
        match s {
            Stmt::Require(n) => self.require(n.as_str(), host, fuel),
            Stmt::VarDecl(n, e) => match e {
                Expr::Term(t) => match eval_term(&self.vars, frame, t) {
                    Ok(v) => {
                        self.vars.insert(n.clone(), v);
                        Ok(Value::Null)
                    },
                    Err(e) => Err(e),
                },
                Expr::Call(c, args) => {
                    let cr = self.call_function(c, args, frame, host, fuel);
                    let ghost mid = self@;
                    let ghost crg = cr;
                    match cr {
                        Ok(v) => {
                            self.vars.insert(n.clone(), v);
                            proof {
                                assert(call_full(old(self)@, mid, frame@, c@, arg_views(args@), crg, fuel as nat));
                            }
                            Ok(Value::Null)
                        },
                        Err(e) => {
                            proof {
                                assert(call_full(old(self)@, mid, frame@, c@, arg_views(args@), crg, fuel as nat));
                            }
                            Err(e)
                        },
                    }
                },
            },
            Stmt::Expr(e) => match e {
                Expr::Term(t) => eval_term(&self.vars, frame, t),
                Expr::Call(c, args) => self.call_function(c, args, frame, host, fuel),
            },
            Stmt::If(c, then_block, else_block) => {
                let b = match eval_condition(&self.vars, frame, c) {
                    Ok(b) => b,
                    Err(e) => {
                        return Err(e);
                    },
                };
                match choose_branch(b, then_block, else_block) {
                    None => Ok(Value::Null),
                    Some(block) => {
                        if fuel == 0 {
                            return Err(LangError::TooDeep);
                        }
                        let ghost pre = self@;
                        let f1: u32 = fuel - 1;
                        assert(f1 as nat == ((fuel as nat) - 1) as nat);
                        let res = self.exec_block(block, frame, host, f1);
                        proof {
                            let (tr, rs) = choose|tr: Seq<EnvV>, rs: Seq<Result<Value, LangError>>|
                                #[trigger] block_run(pre, self@, frame@, block@, tr, rs, res, f1 as nat);
                            assert(pre == old(self)@);
                            if b {
                                assert(block@ == then_block@);
                            } else {
                                assert(block@ == else_block->0@);
                            }
                            assert(block_run(
                                old(self)@,
                                self@,
                                frame@,
                                if b {
                                    then_block@
                                } else {
                                    else_block->0@
                                },
                                tr,
                                rs,
                                res,
                                f1 as nat,
                            ));
                            let blk = if b {
                                then_block@
                            } else {
                                else_block->0@
                            };
                            assert(selected(b, then_block@, *else_block) == Some(blk));
                            assert(cond_val(old(self)@.vars, frame@, c@) == Ok::<bool, Fault>(b));
                            assert(exists|tr2: Seq<EnvV>, rs2: Seq<Result<Value, LangError>>|
                                #[trigger] block_run(old(self)@, self@, frame@, blk, tr2, rs2, res, ((fuel as nat) - 1) as nat));
                            assert(cond_val(old(self)@.vars, frame@, c@)->Ok_0 == b);
                            assert(selected(cond_val(old(self)@.vars, frame@, c@)->Ok_0, then_block@, *else_block)->0 == blk);
                            assert(fuel as nat > 0);
                            assert(if_post(old(self)@, self@, frame@, c@, then_block@, *else_block, res, fuel as nat));
                        }
                        res
                    },
                }
            },
            Stmt::FuncDef(n, body) => {
                self.funcs.insert(n.clone(), Rc::clone(body));
                Ok(Value::Null)
            },
        }
    }

    /// Executes statements in order until one fails; the value is that of the
    /// last statement (`Null` for an empty block).
    pub fn exec_block<H: Host>(&mut self, b: &Vec<Stmt>, frame: &Table<Value>, host: &mut H, fuel: u32) -> (r:
        Result<Value, LangError>)
        requires
            old(self).wf(),
            frame.wf(),
        ensures
            final(self).wf(),
            stable(old(self)@, final(self)@),
            b@.len() == 0 ==> null_and(r) && final(self)@ == old(self)@,
            exists|tr: Seq<EnvV>, rs: Seq<Result<Value, LangError>>|
                #[trigger] block_run(old(self)@, final(self)@, frame@, b@, tr, rs, r, fuel as nat),
        decreases fuel, 4u32,
    {
        let mut last = Value::Null;
        let mut i: usize = 0;
        let ghost start = self@;
        let ghost mut tr: Seq<EnvV> = seq![self@];
        let ghost mut rs: Seq<Result<Value, LangError>> = Seq::empty();
        while i < b.len()
            invariant
                self.wf(),
                frame.wf(),
                i <= b@.len(),
                start == old(self)@,
                stable(start, self@),
                i == 0 ==> self@ == start && last@ == Val::Null,
                tr.len() == i + 1,
                rs.len() == i,
                tr[0] == start,
                tr.last() == self@,
                forall|k: int| 0 <= k < i ==> stmt_post(tr[k], tr[k + 1], frame@, b@[k], #[trigger] rs[k], fuel as nat),
                forall|k: int| 0 <= k < i ==> (#[trigger] rs[k]) is Ok,
                i > 0 ==> rs.last() == Ok::<Value, LangError>(last),
            decreases b@.len() - i,
        {
            let ghost pre = self@;
            let res = self.exec_stmt(&b[i], frame, host, fuel);
            proof {
                lemma_stable_trans(start, pre, self@);
                tr = tr.push(self@);
                rs = rs.push(res);
            }
            match res {
                Ok(v) => {
                    last = v;
                },
                Err(e) => {
                    proof {
                        assert(block_run(start, self@, frame@, b@, tr, rs, Err::<Value, LangError>(e), fuel as nat));
                    }
                    return Err(e);
                },
            }
            i = i + 1;
        }
        proof {
            assert(block_run(start, self@, frame@, b@, tr, rs, Ok::<Value, LangError>(last), fuel as nat));
        }
        Ok(last)
    }

    /// Parses and runs a source unit in this session. Nothing runs when the
    /// text does not parse. The value is that of the last statement.
    pub fn run<H: Host>(&mut self, src: &str, host: &mut H) -> (r: Result<Value, LangError>)
        requires
            old(self).wf(),
        ensures
            final(self).wf(),
            stable(old(self)@, final(self)@),
            program_of(src@) is Err ==> failed_with(r, program_of(src@)->Err_0) && final(self)@ == old(
                self,
            )@,
            program_of(src@) is Ok ==> exists|
                prog: Seq<Stmt>,
                tr: Seq<EnvV>,
                rs: Seq<Result<Value, LangError>>,
            |
                stmts_v(prog) == program_of(src@)->Ok_0 && block_run(
                    old(self)@,
                    final(self)@,
                    Map::empty(),
                    prog,
                    tr,
                    rs,
                    r,
                    MAX_DEPTH as nat,
                ),
    {
        let prog = match parse_program(src) {
            Ok(p) => p,
            Err(e) => {
                return Err(e);
            },
        };
        let top: Table<Value> = Table::new();
        let ghost pre = self@;
        let res = self.exec_block(&prog, &top, host, MAX_DEPTH);
        proof {
            let (tr, rs) = choose|tr: Seq<EnvV>, rs: Seq<Result<Value, LangError>>|
                #[trigger] block_run(pre, self@, top@, prog@, tr, rs, res, MAX_DEPTH as nat);
            assert(top@ == Map::<Seq<char>, Val>::empty());
            assert(stmts_v(prog@) == program_of(src@)->Ok_0 && block_run(
                old(self)@,
                self@,
                Map::empty(),
                prog@,
                tr,
                rs,
                res,
                MAX_DEPTH as nat,
            ));
        }
        res
    }
}

} // verus!

verus! {

/// Rebinding a variable: after `var(x) = int:N`, the term `var(x) + int:1`
/// is the text of N followed by `1`, and binding it leaves exactly the last
/// assignment: the variables as they were with only `x` rebound.
pub proof fn lemma_rebinding(vars: Map<Seq<char>, Val>, frame: Map<Seq<char>, Val>, x: Seq<char>, n: i64)
    ensures
        term_val(vars.insert(x, Val::Int(n)), frame, seq![AtomV::Var(x), AtomV::Lit(Val::Int(1))]) == Ok::<
            Val,
            Fault,
        >(Val::Text(decimal(n as int) + seq!['1'])),
        ({
            let v = Val::Text(decimal(n as int) + seq!['1']);
            vars.insert(x, Val::Int(n)).insert(x, v) == vars.insert(x, v)
        }),
{
    let v1 = vars.insert(x, Val::Int(n));
    let t = seq![AtomV::Var(x), AtomV::Lit(Val::Int(1))];
    assert(t.drop_last() =~= seq![AtomV::Var(x)]);
    let vs = seq![Val::Int(n), Val::Int(1)];
    assert(atoms_val(v1, frame, Seq::<AtomV>::empty()) == Ok::<Seq<Val>, Fault>(Seq::<Val>::empty()));
    assert(v1.contains_key(x) && v1[x] == Val::Int(n));
    assert(atom_val(v1, frame, AtomV::Var(x)) == Ok::<Val, Fault>(Val::Int(n)));
    assert(seq![AtomV::Var(x)].last() == AtomV::Var(x));
    assert(seq![AtomV::Var(x)].drop_last() =~= Seq::<AtomV>::empty());
    assert(Seq::<Val>::empty().push(Val::Int(n)) =~= seq![Val::Int(n)]);
    assert(atoms_val(v1, frame, t.drop_last()) == Ok::<Seq<Val>, Fault>(seq![Val::Int(n)]));
    assert(t.last() == AtomV::Lit(Val::Int(1)));
    assert(seq![Val::Int(n)].push(Val::Int(1)) =~= vs);
    assert(vs.drop_last() =~= seq![Val::Int(n)]);
    assert(seq![Val::Int(n)].drop_last() =~= Seq::<Val>::empty());
    assert(joined(Seq::<Val>::empty()) =~= Seq::<char>::empty());
    assert(joined(seq![Val::Int(n)]) =~= decimal(n as int));
    assert(display(Val::Int(1)) =~= seq!['1']) by {
        reveal_with_fuel(crate::value::nat_digits, 2);
    }
    assert(joined(vs) =~= decimal(n as int) + seq!['1']);
    let v = Val::Text(decimal(n as int) + seq!['1']);
    assert(v1.insert(x, v) =~= vars.insert(x, v));
}

/// Requiring a module twice has the effect of requiring it once: once a
/// module is loaded, `require` changes nothing; and the host-independent
/// effect applied twice equals applying it once.
pub proof fn lemma_require_idempotent(e: EnvV, name: Seq<char>)
    ensures
        e.packages.loaded.contains(name) ==> require_effect(e, name) == Some(e),
        require_effect(e, name) is Some ==> require_effect(require_effect(e, name)->0, name)
            == require_effect(e, name),
{
}

} // verus!
