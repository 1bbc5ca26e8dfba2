//! Register tables, the bytecode compiler, constant folding, and the stack
//! machine that runs compiled formulas.
//!
//! A binary node `Binary(lhs, op, rhs)` compiles to the code of `rhs`, then
//! the code of `lhs`, then the opcode; the machine's binary opcodes pop the
//! left operand first. Together the two conventions evaluate `lhs op rhs`.
use vstd::prelude::*;
use vstd::string::StrSliceExecFns;

use crate::fixed::{fx_add, fx_cos, fx_div, fx_mul, fx_sin, fx_sqrt, fx_sub, Fixed};
use crate::parser::{expr_view, is_char_text, Expr, SExpr};

verus! {

broadcast use vstd::std_specs::vec::axiom_vec_index_decreases;

/// A name-to-register table: each variable names a slot of the input vector.
#[derive(Debug)]
pub struct Registers {
    entries: Vec<(String, usize)>,
}

/// The slot bound to `k` by the latest entry that names it.
pub open spec fn reg_lookup(e: Seq<(String, usize)>, k: Seq<char>) -> Option<usize>
    decreases e.len(),
{
    if e.len() == 0 {
        None
    } else if e.last().0@ == k {
        Some(e.last().1)
    } else {
        reg_lookup(e.drop_last(), k)
    }
}

impl View for Registers {
    type V = Map<Seq<char>, usize>;

    closed spec fn view(&self) -> Map<Seq<char>, usize> {
        Map::new(
            |k: Seq<char>| reg_lookup(self.entries@, k) is Some,
            |k: Seq<char>| reg_lookup(self.entries@, k)->Some_0,
        )
    }
}

impl Registers {
    /// An empty table.
    pub fn new() -> (r: Registers)
        ensures
            r@ == Map::<Seq<char>, usize>::empty(),
    {
        let r = Registers { entries: Vec::new() };
        assert(r@ =~= Map::<Seq<char>, usize>::empty());
        r
    }

    /// Binds `name` to slot `index`, replacing an earlier binding.
    pub fn insert(&mut self, name: &str, index: usize)
        ensures
            final(self)@ == old(self)@.insert(name@, index),
    {
        let ghost before = self@;
        self.entries.push((name.to_owned(), index));
        assert(self@ =~= before.insert(name@, index)) by {
            assert(self.entries@.drop_last() =~= old(self).entries@);
        }
    }

    /// The slot bound to `name`, if any.
    pub fn get(&self, name: &String) -> (r: Option<usize>)
        ensures
            r == (if self@.contains_key(name@) {
                Some(self@[name@])
            } else {
                None::<usize>
            }),
    {
        let mut i = self.entries.len();
        assert(self.entries@.subrange(0, i as int) =~= self.entries@);
        while i > 0
            invariant
                i <= self.entries.len(),
                reg_lookup(self.entries@, name@) == reg_lookup(self.entries@.subrange(0, i as int), name@),
            decreases i,
        {
            let ghost pre = self.entries@.subrange(0, i as int);
            assert(pre.drop_last() =~= self.entries@.subrange(0, i - 1));
            if self.entries[i - 1].0 == *name {
                return Some(self.entries[i - 1].1);
            }
            i = i - 1;
        }
        assert(self.entries@.subrange(0, 0) =~= Seq::<(String, usize)>::empty());
        None
    }
}

/// An instruction of the stack machine.
#[derive(Clone, Debug)]
pub enum Opcode {
    Push(Fixed),
    Load(usize),
    Add,
    Sub,
    Mul,
    Div,
    Call(String),
}

/// The mathematical model of an instruction.
pub ghost enum SOp {
    Push(Fixed),
    Load(int),
    Add,
    Sub,
    Mul,
    Div,
    Call(Seq<char>),
}

impl View for Opcode {
    type V = SOp;

    open spec fn view(&self) -> SOp {
        match self {
            Opcode::Push(n) => SOp::Push(*n),
            Opcode::Load(i) => SOp::Load(*i as int),
            Opcode::Add => SOp::Add,
            Opcode::Sub => SOp::Sub,
            Opcode::Mul => SOp::Mul,
            Opcode::Div => SOp::Div,
            Opcode::Call(s) => SOp::Call(s@),
        }
    }
}

pub open spec fn op_views(p: Seq<Opcode>) -> Seq<SOp> {
    p.map_values(|o: Opcode| o@)
}

/// The unary function that a call names: `sin`, `cos` and `sqrt`; any other
/// name leaves its argument as it is.
pub open spec fn apply_call(name: Seq<char>, x: Fixed) -> Fixed {
    if name == seq!['s', 'i', 'n'] {
        fx_sin(x)
    } else if name == seq!['c', 'o', 's'] {
        fx_cos(x)
    } else if name == seq!['s', 'q', 'r', 't'] {
        fx_sqrt(x)
    } else {
        x
    }
}

/// Whether a call name is one of the built-in unary functions.
pub open spec fn is_builtin(name: Seq<char>) -> bool {
    name == seq!['s', 'i', 'n'] || name == seq!['c', 'o', 's'] || name == seq!['s', 'q', 'r', 't']
}

/// A binary opcode applied to its left operand `a` and right operand `b`.
pub open spec fn apply_arith(op: SOp, a: Fixed, b: Fixed) -> Fixed {
    match op {
        SOp::Add => fx_add(a, b),
        SOp::Sub => fx_sub(a, b),
        SOp::Mul => fx_mul(a, b),
        _ => fx_div(a, b),
    }
}

pub open spec fn is_arith(op: SOp) -> bool {
    op is Add || op is Sub || op is Mul || op is Div
}

/// One instruction on a stack; `None` when it needs more operands than the
/// stack holds or loads past the inputs.
pub open spec fn step(op: SOp, st: Seq<Fixed>, inputs: Seq<Fixed>) -> Option<Seq<Fixed>> {
    match op {
        SOp::Push(n) => Some(st.push(n)),
        SOp::Load(i) => if 0 <= i < inputs.len() {
            Some(st.push(inputs[i]))
        } else {
            None
        },
        SOp::Call(name) => if !is_builtin(name) {
            Some(st)
        } else if st.len() >= 1 {
            Some(st.drop_last().push(apply_call(name, st.last())))
        } else {
            None
        },
        _ => if st.len() >= 2 {
            let n = st.len() as int;
            Some(st.subrange(0, n - 2).push(apply_arith(op, st[n - 1], st[n - 2])))
        } else {
            None
        },
    }
}

/// Runs a program from stack `st`.
pub open spec fn exec_prog(prog: Seq<SOp>, st: Seq<Fixed>, inputs: Seq<Fixed>) -> Option<Seq<Fixed>>
    decreases prog.len(),
{
    if prog.len() == 0 {
        Some(st)
    } else {
        match exec_prog(prog.drop_last(), st, inputs) {
            Some(s) => step(prog.last(), s, inputs),
            None => None,
        }
    }
}

/// Stack depth after a program that starts from depth `d`, or `None` when it
/// would pop an empty stack.
pub open spec fn depth_after(prog: Seq<SOp>, d: int) -> Option<int>
    decreases prog.len(),
{
    if prog.len() == 0 {
        Some(d)
    } else {
        match depth_after(prog.drop_last(), d) {
            Some(k) => match prog.last() {
                SOp::Push(_) => Some(k + 1),
                SOp::Load(_) => Some(k + 1),
                SOp::Call(name) => if !is_builtin(name) {
                    Some(k)
                } else if k >= 1 {
                    Some(k)
                } else {
                    None
                },
                _ => if k >= 2 {
                    Some(k - 1)
                } else {
                    None
                },
            },
            None => None,
        }
    }
}

/// Every `Load` of the program reads a slot below `n`.
pub open spec fn loads_below(prog: Seq<SOp>, n: int) -> bool {
    forall|i: int| 0 <= i < prog.len() ==> (#[trigger] prog[i] matches SOp::Load(k) ==> 0 <= k < n)
}

/// Why an expression could not be compiled.
#[derive(Clone, Copy, PartialEq, Eq, Structural, Debug)]
pub enum CompileError {
    /// A variable that the register table does not bind.
    UnknownVariable,
}

/// The opcode of an arithmetic operator.
pub open spec fn arith_of(op: Seq<char>) -> Option<SOp> {
    if op == seq!['+'] {
        Some(SOp::Add)
    } else if op == seq!['-'] {
        Some(SOp::Sub)
    } else if op == seq!['*'] {
        Some(SOp::Mul)
    } else if op == seq!['/'] {
        Some(SOp::Div)
    } else {
        None
    }
}

/// The opcode of a binary operator: an arithmetic opcode, or a call named
/// by the operator.
pub open spec fn op_code(op: Seq<char>) -> SOp {
    match arith_of(op) {
        Some(c) => c,
        None => SOp::Call(op),
    }
}

/// The program an expression compiles to against a register table: a
/// number is pushed, a variable loaded from its register, a call compiles
/// its arguments left to right and then calls, and a binary node compiles
/// its right operand, then its left one, then its operator.
pub open spec fn compile_spec(e: SExpr, regs: Map<Seq<char>, usize>) -> Result<
    Seq<SOp>,
    CompileError,
>
    decreases e, 1nat, 0int,
{
    match e {
        SExpr::Number(n) => Ok(seq![SOp::Push(n)]),
        SExpr::Variable(x) => if regs.contains_key(x) {
            Ok(seq![SOp::Load(regs[x] as int)])
        } else {
            Err(CompileError::UnknownVariable)
        },
        SExpr::Call(name, args) => match compile_args(e, args.len() as int, regs) {
            Ok(p) => Ok(p.push(SOp::Call(name))),
            Err(x) => Err(x),
        },
        SExpr::Binary(l, op, r) => match compile_spec(*r, regs) {
            Err(x) => Err(x),
            Ok(pr) => match compile_spec(*l, regs) {
                Err(x) => Err(x),
                Ok(pl) => Ok(pr + pl + seq![op_code(op)]),
            },
        },
    }
}

/// The programs of the first `n` arguments of a call, concatenated.
pub open spec fn compile_args(e: SExpr, n: int, regs: Map<Seq<char>, usize>) -> Result<
    Seq<SOp>,
    CompileError,
>
    decreases e, 0nat, n,
{
    match e {
        SExpr::Call(_, args) => if n <= 0 || n > args.len() {
            Ok(seq![])
        } else {
            match compile_args(e, n - 1, regs) {
                Err(x) => Err(x),
                Ok(p) => match compile_spec(args[n - 1], regs) {
                    Ok(q) => Ok(p + q),
                    Err(x) => Err(x),
                },
            }
        },
        _ => Ok(seq![]),
    }
}

/// Whether every call of an expression has one argument and every binary
/// operator is arithmetic: exactly the expressions whose programs leave one
/// value.
pub open spec fn simple(e: SExpr) -> bool
    decreases e,
{
    match e {
        SExpr::Number(_) => true,
        SExpr::Variable(_) => true,
        SExpr::Call(_, args) => args.len() == 1 && simple(args[0]),
        SExpr::Binary(l, op, r) => arith_of(op) is Some && simple(*l) && simple(*r),
    }
}

/// The value of an expression whose variables read `inputs` through `regs`.
pub open spec fn eval(e: SExpr, regs: Map<Seq<char>, usize>, inputs: Seq<Fixed>) -> Fixed
    decreases e,
{
    match e {
        SExpr::Number(n) => n,
        SExpr::Variable(x) => inputs[regs[x] as int],
        SExpr::Call(name, args) => if args.len() == 1 {
            apply_call(name, eval(args[0], regs, inputs))
        } else {
            Fixed { raw: 0 }
        },
        SExpr::Binary(l, op, r) => match arith_of(op) {
            Some(code) => apply_arith(code, eval(*l, regs, inputs), eval(*r, regs, inputs)),
            None => Fixed { raw: 0 },
        },
    }
}

/// Every slot of the table lies below `n`.
pub open spec fn slots_below(regs: Map<Seq<char>, usize>, n: int) -> bool {
    forall|k: Seq<char>| #[trigger] regs.contains_key(k) ==> regs[k] < n
}

/// Constant folding: a binary node whose folded operands are both numbers
/// becomes one number; every other node is kept as it is.
pub open spec fn optimize_spec(e: SExpr) -> SExpr
    decreases e,
{
    match e {
        SExpr::Binary(l, op, r) => match (optimize_spec(*l), optimize_spec(*r)) {
            (SExpr::Number(a), SExpr::Number(b)) => match arith_of(op) {
                Some(code) => SExpr::Number(apply_arith(code, a, b)),
                None => SExpr::Binary(Box::new(SExpr::Number(a)), op, Box::new(SExpr::Number(b))),
            },
            _ => e,
        },
        _ => e,
    }
}

proof fn lemma_exec_append(p: Seq<SOp>, q: Seq<SOp>, st: Seq<Fixed>, inputs: Seq<Fixed>)
    ensures
        exec_prog(p + q, st, inputs) == match exec_prog(p, st, inputs) {
            Some(s) => exec_prog(q, s, inputs),
            None => None,
        },
    decreases q.len(),
{
    if q.len() == 0 {
        assert(p + q =~= p);
    } else {
        assert((p + q).drop_last() =~= p + q.drop_last());
        lemma_exec_append(p, q.drop_last(), st, inputs);
        assert((p + q).last() == q.last());
        if exec_prog(p, st, inputs) is None {
            assert(exec_prog(p + q, st, inputs) is None);
        }
    }
}

proof fn lemma_depth_append(p: Seq<SOp>, q: Seq<SOp>, d: int)
    ensures
        depth_after(p + q, d) == match depth_after(p, d) {
            Some(k) => depth_after(q, k),
            None => None,
        },
    decreases q.len(),
{
    if q.len() == 0 {
        assert(p + q =~= p);
    } else {
        assert((p + q).drop_last() =~= p + q.drop_last());
        lemma_depth_append(p, q.drop_last(), d);
        assert((p + q).last() == q.last());
        if depth_after(p, d) is None {
            assert(depth_after(p + q, d) is None);
        }
    }
}

/// A compiled simple expression raises the stack depth by exactly one and
/// never pops below where it started.
proof fn lemma_compile_depth(e: SExpr, regs: Map<Seq<char>, usize>, d: int)
    requires
        compile_spec(e, regs) is Ok,
        simple(e),
        d >= 0,
    ensures
        depth_after(compile_spec(e, regs)->Ok_0, d) == Some(d + 1),
    decreases e,
{
    let p = compile_spec(e, regs)->Ok_0;
    match e {
        SExpr::Number(n) => {
            assert(p.len() == 1);
            assert(p.drop_last() =~= Seq::<SOp>::empty());
            assert(depth_after(p.drop_last(), d) == Some(d));
            assert(p.last() is Push || p.last() is Load);
            assert(depth_after(p, d) == Some(d + 1));
        },
        SExpr::Variable(x) => {
            assert(p.len() == 1);
            assert(p.drop_last() =~= Seq::<SOp>::empty());
            assert(depth_after(p.drop_last(), d) == Some(d));
            assert(p.last() is Push || p.last() is Load);
            assert(depth_after(p, d) == Some(d + 1));
        },
        SExpr::Call(name, args) => {
            assert(compile_args(e, 0, regs) == Ok::<Seq<SOp>, CompileError>(seq![]));
            assert(compile_args(e, 1, regs) is Ok);
            lemma_compile_depth(args[0], regs, d);
            let pa = compile_spec(args[0], regs)->Ok_0;
            assert(Seq::<SOp>::empty() + pa =~= pa);
            assert(p.drop_last() =~= pa);
            assert(p.last() is Call);
        },
        SExpr::Binary(l, op, r) => {
            let code = op_code(op);
            let pr = compile_spec(*r, regs)->Ok_0;
            let pl = compile_spec(*l, regs)->Ok_0;
            lemma_compile_depth(*r, regs, d);
            lemma_compile_depth(*l, regs, d + 1);
            assert(p == pr + pl + seq![code]);
            assert(depth_after(pr + pl, d) == Some(d + 2)) by {
                lemma_depth_append(pr, pl, d);
            }
            lemma_depth_append(pr + pl, seq![code], d);
            assert(seq![code].drop_last() =~= Seq::<SOp>::empty());
            assert(depth_after(Seq::<SOp>::empty(), d + 2) == Some(d + 2));
        },
    }
}

/// A compiled simple expression pushes exactly its value on any stack,
/// given inputs that cover the register table.
pub proof fn lemma_compile_correct(e: SExpr, regs: Map<Seq<char>, usize>, inputs: Seq<Fixed>, st: Seq<Fixed>)
    requires
        compile_spec(e, regs) is Ok,
        simple(e),
        slots_below(regs, inputs.len() as int),
    ensures
        exec_prog(compile_spec(e, regs)->Ok_0, st, inputs) == Some(st.push(eval(e, regs, inputs))),
    decreases e,
{
    let p = compile_spec(e, regs)->Ok_0;
    match e {
        SExpr::Number(n) => {
            assert(p.len() == 1);
            assert(p.drop_last() =~= Seq::<SOp>::empty());
            assert(exec_prog(p.drop_last(), st, inputs) == Some(st));
            assert(p.last() is Push || p.last() is Load);
            assert(exec_prog(p, st, inputs) == Some(st.push(eval(e, regs, inputs))));
        },
        SExpr::Variable(x) => {
            assert(p.len() == 1);
            assert(p.drop_last() =~= Seq::<SOp>::empty());
            assert(exec_prog(p.drop_last(), st, inputs) == Some(st));
            assert(p.last() is Push || p.last() is Load);
            assert(exec_prog(p, st, inputs) == Some(st.push(eval(e, regs, inputs))));
        },
        SExpr::Call(name, args) => {
            let a = args[0];
            assert(compile_args(e, 0, regs) == Ok::<Seq<SOp>, CompileError>(seq![]));
            assert(compile_args(e, 1, regs) is Ok);
            lemma_compile_correct(a, regs, inputs, st);
            let pa = compile_spec(a, regs)->Ok_0;
            assert(Seq::<SOp>::empty() + pa =~= pa);
            assert(p.drop_last() =~= pa);
            let v = eval(a, regs, inputs);
            assert(st.push(v).drop_last() =~= st);
        },
        SExpr::Binary(l, op, r) => {
            let code = op_code(op);
            let pr = compile_spec(*r, regs)->Ok_0;
            let pl = compile_spec(*l, regs)->Ok_0;
            let vr = eval(*r, regs, inputs);
            let vl = eval(*l, regs, inputs);
            lemma_compile_correct(*r, regs, inputs, st);
            lemma_compile_correct(*l, regs, inputs, st.push(vr));
            lemma_exec_append(pr, pl, st, inputs);
            lemma_exec_append(pr + pl, seq![code], st, inputs);
            let s2 = st.push(vr).push(vl);
            assert(seq![code].drop_last() =~= Seq::<SOp>::empty());
            assert(exec_prog(Seq::<SOp>::empty(), s2, inputs) == Some(s2));
            assert(s2.subrange(0, s2.len() - 2) =~= st);
        },
    }
}

/// Every load of a compiled expression reads a slot of the table.
proof fn lemma_compile_loads(e: SExpr, regs: Map<Seq<char>, usize>, n: int)
    requires
        compile_spec(e, regs) is Ok,
        slots_below(regs, n),
    ensures
        loads_below(compile_spec(e, regs)->Ok_0, n),
    decreases e, 1nat, 0int,
{
    let p = compile_spec(e, regs)->Ok_0;
    match e {
        SExpr::Number(_) => {},
        SExpr::Variable(x) => {},
        SExpr::Call(name, args) => {
            let pa = compile_args(e, args.len() as int, regs)->Ok_0;
            lemma_args_loads(e, args.len() as int, regs, n);
            assert forall|i: int| 0 <= i < p.len() implies (#[trigger] p[i] matches SOp::Load(k)
                ==> 0 <= k < n) by {
                if i < pa.len() {
                    assert(p[i] == pa[i]);
                }
            }
        },
        SExpr::Binary(l, op, r) => {
            let pr = compile_spec(*r, regs)->Ok_0;
            let pl = compile_spec(*l, regs)->Ok_0;
            lemma_compile_loads(*r, regs, n);
            lemma_compile_loads(*l, regs, n);
            assert forall|i: int| 0 <= i < p.len() implies (#[trigger] p[i] matches SOp::Load(k)
                ==> 0 <= k < n) by {
                if i < pr.len() {
                    assert(p[i] == pr[i]);
                } else if i < pr.len() + pl.len() {
                    assert(p[i] == pl[i - pr.len()]);
                }
            }
        },
    }
}

proof fn lemma_args_loads(e: SExpr, m: int, regs: Map<Seq<char>, usize>, n: int)
    requires
        compile_args(e, m, regs) is Ok,
        slots_below(regs, n),
    ensures
        loads_below(compile_args(e, m, regs)->Ok_0, n),
    decreases e, 0nat, m,
{
    if let SExpr::Call(_, args) = e {
        if 0 < m <= args.len() {
            lemma_args_loads(e, m - 1, regs, n);
            lemma_compile_loads(args[m - 1], regs, n);
            let p = compile_args(e, m - 1, regs)->Ok_0;
            let q = compile_spec(args[m - 1], regs)->Ok_0;
            assert forall|i: int| 0 <= i < (p + q).len() implies (#[trigger] (p + q)[i] matches SOp::Load(k)
                ==> 0 <= k < n) by {
                if i < p.len() {
                    assert((p + q)[i] == p[i]);
                } else {
                    assert((p + q)[i] == q[i - p.len()]);
                }
            }
        }
    }
}

/// An error among the first `m` arguments is the error of the first `k`.
proof fn lemma_args_err(e: SExpr, m: int, k: int, regs: Map<Seq<char>, usize>)
    requires
        0 <= m <= k,
        e is Call,
        k <= e->Call_1.len(),
        compile_args(e, m, regs) is Err,
    ensures
        compile_args(e, k, regs) == compile_args(e, m, regs),
    decreases k - m,
{
    if k > m {
        lemma_args_err(e, m, k - 1, regs);
    }
}

/// A subtree that folds to a number compiles to code that pushes that
/// number.
proof fn lemma_fold_constant(x: SExpr, regs: Map<Seq<char>, usize>, inputs: Seq<Fixed>, st: Seq<Fixed>)
    requires
        optimize_spec(x) is Number,
    ensures
        compile_spec(x, regs) is Ok,
        exec_prog(compile_spec(x, regs)->Ok_0, st, inputs) == Some(st.push(optimize_spec(x)->Number_0)),
    decreases x,
{
    match x {
        SExpr::Number(n) => {
            let p = compile_spec(x, regs)->Ok_0;
            assert(p.drop_last() =~= Seq::<SOp>::empty());
            assert(exec_prog(p.drop_last(), st, inputs) == Some(st));
        },
        SExpr::Binary(l, op, r) => {
            let b = optimize_spec(*r)->Number_0;
            let a = optimize_spec(*l)->Number_0;
            lemma_fold_constant(*r, regs, inputs, st);
            lemma_fold_constant(*l, regs, inputs, st.push(b));
            let code = op_code(op);
            let pr = compile_spec(*r, regs)->Ok_0;
            let pl = compile_spec(*l, regs)->Ok_0;
            lemma_exec_append(pr, pl, st, inputs);
            lemma_exec_append(pr + pl, seq![code], st, inputs);
            let s2 = st.push(b).push(a);
            assert(seq![code].drop_last() =~= Seq::<SOp>::empty());
            assert(exec_prog(Seq::<SOp>::empty(), s2, inputs) == Some(s2));
            assert(s2.subrange(0, s2.len() - 2) =~= st);
        },
        _ => {},
    }
}

/// Constant folding preserves what a formula computes: whenever an
/// expression compiles, its folded form compiles too, and on every input
/// vector the two programs run to the same result.
pub proof fn lemma_optimize_preserves_run(e: SExpr, regs: Map<Seq<char>, usize>, inputs: Seq<Fixed>)
    requires
        compile_spec(e, regs) is Ok,
    ensures
        compile_spec(optimize_spec(e), regs) is Ok,
        exec_prog(compile_spec(optimize_spec(e), regs)->Ok_0, seq![], inputs) == exec_prog(
            compile_spec(e, regs)->Ok_0,
            seq![],
            inputs,
        ),
{
    let st = Seq::<Fixed>::empty();
    if optimize_spec(e) is Number {
        lemma_fold_constant(e, regs, inputs, st);
        let p = compile_spec(optimize_spec(e), regs)->Ok_0;
        assert(p.drop_last() =~= Seq::<SOp>::empty());
        assert(exec_prog(p.drop_last(), st, inputs) == Some(st));
    } else if let SExpr::Binary(l, op, r) = e {
        if optimize_spec(*l) is Number && optimize_spec(*r) is Number {
            let b = optimize_spec(*r)->Number_0;
            let a = optimize_spec(*l)->Number_0;
            lemma_fold_constant(*r, regs, inputs, st);
            lemma_fold_constant(*l, regs, inputs, st.push(b));
            let code = op_code(op);
            let pr = compile_spec(*r, regs)->Ok_0;
            let pl = compile_spec(*l, regs)->Ok_0;
            let qr = seq![SOp::Push(b)];
            let ql = seq![SOp::Push(a)];
            assert(qr.drop_last() =~= Seq::<SOp>::empty());
            assert(ql.drop_last() =~= Seq::<SOp>::empty());
            assert(exec_prog(Seq::<SOp>::empty(), st, inputs) == Some(st));
            assert(exec_prog(Seq::<SOp>::empty(), st.push(b), inputs) == Some(st.push(b)));
            assert(compile_spec(SExpr::Number(b), regs) == Ok::<Seq<SOp>, CompileError>(qr));
            assert(compile_spec(SExpr::Number(a), regs) == Ok::<Seq<SOp>, CompileError>(ql));
            assert(compile_spec(optimize_spec(e), regs)->Ok_0 == qr + ql + seq![code]);
            lemma_exec_append(pr, pl, st, inputs);
            lemma_exec_append(pr + pl, seq![code], st, inputs);
            lemma_exec_append(qr, ql, st, inputs);
            lemma_exec_append(qr + ql, seq![code], st, inputs);
        } else {
            assert(optimize_spec(e) == e);
        }
    } else {
        assert(optimize_spec(e) == e);
    }
}

/// A program whose prefix pops an empty stack pops one too.
proof fn lemma_depth_none(prog: Seq<SOp>, i: int)
    requires
        0 <= i <= prog.len(),
        depth_after(prog.take(i), 0) is None,
    ensures
        depth_after(prog, 0) is None,
{
    if depth_after(prog, 0) is Some {
        lemma_depth_prefix(prog, i, 0);
    }
}

proof fn lemma_depth_prefix(prog: Seq<SOp>, i: int, d: int)
    requires
        0 <= i <= prog.len(),
        depth_after(prog, d) is Some,
    ensures
        depth_after(prog.take(i), d) is Some,
    decreases prog.len(),
{
    if i < prog.len() {
        assert(prog.drop_last().take(i) =~= prog.take(i));
        lemma_depth_prefix(prog.drop_last(), i, d);
    } else {
        assert(prog.take(i) =~= prog);
    }
}

/// A compiled formula, ready to run.
#[derive(Debug)]
pub struct VM {
    pub instructions: Vec<Opcode>,
}

/// The value a balanced program leaves on an input vector.
pub open spec fn formula_value(vm: VM, inputs: Seq<Fixed>) -> Fixed {
    exec_prog(vm.program(), seq![], inputs)->Some_0[0]
}

impl VM {
    pub open spec fn program(&self) -> Seq<SOp> {
        op_views(self.instructions@)
    }

    /// The program leaves exactly one value, whatever the inputs.
    pub open spec fn balanced(&self) -> bool {
        depth_after(self.program(), 0) == Some(1int)
    }

    /// Compiles an expression against a register table; fails only on a
    /// variable that the table does not bind. The program of a simple
    /// expression is balanced; others may not be, which `is_balanced` tells.
    pub fn compile(target: Expr, registers: &Registers) -> (r: Result<VM, CompileError>)
        ensures
            match compile_spec(target@, registers@) {
                Ok(p) => r is Ok && r->Ok_0.program() == p && (simple(target@) ==> r->Ok_0.balanced())
                    && forall|n: int| slots_below(registers@, n) ==> #[trigger] loads_below(p, n),
                Err(x) => r == Err::<VM, CompileError>(x),
            },
    {
        let mut out: Vec<Opcode> = Vec::new();
        assert(op_views(out@) =~= seq![]);
        match compile_expr(&target, registers, &mut out) {
            Ok(()) => {
                proof {
                    assert(op_views(out@) =~= compile_spec(target@, registers@)->Ok_0);
                    if simple(target@) {
                        lemma_compile_depth(target@, registers@, 0);
                    }
                    assert forall|n: int| slots_below(registers@, n) implies #[trigger] loads_below(
                        compile_spec(target@, registers@)->Ok_0,
                        n,
                    ) by {
                        lemma_compile_loads(target@, registers@, n);
                    }
                }
                Ok(VM { instructions: out })
            },
            Err(x) => Err(x),
        }
    }

    /// Folds constant subtrees of an expression.
    pub fn optimize(target: Expr) -> (r: Expr)
        ensures
            r@ == optimize_spec(target@),
    {
        let ghost t = target@;
        match target {
            Expr::Binary(lhs, op, rhs) => {
                assert(t == SExpr::Binary(Box::new(lhs@), op@, Box::new(rhs@)));
                let a = folded(&lhs);
                let b = folded(&rhs);
                match (a, b) {
                    (Some(a), Some(b)) => match arith_code(&op) {
                        Some(code) => {
                            let v = apply_arith_exec(&code, a, b);
                            assert(optimize_spec(t) == SExpr::Number(v));
                            Expr::Number(v)
                        },
                        None => {
                            let na = Expr::Number(a);
                            let nb = Expr::Number(b);
                            assert(na@ == SExpr::Number(a));
                            assert(nb@ == SExpr::Number(b));
                            let e = Expr::Binary(Box::new(na), op, Box::new(nb));
                            assert(e@ == optimize_spec(t));
                            e
                        },
                    },
                    _ => {
                        let e = Expr::Binary(lhs, op, rhs);
                        assert(e@ == t);
                        assert(optimize_spec(t) == t);
                        e
                    },
                }
            },
            other => {
                assert(!(t is Binary));
                other
            },
        }
    }

    /// Whether the program leaves exactly one value without ever popping an
    /// empty stack.
    pub fn is_balanced(&self) -> (r: bool)
        ensures
            r == self.balanced(),
    {
        let ghost prog = self.program();
        let n = self.instructions.len();
        let mut depth: usize = 0;
        let mut i: usize = 0;
        assert(prog.take(0) =~= Seq::<SOp>::empty());
        while i < n
            invariant
                n == self.instructions.len(),
                prog == self.program(),
                prog.len() == n,
                i <= n,
                depth <= i,
                depth_after(prog.take(i as int), 0) == Some(depth as int),
            decreases n - i,
        {
            proof {
                assert(prog.take(i + 1).drop_last() =~= prog.take(i as int));
                assert(prog.take(i + 1).last() == prog[i as int]);
                assert(prog[i as int] == self.instructions@[i as int]@);
            }
            match &self.instructions[i] {
                Opcode::Push(_) => {
                    depth = depth + 1;
                },
                Opcode::Load(_) => {
                    depth = depth + 1;
                },
                Opcode::Call(name) => {
                    if builtin_kind(name) != 0 && depth < 1 {
                        proof {
                            lemma_depth_none(prog, i + 1);
                        }
                        return false;
                    }
                },
                _ => {
                    if depth < 2 {
                        proof {
                            lemma_depth_none(prog, i + 1);
                        }
                        return false;
                    }
                    depth = depth - 1;
                },
            }
            i = i + 1;
        }
        assert(prog.take(n as int) =~= prog);
        depth == 1
    }

    /// Whether every load of the program reads one of the first `n` inputs.
    pub fn reads_within(&self, n: usize) -> (r: bool)
        ensures
            r == loads_below(self.program(), n as int),
    {
        let mut i: usize = 0;
        while i < self.instructions.len()
            invariant
                i <= self.instructions.len(),
                forall|j: int| 0 <= j < i ==> (#[trigger] self.program()[j] matches SOp::Load(k) ==> 0 <= k < n),
            decreases self.instructions.len() - i,
        {
            assert(self.program()[i as int] == self.instructions@[i as int]@);
            match &self.instructions[i] {
                Opcode::Load(k) => {
                    if *k >= n {
                        return false;
                    }
                },
                _ => {},
            }
            i = i + 1;
        }
        true
    }

    /// Runs the program on an input vector and returns the value it leaves.
    pub fn run(&self, registers: &Vec<Fixed>) -> (r: Fixed)
        requires
            self.balanced(),
            loads_below(self.program(), registers.len() as int),
        ensures
            exec_prog(self.program(), seq![], registers@) == Some(seq![r]),
            r == formula_value(*self, registers@),
    {
        let ghost prog = self.program();
        let mut stack: Vec<Fixed> = Vec::new();
        let mut i: usize = 0;
        let n = self.instructions.len();
        assert(prog.take(0) =~= Seq::<SOp>::empty());
        while i < n
            invariant
                n == self.instructions.len(),
                prog == self.program(),
                prog.len() == n,
                0 <= i <= n,
                depth_after(prog, 0) == Some(1int),
                loads_below(prog, registers.len() as int),
                exec_prog(prog.take(i as int), seq![], registers@) == Some(stack@),
                depth_after(prog.take(i as int), 0) == Some(stack.len() as int),
            decreases n - i,
        {
            proof {
                lemma_depth_prefix(prog, i + 1, 0);
                assert(prog.take(i + 1).drop_last() =~= prog.take(i as int));
                assert(prog.take(i + 1).last() == prog[i as int]);
                assert(prog[i as int] == self.instructions@[i as int]@);
            }
            let ghost before = stack@;
            match &self.instructions[i] {
                Opcode::Push(x) => {
                    stack.push(*x);
                },
                Opcode::Load(k) => {
                    stack.push(registers[*k]);
                },
                Opcode::Call(name) => {
                    let kind = builtin_kind(name);
                    if kind != 0 {
                        let a = stack.pop().unwrap();
                        let v = if kind == 1 {
                            a.sin()
                        } else if kind == 2 {
                            a.cos()
                        } else {
                            a.sqrt()
                        };
                        stack.push(v);
                        assert(stack@ =~= before.drop_last().push(apply_call(name@, before.last())));
                    }
                },
                code => {
                    let a = stack.pop().unwrap();
                    let b = stack.pop().unwrap();
                    let v = apply_arith_exec(code, a, b);
                    stack.push(v);
                    assert(stack@ =~= before.subrange(0, before.len() - 2).push(v));
                },
            }
            i = i + 1;
        }
        proof {
            assert(prog.take(n as int) =~= prog);
        }
        let r = stack[0];
        assert(stack@ =~= seq![r]);
        r
    }
}

/// 1, 2 or 3 for `sin`, `cos` or `sqrt`; 0 for any other name.
fn builtin_kind(name: &String) -> (k: u8)
    ensures
        k == 1 <==> name@ == seq!['s', 'i', 'n'],
        k == 2 <==> name@ == seq!['c', 'o', 's'],
        k == 3 <==> name@ == seq!['s', 'q', 'r', 't'],
        k <= 3,
{
    let t = name.as_str();
    let n = t.unicode_len();
    if n == 3 {
        let a = t.get_char(0);
        let b = t.get_char(1);
        let c = t.get_char(2);
        if a == 's' && b == 'i' && c == 'n' {
            assert(name@ =~= seq!['s', 'i', 'n']);
            1
        } else if a == 'c' && b == 'o' && c == 's' {
            assert(name@ =~= seq!['c', 'o', 's']);
            2
        } else {
            0
        }
    } else if n == 4 {
        let a = t.get_char(0);
        let b = t.get_char(1);
        let c = t.get_char(2);
        let d = t.get_char(3);
        if a == 's' && b == 'q' && c == 'r' && d == 't' {
            assert(name@ =~= seq!['s', 'q', 'r', 't']);
            3
        } else {
            0
        }
    } else {
        0
    }
}

/// The opcode of an arithmetic operator, if it is one.
fn arith_code(op: &String) -> (r: Option<Opcode>)
    ensures
        match arith_of(op@) {
            Some(c) => r is Some && r->Some_0@ == c,
            None => r is None,
        },
{
    if is_char_text(op, '+') {
        Some(Opcode::Add)
    } else if is_char_text(op, '-') {
        Some(Opcode::Sub)
    } else if is_char_text(op, '*') {
        Some(Opcode::Mul)
    } else if is_char_text(op, '/') {
        Some(Opcode::Div)
    } else {
        None
    }
}

fn apply_arith_exec(code: &Opcode, a: Fixed, b: Fixed) -> (r: Fixed)
    requires
        is_arith(code@),
    ensures
        r == apply_arith(code@, a, b),
{
    match code {
        Opcode::Add => a.plus(b),
        Opcode::Sub => a.minus(b),
        Opcode::Mul => a.times(b),
        _ => a.divide(b),
    }
}

/// The number an expression folds to, if it folds to one.
fn folded(e: &Expr) -> (r: Option<Fixed>)
    ensures
        r == match optimize_spec(e@) {
            SExpr::Number(n) => Some(n),
            _ => None::<Fixed>,
        },
    decreases e,
{
    match e {
        Expr::Number(n) => Some(*n),
        Expr::Binary(l, op, r) => {
            match (folded(l), folded(r)) {
                (Some(a), Some(b)) => match arith_code(op) {
                    Some(code) => Some(apply_arith_exec(&code, a, b)),
                    None => None,
                },
                _ => None,
            }
        },
        _ => None,
    }
}

fn compile_expr(target: &Expr, registers: &Registers, out: &mut Vec<Opcode>) -> (r: Result<(), CompileError>)
    ensures
        match compile_spec(target@, registers@) {
            Ok(p) => r is Ok && op_views(final(out)@) == op_views(old(out)@) + p,
            Err(x) => r == Err::<(), CompileError>(x),
        },
    decreases target,
{
    let ghost o0 = op_views(out@);
    match target {
        Expr::Number(n) => {
            out.push(Opcode::Push(*n));
            assert(op_views(out@) =~= o0 + seq![SOp::Push(*n)]);
            Ok(())
        },
        Expr::Variable(name) => match registers.get(name) {
            Some(i) => {
                out.push(Opcode::Load(i));
                assert(op_views(out@) =~= o0 + seq![SOp::Load(i as int)]);
                Ok(())
            },
            None => Err(CompileError::UnknownVariable),
        },
        Expr::Call(name, args) => {
            let n = args.len();
            let mut i: usize = 0;
            assert(op_views(out@) =~= o0 + Seq::<SOp>::empty());
            while i < n
                invariant
                    n == args.len(),
                    i <= n,
                    *target == Expr::Call(*name, *args),
                    target@ == SExpr::Call(name@, target@->Call_1),
                    target@->Call_1.len() == n,
                    forall|j: int| 0 <= j < n ==> #[trigger] target@->Call_1[j] == args@[j]@,
                    compile_args(target@, i as int, registers@) is Ok,
                    op_views(out@) == o0 + compile_args(target@, i as int, registers@)->Ok_0,
                decreases n - i,
            {
                let ghost o1 = op_views(out@);
                assert(target@->Call_1[i as int] == args@[i as int]@);
                match compile_expr(&args[i], registers, out) {
                    Ok(()) => {},
                    Err(x) => {
                        proof {
                            lemma_args_err(target@, i + 1, n as int, registers@);
                        }
                        return Err(x);
                    },
                }
                proof {
                    let p = compile_args(target@, i as int, registers@)->Ok_0;
                    let q = compile_spec(args@[i as int]@, registers@)->Ok_0;
                    assert(o0 + p + q =~= o0 + (p + q));
                }
                i = i + 1;
            }
            let ghost o1 = op_views(out@);
            out.push(Opcode::Call(name.clone()));
            assert(op_views(out@) =~= o1.push(SOp::Call(name@)));
            assert(o1.push(SOp::Call(name@)) =~= o0 + compile_spec(target@, registers@)->Ok_0);
            Ok(())
        },
        Expr::Binary(l, op, r) => {
            let code = match arith_code(op) {
                Some(c) => c,
                None => Opcode::Call(op.clone()),
            };
            assert(code@ == op_code(op@));
            match compile_expr(r, registers, out) {
                Ok(()) => {},
                Err(x) => {
                    return Err(x);
                },
            }
            match compile_expr(l, registers, out) {
                Ok(()) => {},
                Err(x) => {
                    return Err(x);
                },
            }
            let ghost o2 = op_views(out@);
            let ghost c = code@;
            out.push(code);
            assert(op_views(out@) =~= o2.push(c));
            proof {
                let pr = compile_spec(r@, registers@)->Ok_0;
                let pl = compile_spec(l@, registers@)->Ok_0;
                assert(o2.push(c) =~= o0 + (pr + pl + seq![c]));
            }
            Ok(())
        },
    }
}

} // verus!
