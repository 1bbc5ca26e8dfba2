//! Simulation settings read from formula text, one `name = expression`
//! statement per line.
use vstd::prelude::*;
use vstd::string::StrSliceExecFns;

use crate::collision::{
    formula_outcome, impulse_outcome, resolve_collision, resolve_collision_impulse, CollisionResult,
};
use crate::fixed::Fixed;
use crate::sphere::Sphere;
use crate::parser::{
    line_tokens, parse_expr_spec, parse_formula, parse_line_spec, parse_statement, Line, ParseError,
    SExpr,
};
use crate::vm::{
    compile_spec, exec_prog, loads_below,
    depth_after, optimize_spec, slots_below, CompileError, Opcode, Registers, SOp, VM,
};

verus! {

/// The settings that a statement can assign.
#[derive(Clone, Copy, PartialEq, Eq, Structural, Debug)]
pub enum Setting {
    /// `spring_force`: the per-axis spring force formula.
    SpringForce,
    /// `collision_response`: the collision response formula.
    CollisionResponse,
    /// `k`: the spring stiffness.
    Stiffness,
    /// `g`: the gravitational acceleration along y.
    Gravity,
    /// `dampening`: the damping coefficient.
    Damping,
    /// `restitution`: the restitution of the planes.
    Restitution,
    /// `impulse_response`: nonzero selects the built-in impulse response to
    /// collisions, zero the collision response formula.
    Policy,
}

/// How collisions between spheres are resolved.
#[derive(Clone, Copy, PartialEq, Eq, Structural, Debug)]
pub enum ResponsePolicy {
    /// The collision response formula.
    Formula,
    /// The built-in impulse response, with the configured restitution.
    Impulse,
}

pub open spec fn setting_spec(name: Seq<char>) -> Option<Setting> {
    if name == seq!['s', 'p', 'r', 'i', 'n', 'g', '_', 'f', 'o', 'r', 'c', 'e'] {
        Some(Setting::SpringForce)
    } else if name == seq![
        'c', 'o', 'l', 'l', 'i', 's', 'i', 'o', 'n', '_', 'r', 'e', 's', 'p', 'o', 'n', 's', 'e',
    ] {
        Some(Setting::CollisionResponse)
    } else if name == seq!['k'] {
        Some(Setting::Stiffness)
    } else if name == seq!['g'] {
        Some(Setting::Gravity)
    } else if name == seq!['d', 'a', 'm', 'p', 'e', 'n', 'i', 'n', 'g'] {
        Some(Setting::Damping)
    } else if name == seq!['r', 'e', 's', 't', 'i', 't', 'u', 't', 'i', 'o', 'n'] {
        Some(Setting::Restitution)
    } else if name == seq![
        'i', 'm', 'p', 'u', 'l', 's', 'e', '_', 'r', 'e', 's', 'p', 'o', 'n', 's', 'e',
    ] {
        Some(Setting::Policy)
    } else {
        None
    }
}

fn text_is(s: &str, w: &str) -> (r: bool)
    ensures
        r == (s@ == w@),
{
    let n = s.unicode_len();
    let m = w.unicode_len();
    if n != m {
        return false;
    }
    let mut i: usize = 0;
    while i < n
        invariant
            n == s@.len(),
            m == w@.len(),
            n == m,
            i <= n,
            forall|j: int| 0 <= j < i ==> s@[j] == w@[j],
        decreases n - i,
    {
        if s.get_char(i) != w.get_char(i) {
            return false;
        }
        i = i + 1;
    }
    assert(s@ =~= w@);
    true
}

/// The setting a statement name assigns, if any.
pub fn setting_of(name: &String) -> (r: Option<Setting>)
    ensures
        r == setting_spec(name@),
{
    let s = name.as_str();
    proof {
        reveal_strlit("spring_force");
        reveal_strlit("collision_response");
        reveal_strlit("k");
        reveal_strlit("g");
        reveal_strlit("dampening");
        reveal_strlit("restitution");
        reveal_strlit("impulse_response");
        assert("impulse_response"@ =~= seq![
            'i', 'm', 'p', 'u', 'l', 's', 'e', '_', 'r', 'e', 's', 'p', 'o', 'n', 's', 'e',
        ]);
        assert("spring_force"@ =~= seq!['s', 'p', 'r', 'i', 'n', 'g', '_', 'f', 'o', 'r', 'c', 'e']);
        assert("collision_response"@ =~= seq![
            'c', 'o', 'l', 'l', 'i', 's', 'i', 'o', 'n', '_', 'r', 'e', 's', 'p', 'o', 'n', 's', 'e',
        ]);
        assert("k"@ =~= seq!['k']);
        assert("g"@ =~= seq!['g']);
        assert("dampening"@ =~= seq!['d', 'a', 'm', 'p', 'e', 'n', 'i', 'n', 'g']);
        assert("restitution"@ =~= seq!['r', 'e', 's', 't', 'i', 't', 'u', 't', 'i', 'o', 'n']);
    }
    if text_is(s, "spring_force") {
        Some(Setting::SpringForce)
    } else if text_is(s, "collision_response") {
        Some(Setting::CollisionResponse)
    } else if text_is(s, "k") {
        Some(Setting::Stiffness)
    } else if text_is(s, "g") {
        Some(Setting::Gravity)
    } else if text_is(s, "dampening") {
        Some(Setting::Damping)
    } else if text_is(s, "restitution") {
        Some(Setting::Restitution)
    } else if text_is(s, "impulse_response") {
        Some(Setting::Policy)
    } else {
        None
    }
}

/// The register table of spring force formulas: `x` (deviation along an
/// axis), `v` (relative velocity along it), `dampening` and `k`.
pub fn spring_force_registers() -> (r: Registers)
    ensures
        r@ == spring_registers_spec(),
        slots_below(r@, 4),
{
    let mut r = Registers::new();
    r.insert("x", 0);
    r.insert("v", 1);
    r.insert("dampening", 2);
    r.insert("k", 3);
    proof {
        reveal_strlit("x");
        reveal_strlit("v");
        reveal_strlit("dampening");
        reveal_strlit("k");
        assert("x"@ =~= seq!['x']);
        assert("v"@ =~= seq!['v']);
        assert("dampening"@ =~= seq!['d', 'a', 'm', 'p', 'e', 'n', 'i', 'n', 'g']);
        assert("k"@ =~= seq!['k']);
    }
    r
}

/// The register table of collision response formulas: `p` (own normal
/// momentum), `other_p` and `mass`.
pub fn collision_response_registers() -> (r: Registers)
    ensures
        r@ == collision_registers_spec(),
        slots_below(r@, 3),
{
    let mut r = Registers::new();
    r.insert("p", 0);
    r.insert("other_p", 1);
    r.insert("mass", 2);
    proof {
        reveal_strlit("p");
        reveal_strlit("other_p");
        reveal_strlit("mass");
        assert("p"@ =~= seq!['p']);
        assert("other_p"@ =~= seq!['o', 't', 'h', 'e', 'r', '_', 'p']);
        assert("mass"@ =~= seq!['m', 'a', 's', 's']);
    }
    r
}

/// Why a line of settings was rejected.
#[derive(Clone, Copy, PartialEq, Eq, Structural, Debug)]
pub enum ConfigError {
    Parse(ParseError),
    Compile(CompileError),
    /// A formula whose program does not leave exactly one value.
    Unbalanced,
}

/// The settings of a simulation.
#[derive(Debug)]
pub struct Config {
    pub stiffness: Fixed,
    pub gravity: Fixed,
    pub damping: Fixed,
    pub restitution: Fixed,
    pub spring_force: VM,
    pub collision_response: VM,
    pub policy: ResponsePolicy,
}

impl Config {
    /// Both formulas leave one value and read only their own registers.
    pub open spec fn wf(&self) -> bool {
        &&& self.spring_force.balanced()
        &&& loads_below(self.spring_force.program(), 4)
        &&& self.collision_response.balanced()
        &&& loads_below(self.collision_response.program(), 3)
    }

    /// The defaults: the formula response to collisions, stiffness 0.01,
    /// gravity -0.01, damping 0.03, restitution 1, spring force `0 - k * x - dampening * v` and collision
    /// response `(0 - p + other_p) / mass`, given in compiled form.
    pub fn new() -> (r: Config)
        ensures
            r.wf(),
            r.stiffness.raw == 10_000,
            r.gravity.raw == -10_000,
            r.damping.raw == 30_000,
            r.restitution.raw == 1_000_000,
            r.spring_force.program() == default_spring_program(),
            r.collision_response.program() == default_response_program(),
            r.policy == ResponsePolicy::Formula,
    {
        let spring_force = VM {
            instructions: vec![
                Opcode::Load(1),
                Opcode::Load(2),
                Opcode::Mul,
                Opcode::Load(0),
                Opcode::Load(3),
                Opcode::Mul,
                Opcode::Push(Fixed::zero()),
                Opcode::Sub,
                Opcode::Sub,
            ],
        };
        let collision_response = VM {
            instructions: vec![
                Opcode::Load(2),
                Opcode::Load(1),
                Opcode::Load(0),
                Opcode::Push(Fixed::zero()),
                Opcode::Sub,
                Opcode::Add,
                Opcode::Div,
            ],
        };
        proof {
            assert(spring_force.program() =~= default_spring_program());
            assert(collision_response.program() =~= default_response_program());
            reveal_with_fuel(depth_after, 10);
            assert(depth_after(default_spring_program(), 0) == Some(1int));
            assert(depth_after(default_response_program(), 0) == Some(1int));
        }
        Config {
            stiffness: Fixed::from_raw(10_000),
            gravity: Fixed::from_raw(-10_000),
            damping: Fixed::from_raw(30_000),
            restitution: Fixed::from_raw(1_000_000),
            spring_force,
            collision_response,
            policy: ResponsePolicy::Formula,
        }
    }

    /// Applies one line of settings. Lines that begin with `//` and
    /// statements that name no setting change nothing; a formula is folded
    /// and compiled against its register table; a constant is folded,
    /// compiled with no registers, and evaluated.
    pub fn apply_line(&mut self, line: &str) -> (r: Result<(), ConfigError>)
        requires
            old(self).wf(),
        ensures
            final(self).wf(),
            is_comment(line@) ==> r is Ok && *final(self) == *old(self),
            !is_comment(line@) ==> (r is Ok <==> line_tokens(line@) is Ok && parse_line_spec(
                line_tokens(line@)->Ok_0,
            ) is Ok && !rejected(parse_line_spec(line_tokens(line@)->Ok_0)->Ok_0)),
            r is Ok && !is_comment(line@) ==> ({
                let (name, e) = parse_line_spec(line_tokens(line@)->Ok_0)->Ok_0;
                let v = constant_of(e);
                match setting_spec(name) {
                    None => *final(self) == *old(self),
                    Some(Setting::Stiffness) => *final(self) == (Config { stiffness: v, ..*old(self) }),
                    Some(Setting::Gravity) => *final(self) == (Config { gravity: v, ..*old(self) }),
                    Some(Setting::Damping) => *final(self) == (Config { damping: v, ..*old(self) }),
                    Some(Setting::Restitution) => *final(self) == (Config { restitution: v, ..*old(self) }),
                    Some(Setting::Policy) => *final(self) == (Config {
                        policy: if v.raw != 0 {
                            ResponsePolicy::Impulse
                        } else {
                            ResponsePolicy::Formula
                        },
                        ..*old(self)
                    }),
                    Some(Setting::SpringForce) => final(self).spring_force.program() == compile_spec(
                        optimize_spec(e),
                        spring_registers_spec(),
                    )->Ok_0 && *final(self) == (Config {
                        spring_force: final(self).spring_force,
                        ..*old(self)
                    }),
                    Some(Setting::CollisionResponse) => final(self).collision_response.program()
                        == compile_spec(optimize_spec(e), collision_registers_spec())->Ok_0
                        && *final(self) == (Config {
                        collision_response: final(self).collision_response,
                        ..*old(self)
                    }),
                }
            }),
    {
        if starts_with_comment(line) {
            return Ok(());
        }
        let (name, expr) = match parse_statement(line) {
            Ok(Line::Assign(n, e)) => (n, e),
            Err(e) => {
                return Err(ConfigError::Parse(e));
            },
        };
        let ghost e_view = expr@;
        let setting = match setting_of(&name) {
            Some(s) => s,
            None => {
                return Ok(());
            },
        };
        match setting {
            Setting::SpringForce => {
                let regs = spring_force_registers();
                assert(regs@ == spring_registers_spec());
                match VM::compile(VM::optimize(expr), &regs) {
                    Ok(vm) => {
                        if !vm.is_balanced() {
                            return Err(ConfigError::Unbalanced);
                        }
                        self.spring_force = vm;
                        Ok(())
                    },
                    Err(e) => Err(ConfigError::Compile(e)),
                }
            },
            Setting::CollisionResponse => {
                let regs = collision_response_registers();
                assert(regs@ == collision_registers_spec());
                match VM::compile(VM::optimize(expr), &regs) {
                    Ok(vm) => {
                        if !vm.is_balanced() {
                            return Err(ConfigError::Unbalanced);
                        }
                        self.collision_response = vm;
                        Ok(())
                    },
                    Err(e) => Err(ConfigError::Compile(e)),
                }
            },
            _ => {
                let v = match constant_value(expr) {
                    Ok(v) => v,
                    Err(e) => {
                        return Err(e);
                    },
                };
                match setting {
                    Setting::Stiffness => {
                        self.stiffness = v;
                    },
                    Setting::Gravity => {
                        self.gravity = v;
                    },
                    Setting::Damping => {
                        self.damping = v;
                    },
                    Setting::Policy => {
                        self.policy = if v.raw != 0 {
                            ResponsePolicy::Impulse
                        } else {
                            ResponsePolicy::Formula
                        };
                    },
                    _ => {
                        self.restitution = v;
                    },
                }
                Ok(())
            },
        }
    }

    /// Resolves a detected collision of two spheres with the configured
    /// response.
    pub fn resolve(&self, lhs: &mut Sphere, rhs: &mut Sphere, res: &CollisionResult)
        requires
            self.wf(),
        ensures
            (*final(lhs), *final(rhs)) == match self.policy {
                ResponsePolicy::Formula => formula_outcome(*old(lhs), *old(rhs), *res, self.collision_response),
                ResponsePolicy::Impulse => impulse_outcome(*old(lhs), *old(rhs), *res, self.restitution),
            },
    {
        match self.policy {
            ResponsePolicy::Formula => resolve_collision(lhs, rhs, res, &self.collision_response),
            ResponsePolicy::Impulse => resolve_collision_impulse(lhs, rhs, res, self.restitution),
        }
    }
}

/// `0 - k * x - dampening * v` compiled against the spring force registers.
pub open spec fn default_spring_program() -> Seq<SOp> {
    seq![
        SOp::Load(1),
        SOp::Load(2),
        SOp::Mul,
        SOp::Load(0),
        SOp::Load(3),
        SOp::Mul,
        SOp::Push(Fixed { raw: 0 }),
        SOp::Sub,
        SOp::Sub,
    ]
}

/// `(0 - p + other_p) / mass` compiled against the collision response
/// registers.
pub open spec fn default_response_program() -> Seq<SOp> {
    seq![
        SOp::Load(2),
        SOp::Load(1),
        SOp::Load(0),
        SOp::Push(Fixed { raw: 0 }),
        SOp::Sub,
        SOp::Add,
        SOp::Div,
    ]
}

pub open spec fn is_comment(line: Seq<char>) -> bool {
    line.len() >= 2 && line[0] == '/' && line[1] == '/'
}

/// Whether a program leaves exactly one value.
pub open spec fn balanced_program(p: Seq<SOp>) -> bool {
    depth_after(p, 0) == Some(1int)
}

/// Whether a program fails to compile, or compiles to a program that does
/// not leave exactly one value.
pub open spec fn program_rejected(r: Result<Seq<SOp>, CompileError>) -> bool {
    r is Err || !balanced_program(r->Ok_0)
}

/// Whether a statement is rejected: its folded expression does not compile
/// to a balanced program against the table its setting uses (no table for
/// a constant).
pub open spec fn rejected(stmt: (Seq<char>, SExpr)) -> bool {
    let (name, e) = stmt;
    match setting_spec(name) {
        Some(Setting::SpringForce) => program_rejected(compile_spec(optimize_spec(e), spring_registers_spec())),
        Some(Setting::CollisionResponse) => program_rejected(
            compile_spec(optimize_spec(e), collision_registers_spec()),
        ),
        Some(_) => program_rejected(compile_spec(optimize_spec(e), Map::<Seq<char>, usize>::empty())),
        None => false,
    }
}

/// The value of a constant statement: its folded expression compiled with
/// no registers and run on no inputs.
pub open spec fn constant_of(e: SExpr) -> Fixed {
    exec_prog(
        compile_spec(optimize_spec(e), Map::<Seq<char>, usize>::empty())->Ok_0,
        seq![],
        seq![],
    )->Some_0[0]
}

pub open spec fn spring_registers_spec() -> Map<Seq<char>, usize> {
    Map::<Seq<char>, usize>::empty().insert(seq!['x'], 0).insert(seq!['v'], 1).insert(
        seq!['d', 'a', 'm', 'p', 'e', 'n', 'i', 'n', 'g'],
        2,
    ).insert(seq!['k'], 3)
}

pub open spec fn collision_registers_spec() -> Map<Seq<char>, usize> {
    Map::<Seq<char>, usize>::empty().insert(seq!['p'], 0).insert(
        seq!['o', 't', 'h', 'e', 'r', '_', 'p'],
        1,
    ).insert(seq!['m', 'a', 's', 's'], 2)
}

fn starts_with_comment(line: &str) -> (r: bool)
    ensures
        r == is_comment(line@),
{
    let n = line.unicode_len();
    n >= 2 && line.get_char(0) == '/' && line.get_char(1) == '/'
}

/// Folds, compiles and runs an expression that reads no variables.
fn constant_value(expr: crate::parser::Expr) -> (r: Result<Fixed, ConfigError>)
    ensures
        match compile_spec(optimize_spec(expr@), Map::<Seq<char>, usize>::empty()) {
            Ok(p) => if balanced_program(p) {
                r == Ok::<Fixed, ConfigError>(constant_of(expr@))
            } else {
                r == Err::<Fixed, ConfigError>(ConfigError::Unbalanced)
            },
            Err(x) => r == Err::<Fixed, ConfigError>(ConfigError::Compile(x)),
        },
{
    let regs = Registers::new();
    let empty: Vec<Fixed> = Vec::new();
    let ghost m = Map::<Seq<char>, usize>::empty();
    match VM::compile(VM::optimize(expr), &regs) {
        Ok(vm) => {
            if !vm.is_balanced() {
                return Err(ConfigError::Unbalanced);
            }
            proof {
                assert(slots_below(m, 0));
                assert(loads_below(vm.program(), 0));
            }
            let v = vm.run(&empty);
            proof {
                assert(empty@ =~= Seq::<Fixed>::empty());
            }
            Ok(v)
        },
        Err(x) => Err(ConfigError::Compile(x)),
    }
}

/// Parses and compiles one formula against a table whose slots lie below
/// `n`.
pub fn compile_formula(text: &str, registers: &Registers, n: usize) -> (r: Result<VM, ConfigError>)
    requires
        slots_below(registers@, n as int),
    ensures
        r is Ok ==> r->Ok_0.balanced() && loads_below(r->Ok_0.program(), n as int),
        match line_tokens(text@) {
            Err(x) => r == Err::<VM, ConfigError>(ConfigError::Parse(x)),
            Ok(ts) => match parse_expr_spec(ts, 0, ts.len() as int) {
                Err(x) => r == Err::<VM, ConfigError>(ConfigError::Parse(x)),
                Ok((e, _)) => match compile_spec(optimize_spec(e), registers@) {
                    Ok(p) => if balanced_program(p) {
                        r is Ok && r->Ok_0.program() == p
                    } else {
                        r == Err::<VM, ConfigError>(ConfigError::Unbalanced)
                    },
                    Err(x) => r == Err::<VM, ConfigError>(ConfigError::Compile(x)),
                },
            },
        },
{
    let e = match parse_formula(text) {
        Ok(e) => e,
        Err(x) => {
            return Err(ConfigError::Parse(x));
        },
    };
    match VM::compile(VM::optimize(e), registers) {
        Ok(vm) => {
            if vm.is_balanced() {
                Ok(vm)
            } else {
                Err(ConfigError::Unbalanced)
            }
        },
        Err(x) => Err(ConfigError::Compile(x)),
    }
}

} // verus!
