use physics_kernel::config::{
    collision_response_registers, compile_formula, setting_of, spring_force_registers, Config,
    ConfigError, ResponsePolicy, Setting,
};
use physics_kernel::fixed::Fixed;
use physics_kernel::parser::{
    parse_expr, parse_formula, parse_line, parse_statement, precedence, Expr, Line, ParseError,
};
use physics_kernel::tokenizer::{tokenize, Token, Tokenizer};
use physics_kernel::vm::{CompileError, Opcode, Registers, VM};

fn num(x: f64) -> Fixed {
    Fixed::from_raw((x * 1_000_000.0).round() as i64)
}

fn eval_text(text: &str, regs: &Registers, inputs: &[f64]) -> Fixed {
    let e = parse_formula(text).expect("formula parses");
    let vm = VM::compile(VM::optimize(e), regs).expect("formula compiles");
    let data: Vec<Fixed> = inputs.iter().map(|x| num(*x)).collect();
    vm.run(&data)
}

fn eval_const(text: &str) -> Fixed {
    eval_text(text, &Registers::new(), &[])
}

#[test]
fn multiplication_binds_tighter_than_addition() {
    assert_eq!(eval_const("2 + 3 * 4"), num(14.0));
}

#[test]
fn equal_precedence_is_left_associative() {
    assert_eq!(eval_const("1 - 2 - 3"), num(-4.0));
}

#[test]
fn division_keeps_operand_order() {
    assert_eq!(eval_const("10 / 4"), num(2.5));
    assert_eq!(eval_const("8 / 2 / 2"), num(2.0));
}

#[test]
fn single_variable_loads_its_register() {
    let mut regs = Registers::new();
    regs.insert("p", 0);
    let vm = VM::compile(Expr::Variable("p".to_string()), &regs).unwrap();
    assert_eq!(vm.run(&vec![num(5.0)]), num(5.0));
}

#[test]
fn flat_parentheses_group() {
    assert_eq!(eval_const("(1 + 2) * 3"), num(9.0));
}

#[test]
fn folding_keeps_values() {
    let mut regs = Registers::new();
    regs.insert("x", 0);
    for text in ["(1 + 2) * x", "2 * 3 - x", "x - 4 / 8", "sqrt(4) + x"] {
        let plain = VM::compile(parse_formula(text).unwrap(), &regs).unwrap();
        let folded = VM::compile(VM::optimize(parse_formula(text).unwrap()), &regs).unwrap();
        for x in [-2.5, 0.0, 1.0, 7.25] {
            let data = vec![num(x)];
            assert_eq!(plain.run(&data), folded.run(&data), "{} at {}", text, x);
        }
    }
}

#[test]
fn folding_collapses_constant_binary_nodes() {
    let e = VM::optimize(parse_formula("2 * 3").unwrap());
    assert!(matches!(e, Expr::Number(n) if n == num(6.0)));
    let e = VM::optimize(parse_formula("2 * x").unwrap());
    assert!(matches!(e, Expr::Binary(_, _, _)));
}

#[test]
fn default_spring_formula() {
    let mut regs = Registers::new();
    regs.insert("x", 0);
    regs.insert("v", 1);
    regs.insert("dampening", 2);
    regs.insert("k", 3);
    let v = eval_text("0 - k * x - dampening * v", &regs, &[2.0, 1.0, 0.5, 3.0]);
    assert_eq!(v, num(-6.5));
}

#[test]
fn builtin_functions() {
    assert_eq!(eval_const("sqrt(9)"), num(3.0));
    assert_eq!(eval_const("sin(0)"), num(0.0));
    let c0 = eval_const("cos(0)").raw;
    assert!((c0 - 1_000_000).abs() <= 2, "{}", c0);
    let s = eval_const("sin(1.570796)").raw;
    assert!((s - 1_000_000).abs() <= 2, "{}", s);
    let c = eval_const("cos(3.141593)").raw;
    assert!((c + 1_000_000).abs() <= 2, "{}", c);
    assert_eq!(eval_const("sqrt(0 - 4)"), num(0.0));
}

#[test]
fn unknown_call_leaves_its_argument() {
    assert_eq!(eval_const("tan(2) + 1"), num(3.0));
}

#[test]
fn division_by_zero_saturates() {
    assert_eq!(eval_const("1 / 0").raw, i64::MAX);
    assert_eq!(eval_const("0 / 0").raw, 0);
}

#[test]
fn compile_errors() {
    let regs = Registers::new();
    assert_eq!(
        VM::compile(parse_formula("y + 1").unwrap(), &regs).unwrap_err(),
        CompileError::UnknownVariable
    );
    assert_eq!(
        VM::compile(parse_formula("f(1, y)").unwrap(), &regs).unwrap_err(),
        CompileError::UnknownVariable
    );
}

#[test]
fn calls_compile_every_argument_in_order() {
    let vm = VM::compile(parse_formula("sin(1, 2)").unwrap(), &Registers::new()).unwrap();
    assert_eq!(
        format!("{:?}", vm.instructions),
        format!(
            "{:?}",
            vec![Opcode::Push(num(1.0)), Opcode::Push(num(2.0)), Opcode::Call("sin".to_string())]
        )
    );
    assert!(!vm.is_balanced());
}

#[test]
fn other_operators_compile_to_calls() {
    let vm = VM::compile(parse_formula("2 ^ 3").unwrap(), &Registers::new()).unwrap();
    assert_eq!(
        format!("{:?}", vm.instructions),
        format!(
            "{:?}",
            vec![Opcode::Push(num(3.0)), Opcode::Push(num(2.0)), Opcode::Call("^".to_string())]
        )
    );
    assert!(!vm.is_balanced());
    let vm = VM::compile(parse_formula("sin() + 1").unwrap(), &Registers::new()).unwrap();
    assert!(!vm.is_balanced());
    let vm = VM::compile(parse_formula("sqrt(4) * tan(2)").unwrap(), &Registers::new()).unwrap();
    assert!(vm.is_balanced());
    assert_eq!(vm.run(&vec![]), num(4.0));
}

#[test]
fn reads_within_checks_loads() {
    let mut regs = Registers::new();
    regs.insert("a", 2);
    let vm = VM::compile(parse_formula("a * 2").unwrap(), &regs).unwrap();
    assert!(vm.reads_within(3));
    assert!(!vm.reads_within(2));
}

#[test]
fn registers_replace_bindings() {
    let mut regs = Registers::new();
    regs.insert("a", 1);
    regs.insert("b", 2);
    regs.insert("a", 5);
    assert_eq!(regs.get(&"a".to_string()), Some(5));
    assert_eq!(regs.get(&"b".to_string()), Some(2));
    assert_eq!(regs.get(&"c".to_string()), None);
}

#[test]
fn tokenizer_classifies_tokens() {
    let toks = tokenize("f = sin(x_1.y, 2.5) += 3\n").unwrap();
    assert_eq!(toks.len(), 13);
    assert!(matches!(&toks[0], Token::Ident(s) if s == "f"));
    assert!(matches!(toks[1], Token::Assign));
    assert!(matches!(&toks[2], Token::Ident(s) if s == "sin"));
    assert!(matches!(toks[3], Token::OpenParen));
    assert!(matches!(&toks[4], Token::Ident(s) if s == "x_"));
    assert!(matches!(&toks[5], Token::Number(n) if *n == num(1.0)));
    assert!(matches!(&toks[6], Token::Ident(s) if s == "y"));
    assert!(matches!(toks[7], Token::Comma));
    assert!(matches!(&toks[8], Token::Number(n) if *n == num(2.5)));
    assert!(matches!(toks[9], Token::CloseParen));
    assert!(matches!(&toks[10], Token::Operator(s) if s == "+="));
    assert!(matches!(&toks[11], Token::Number(n) if *n == num(3.0)));
    assert!(matches!(toks[12], Token::EoL));
}

#[test]
fn tokenizer_end_marker_repeats() {
    let mut t = Tokenizer::new("a\nb");
    assert!(matches!(t.next_token(), Ok(Token::Ident(s)) if s == "a"));
    for _ in 0..3 {
        assert!(matches!(t.next_token(), Ok(Token::EoL)));
    }
    let mut t = Tokenizer::new("");
    assert!(matches!(t.next_token(), Ok(Token::EoL)));
    assert!(matches!(t.next_token(), Ok(Token::EoL)));
}

#[test]
fn numerals() {
    let toks = tokenize("12.3456789 7. 1.2.3").unwrap_err();
    assert_eq!(toks, ParseError::MalformedNumber);
    let toks = tokenize("12.3456789 7.").unwrap();
    assert!(matches!(&toks[0], Token::Number(n) if n.raw == 12_345_678));
    assert!(matches!(&toks[1], Token::Number(n) if n.raw == 7_000_000));
}

#[test]
fn operator_runs_extend_to_whitespace() {
    let toks = tokenize("2 +3").unwrap();
    assert!(matches!(&toks[1], Token::Operator(s) if s == "+3"));
}

#[test]
fn precedence_table() {
    assert_eq!(precedence(&String::new()), 0);
    assert_eq!(precedence(&"+".to_string()), 1);
    assert_eq!(precedence(&"-".to_string()), 1);
    assert_eq!(precedence(&"*".to_string()), 2);
    assert_eq!(precedence(&"/".to_string()), 2);
    assert_eq!(precedence(&"^".to_string()), 3);
}

#[test]
fn other_operators_bind_tightest() {
    let e = parse_formula("1 + 2 ^ 3").unwrap();
    match e {
        Expr::Binary(l, op, r) => {
            assert_eq!(op, "+");
            assert!(matches!(*l, Expr::Number(_)));
            assert!(matches!(*r, Expr::Binary(_, ref o, _) if o == "^"));
        }
        _ => panic!("expected a binary node"),
    }
}

#[test]
fn parse_errors() {
    assert_eq!(parse_formula("").unwrap_err(), ParseError::UnexpectedToken);
    assert_eq!(parse_formula(", 1").unwrap_err(), ParseError::UnexpectedToken);
    assert_eq!(parse_formula("1 +").unwrap_err(), ParseError::UnexpectedToken);
    let toks = tokenize("f(1").unwrap();
    assert_eq!(parse_expr(&toks, 0, toks.len()).unwrap_err(), ParseError::UnexpectedToken);
    let toks: Vec<Token> = vec![];
    assert_eq!(parse_expr(&toks, 0, 0).unwrap_err(), ParseError::UnexpectedEnd);
}

#[test]
fn calls_take_their_arguments() {
    let e = parse_formula("max(1, x, 3) + 2").unwrap();
    match e {
        Expr::Binary(l, _, _) => match *l {
            Expr::Call(name, args) => {
                assert_eq!(name, "max");
                assert_eq!(args.len(), 3);
            }
            _ => panic!("expected a call"),
        },
        _ => panic!("expected a binary node"),
    }
}

#[test]
fn statements() {
    let toks = tokenize("k = 0.5 * 2").unwrap();
    match parse_line(&toks).unwrap() {
        Line::Assign(name, e) => {
            assert_eq!(name, "k");
            let v = VM::compile(VM::optimize(e), &Registers::new()).unwrap().run(&vec![]);
            assert_eq!(v, num(1.0));
        }
    }
    assert_eq!(parse_statement("1 = 2").unwrap_err(), ParseError::UnexpectedToken);
    assert_eq!(parse_statement("k 2").unwrap_err(), ParseError::UnexpectedToken);
    assert_eq!(parse_statement("k").unwrap_err(), ParseError::UnexpectedToken);
}

#[test]
fn settings_dispatch() {
    assert_eq!(setting_of(&"spring_force".to_string()), Some(Setting::SpringForce));
    assert_eq!(setting_of(&"collision_response".to_string()), Some(Setting::CollisionResponse));
    assert_eq!(setting_of(&"k".to_string()), Some(Setting::Stiffness));
    assert_eq!(setting_of(&"g".to_string()), Some(Setting::Gravity));
    assert_eq!(setting_of(&"dampening".to_string()), Some(Setting::Damping));
    assert_eq!(setting_of(&"restitution".to_string()), Some(Setting::Restitution));
    assert_eq!(setting_of(&"impulse_response".to_string()), Some(Setting::Policy));
    assert_eq!(setting_of(&"gravity".to_string()), None);
}

#[test]
fn config_lines() {
    let mut c = Config::new();
    assert_eq!(c.stiffness, num(0.01));
    assert_eq!(c.gravity, num(-0.01));
    c.apply_line("// g = 5").unwrap();
    assert_eq!(c.gravity, num(-0.01));
    c.apply_line("g = 0 - 9.81 / 100").unwrap();
    assert_eq!(c.gravity, num(-0.0981));
    c.apply_line("unused = 3").unwrap();
    c.apply_line("collision_response = p * 2").unwrap();
    assert_eq!(c.collision_response.run(&vec![num(1.5), num(0.0), num(1.0)]), num(3.0));
    assert_eq!(
        c.apply_line("spring_force = y").unwrap_err(),
        ConfigError::Compile(CompileError::UnknownVariable)
    );
    assert_eq!(c.apply_line("k = ").unwrap_err(), ConfigError::Parse(ParseError::UnexpectedToken));
    assert_eq!(c.apply_line("k = 1 ^ 2").unwrap_err(), ConfigError::Unbalanced);
    assert_eq!(c.apply_line("spring_force = x ^ v").unwrap_err(), ConfigError::Unbalanced);
    c.apply_line("// anything at all (").unwrap();
    assert_eq!(c.policy, ResponsePolicy::Formula);
    c.apply_line("impulse_response = 1").unwrap();
    assert_eq!(c.policy, ResponsePolicy::Impulse);
    c.apply_line("impulse_response = 0").unwrap();
    assert_eq!(c.policy, ResponsePolicy::Formula);
}

#[test]
fn default_programs_are_the_compiled_defaults() {
    let c = Config::new();
    let sf = compile_formula("0 - k * x - dampening * v", &spring_force_registers(), 4).unwrap();
    let cr = compile_formula("(0 - p + other_p) / mass", &collision_response_registers(), 3).unwrap();
    assert_eq!(format!("{:?}", c.spring_force.instructions), format!("{:?}", sf.instructions));
    assert_eq!(format!("{:?}", c.collision_response.instructions), format!("{:?}", cr.instructions));
}
