//! Tests of the whole pipeline: typed expressions lowered to stack-machine
//! operations and assembled into tape-machine programs.

use harborc::hir::{compile_to_lir, Error, Expr, Type, TypeEnv};
use harborc::mir::{sp, Op};

fn int_t() -> Type {
    Type::Integer
}

fn var(name: &str) -> Expr {
    Expr::Variable(String::from(name))
}

/// Compiles a closed expression into tape-machine text.
fn pipeline(e: &Expr) -> Result<String, Error> {
    compile_to_lir(e).map(|p| p.assemble())
}

#[test]
fn a_literal_compiles_to_a_push() {
    let env = TypeEnv::new();
    let mut offset: u32 = 0;
    let op = Expr::Integer(7).compile(&env, &mut offset).unwrap();
    assert_eq!(op, Op::PushLiteral(harborc::mir::Literal(7)));
}

#[test]
fn a_character_compiles_to_its_code() {
    let env = TypeEnv::new();
    let mut offset: u32 = 0;
    let op = Expr::Character('A').compile(&env, &mut offset).unwrap();
    assert_eq!(op, Op::PushLiteral(harborc::mir::Literal(65)));
}

#[test]
fn booleans_compile_to_one_and_zero() {
    let env = TypeEnv::new();
    let mut offset: u32 = 0;
    assert_eq!(
        Expr::Bool(true).compile(&env, &mut offset).unwrap(),
        Op::PushLiteral(harborc::mir::Literal(1))
    );
    assert_eq!(
        Expr::Bool(false).compile(&env, &mut offset).unwrap(),
        Op::PushLiteral(harborc::mir::Literal(0))
    );
}

#[test]
fn compiling_an_ill_typed_expression_gives_the_checker_error() {
    let env = TypeEnv::new();
    let mut offset: u32 = 0;
    let make = || Expr::Not(Box::new(Expr::Integer(1)));
    assert_eq!(
        make().compile(&env, &mut offset),
        Err(Error::MismatchedTypes(make(), Type::Bool, Type::Integer))
    );
    assert_eq!(offset, 0);
}

#[test]
fn a_bound_variable_prints_through_the_pipeline() {
    // let x: int = 5 in putnum(x)
    let e = Expr::Let(
        String::from("x"),
        int_t(),
        Box::new(Expr::Integer(5)),
        Box::new(Expr::Putnum(Box::new(var("x")))),
    );
    let text = pipeline(&e).unwrap();
    assert!(text.contains('$'));
}

#[test]
fn factorial_compiles_through_the_pipeline() {
    // let fact: (int) -> int = fn(n: int) -> int =
    //     do let acc: int = 1 in
    //         do while (n != 0) do acc = acc * n; n-- end; acc end
    //     end end
    // in putnum(fact(5))
    let loop_body = Expr::Block(vec![
        Expr::Assign(
            String::from("acc"),
            Box::new(Expr::Mul(Box::new(var("acc")), Box::new(var("n")))),
        ),
        Expr::Decrement(String::from("n")),
    ]);
    let cond = Expr::Neq(Box::new(var("n")), Box::new(Expr::Integer(0)));
    let fn_body = Expr::Let(
        String::from("acc"),
        int_t(),
        Box::new(Expr::Integer(1)),
        Box::new(Expr::Block(vec![
            Expr::While(Box::new(cond), Box::new(loop_body)),
            var("acc"),
        ])),
    );
    let fact = Expr::Function(vec![(String::from("n"), int_t())], int_t(), Box::new(fn_body));
    let e = Expr::Let(
        String::from("fact"),
        Type::Function(vec![int_t()], Box::new(int_t())),
        Box::new(fact),
        Box::new(Expr::Putnum(Box::new(Expr::Call(
            String::from("fact"),
            vec![Expr::Integer(5)],
        )))),
    );
    let text = pipeline(&e).unwrap();
    assert!(text.contains('$'));
}

#[test]
fn allocation_indexing_and_free_compile_through_the_pipeline() {
    // let p: &int = alloc(3, int, [7, 8, 9]) in
    //     do putnum(p[0]); putnum(p[1]); putnum(p[2]); free(p) end
    let alloc = Expr::Alloc(
        Box::new(Expr::Integer(3)),
        int_t(),
        Some(vec![Expr::Integer(7), Expr::Integer(8), Expr::Integer(9)]),
    );
    let uses = Expr::Block(vec![
        Expr::Putnum(Box::new(Expr::Index(Box::new(var("p")), Box::new(Expr::Integer(0))))),
        Expr::Putnum(Box::new(Expr::Index(Box::new(var("p")), Box::new(Expr::Integer(1))))),
        Expr::Putnum(Box::new(Expr::Index(Box::new(var("p")), Box::new(Expr::Integer(2))))),
        Expr::Free(Box::new(var("p"))),
    ]);
    let e = Expr::Let(
        String::from("p"),
        Type::Pointer(Box::new(int_t())),
        Box::new(alloc),
        Box::new(uses),
    );
    let text = pipeline(&e).unwrap();
    assert!(text.contains('?'));
    assert!(text.contains('!'));
}

#[test]
fn tuple_field_access_compiles_through_the_pipeline() {
    // let t: (int, char) = (42, 'Z') in do putnum(t.0); putchar(t.1) end
    let tuple = Expr::Tuple(vec![Expr::Integer(42), Expr::Character('Z')]);
    let uses = Expr::Block(vec![
        Expr::Putnum(Box::new(Expr::Nth(Box::new(var("t")), 0))),
        Expr::Putchar(Box::new(Expr::Nth(Box::new(var("t")), 1))),
    ]);
    let e = Expr::Let(
        String::from("t"),
        Type::Tuple(vec![int_t(), Type::Character]),
        Box::new(tuple),
        Box::new(uses),
    );
    let text = pipeline(&e).unwrap();
    assert!(text.contains('$'));
    assert!(text.contains('.'));
}

#[test]
fn while_and_if_compile_to_structured_ops() {
    let env = TypeEnv::new();
    let mut offset: u32 = 0;
    let w = Expr::While(Box::new(Expr::Bool(false)), Box::new(Expr::Unit));
    assert!(matches!(
        w.compile(&env, &mut offset).unwrap(),
        Op::While(_, _)
    ));
    let i = Expr::If(Box::new(Expr::Bool(true)), Box::new(Expr::Unit));
    assert!(matches!(i.compile(&env, &mut offset).unwrap(), Op::If(_, _)));
}

#[test]
fn equality_with_zero_compiles_to_a_not() {
    let env = TypeEnv::new();
    let mut offset: u32 = 0;
    let e = Expr::Eq(Box::new(Expr::Getnum), Box::new(Expr::Integer(0)));
    let op = e.compile(&env, &mut offset).unwrap();
    assert_eq!(op, Op::Do(vec![Op::Getnum, Op::Not]));
}

#[test]
fn inequality_with_zero_compiles_to_the_operand_alone() {
    let env = TypeEnv::new();
    let mut offset: u32 = 0;
    let e = Expr::Neq(Box::new(Expr::Getnum), Box::new(Expr::Integer(0)));
    let op = e.compile(&env, &mut offset).unwrap();
    assert_eq!(op, Op::Getnum);
}

#[test]
fn increment_compiles_to_a_raw_cell_bump() {
    let mut env = TypeEnv::new();
    env.insert(String::from("x"), int_t());
    let mut offset: u32 = 0;
    let op = Expr::Increment(String::from("x"))
        .compile(&env, &mut offset)
        .unwrap();
    let target = sp().deref().deref();
    assert_eq!(
        op,
        Op::Do(vec![
            Op::Macro(String::from("x")),
            Op::Increment(target, 1),
            Op::Stfree(1),
        ])
    );
}

#[test]
fn the_offset_is_restored_after_compilation() {
    let env = TypeEnv::new();
    let mut offset: u32 = 7;
    let e = Expr::Let(
        String::from("x"),
        int_t(),
        Box::new(Expr::Integer(1)),
        Box::new(var("x")),
    );
    let op = e.compile(&env, &mut offset).unwrap();
    assert_eq!(offset, 7);
    // The binding's address is the frame pointer plus the offset in force.
    assert!(matches!(op, Op::Let(_, _, _)));
}

#[test]
fn compiling_a_variable_loads_its_cells() {
    let mut env = TypeEnv::new();
    env.insert(String::from("t"), Type::Tuple(vec![int_t(), int_t()]));
    let mut offset: u32 = 0;
    let op = var("t").compile(&env, &mut offset).unwrap();
    assert_eq!(op, Op::Do(vec![Op::Macro(String::from("t")), Op::Load(2)]));
}

#[test]
fn the_pipeline_seeds_the_stack_and_frame_pointers() {
    let text = pipeline(&Expr::Unit).unwrap();
    // SP and FP are both set to the first cell above the reserved registers.
    let expected = harborc::lir::Program::parse(
        "[-]++++++++++++++>>>[-]<<<>>>++++++++++++++<<<",
    );
    assert_eq!(harborc::lir::Program::parse(&text).0, expected.0);
}
