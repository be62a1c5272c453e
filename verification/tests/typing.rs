//! Tests of the typed layer: the size model, tuple fields, the checker's
//! rules, and its error reporting.

use harborc::hir::{Error, Expr, Type, TypeEnv};

fn int_t() -> Type {
    Type::Integer
}

fn boolean() -> Type {
    Type::Bool
}

fn var(name: &str) -> Expr {
    Expr::Variable(String::from(name))
}

#[test]
fn scalar_sizes_are_one_cell() {
    assert_eq!(Type::Integer.get_size(), Ok(1));
    assert_eq!(Type::Bool.get_size(), Ok(1));
    assert_eq!(Type::Character.get_size(), Ok(1));
    assert_eq!(Type::Pointer(Box::new(Type::Void)).get_size(), Ok(1));
    assert_eq!(Type::Void.get_size(), Ok(0));
}

#[test]
fn tuple_size_is_the_sum_of_its_fields() {
    let t = Type::Tuple(vec![
        Type::Integer,
        Type::Tuple(vec![Type::Bool, Type::Character]),
        Type::Void,
    ]);
    assert_eq!(t.get_size(), Ok(3));
}

#[test]
fn size_of_a_function_type_is_an_error() {
    let f = Type::Function(vec![Type::Integer], Box::new(Type::Integer));
    let expected = Type::Function(vec![Type::Integer], Box::new(Type::Integer));
    assert_eq!(f.get_size(), Err(Error::SizeOfFunction(expected)));
}

#[test]
fn tuple_holding_a_function_has_no_size() {
    let f = Type::Function(vec![], Box::new(Type::Void));
    let t = Type::Tuple(vec![Type::Integer, f]);
    let expected = Type::Function(vec![], Box::new(Type::Void));
    assert_eq!(t.get_size(), Err(Error::SizeOfFunction(expected)));
}

#[test]
fn nth_gives_the_field_and_its_offset() {
    let t = Type::Tuple(vec![
        Type::Integer,
        Type::Tuple(vec![Type::Bool, Type::Character]),
        Type::Character,
    ]);
    let (field, offset) = t.nth(2).unwrap();
    assert_eq!(*field, Type::Character);
    assert_eq!(offset, 3);
}

#[test]
fn nth_out_of_range_is_nothing() {
    let t = Type::Tuple(vec![Type::Integer]);
    assert!(t.nth(1).is_none());
    assert!(Type::Integer.nth(0).is_none());
}

#[test]
fn literals_have_their_types() {
    let env = TypeEnv::new();
    assert_eq!(Expr::Integer(5).get_type(&env), Ok(Type::Integer));
    assert_eq!(Expr::Bool(true).get_type(&env), Ok(Type::Bool));
    assert_eq!(Expr::Character('a').get_type(&env), Ok(Type::Character));
    assert_eq!(Expr::Unit.get_type(&env), Ok(Type::Void));
    assert_eq!(Expr::Getnum.get_type(&env), Ok(Type::Integer));
    assert_eq!(Expr::Getchar.get_type(&env), Ok(Type::Character));
}

#[test]
fn a_variable_out_of_scope_is_reported() {
    let env = TypeEnv::new();
    assert_eq!(
        var("x").get_type(&env),
        Err(Error::VariableNotInScope(String::from("x")))
    );
}

#[test]
fn checking_twice_gives_the_identical_result() {
    let mut env = TypeEnv::new();
    env.insert(String::from("x"), int_t());
    let e = Expr::Add(Box::new(var("x")), Box::new(Expr::Integer(1)));
    assert_eq!(e.get_type(&env), e.get_type(&env));
}

#[test]
fn let_with_wrong_value_type_is_a_mismatch() {
    let make = || {
        Expr::Let(
            String::from("x"),
            boolean(),
            Box::new(Expr::Integer(1)),
            Box::new(Expr::Unit),
        )
    };
    let env = TypeEnv::new();
    assert_eq!(
        make().get_type(&env),
        Err(Error::MismatchedTypes(make(), Type::Bool, Type::Integer))
    );
}

#[test]
fn let_infer_agrees_with_the_explicit_let() {
    let env = TypeEnv::new();
    let inferred = Expr::LetInfer(
        String::from("x"),
        Box::new(Expr::Integer(5)),
        Box::new(var("x")),
    );
    let explicit = Expr::Let(
        String::from("x"),
        int_t(),
        Box::new(Expr::Integer(5)),
        Box::new(var("x")),
    );
    assert_eq!(inferred.get_type(&env), Ok(Type::Integer));
    assert_eq!(inferred.get_type(&env), explicit.get_type(&env));
}

#[test]
fn value_bindings_do_not_leak_into_function_literals() {
    // let y: int = 3 in let f: () -> int = fn() -> int = y in putnum(f())
    let body = Expr::Function(vec![], int_t(), Box::new(var("y")));
    let inner = Expr::Let(
        String::from("f"),
        Type::Function(vec![], Box::new(int_t())),
        Box::new(body),
        Box::new(Expr::Putnum(Box::new(Expr::Call(String::from("f"), vec![])))),
    );
    let outer = Expr::Let(
        String::from("y"),
        int_t(),
        Box::new(Expr::Integer(3)),
        Box::new(inner),
    );
    let env = TypeEnv::new();
    assert_eq!(
        outer.get_type(&env),
        Err(Error::VariableNotInScope(String::from("y")))
    );
}

#[test]
fn function_bindings_are_visible_inside_function_literals() {
    let mut env = TypeEnv::new();
    env.insert(
        String::from("f"),
        Type::Function(vec![Type::Integer], Box::new(int_t())),
    );
    let g = Expr::Function(
        vec![(String::from("n"), int_t())],
        int_t(),
        Box::new(Expr::Call(String::from("f"), vec![var("n")])),
    );
    assert_eq!(
        g.get_type(&env),
        Ok(Type::Function(vec![Type::Integer], Box::new(int_t())))
    );
}

#[test]
fn pointer_plus_integer_keeps_the_pointer_type() {
    let mut env = TypeEnv::new();
    env.insert(String::from("p"), Type::Pointer(Box::new(int_t())));
    let e = Expr::Add(Box::new(var("p")), Box::new(Expr::Integer(1)));
    assert_eq!(e.get_type(&env), Ok(Type::Pointer(Box::new(int_t()))));
}

#[test]
fn integer_plus_pointer_is_rejected() {
    let mut env = TypeEnv::new();
    env.insert(String::from("p"), Type::Pointer(Box::new(int_t())));
    let make = || Expr::Add(Box::new(Expr::Integer(1)), Box::new(var("p")));
    assert_eq!(
        make().get_type(&env),
        Err(Error::MismatchedTypes(
            make(),
            Type::Integer,
            Type::Pointer(Box::new(int_t()))
        ))
    );
}

#[test]
fn calling_a_value_binding_is_reported() {
    let mut env = TypeEnv::new();
    env.insert(String::from("x"), int_t());
    let e = Expr::Call(String::from("x"), vec![]);
    assert_eq!(
        e.get_type(&env),
        Err(Error::CallNonFunction(String::from("x")))
    );
}

#[test]
fn allocating_void_cells_is_reported() {
    let make = || Expr::Alloc(Box::new(Expr::Integer(1)), Type::Void, None);
    let env = TypeEnv::new();
    assert_eq!(make().get_type(&env), Err(Error::AllocVoid(make())));
}

#[test]
fn comparing_tuples_is_reported() {
    let pair = || Expr::Tuple(vec![Expr::Integer(1), Expr::Integer(2)]);
    let make = || Expr::Eq(Box::new(pair()), Box::new(pair()));
    let env = TypeEnv::new();
    assert_eq!(
        make().get_type(&env),
        Err(Error::CmpOfTuple(
            make(),
            Type::Tuple(vec![Type::Integer, Type::Integer])
        ))
    );
}

#[test]
fn dereferencing_a_non_pointer_is_reported() {
    let make = || Expr::Deref(Box::new(Expr::Integer(3)));
    let env = TypeEnv::new();
    assert_eq!(
        make().get_type(&env),
        Err(Error::DerefNonPointer(make(), Type::Integer))
    );
}

#[test]
fn field_access_on_a_non_tuple_is_reported() {
    let make = || Expr::Nth(Box::new(Expr::Integer(3)), 0);
    let env = TypeEnv::new();
    assert_eq!(
        make().get_type(&env),
        Err(Error::NthOfNonTuple(make(), Type::Integer))
    );
}

#[test]
fn putnum_accepts_integers_and_pointers() {
    let mut env = TypeEnv::new();
    env.insert(String::from("p"), Type::Pointer(Box::new(int_t())));
    assert_eq!(
        Expr::Putnum(Box::new(Expr::Integer(1))).get_type(&env),
        Ok(Type::Void)
    );
    assert_eq!(Expr::Putnum(Box::new(var("p"))).get_type(&env), Ok(Type::Void));
    let make = || Expr::Putnum(Box::new(Expr::Bool(true)));
    assert_eq!(
        make().get_type(&env),
        Err(Error::MismatchedTypes(make(), Type::Integer, Type::Bool))
    );
}

#[test]
fn while_requires_a_boolean_condition_and_a_void_body() {
    let env = TypeEnv::new();
    let good = Expr::While(Box::new(Expr::Bool(true)), Box::new(Expr::Unit));
    assert_eq!(good.get_type(&env), Ok(Type::Void));
    let make = || Expr::While(Box::new(Expr::Integer(1)), Box::new(Expr::Unit));
    assert_eq!(
        make().get_type(&env),
        Err(Error::MismatchedTypes(make(), Type::Bool, Type::Integer))
    );
}

#[test]
fn a_block_takes_the_type_of_its_last_element() {
    let env = TypeEnv::new();
    let e = Expr::Block(vec![Expr::Unit, Expr::Integer(4)]);
    assert_eq!(e.get_type(&env), Ok(Type::Integer));
    assert_eq!(Expr::Block(vec![]).get_type(&env), Ok(Type::Void));
}
