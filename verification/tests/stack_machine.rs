//! Tests of the stack-machine layer: locations, the assembler, macro
//! scoping, and the function builder.

use harborc::lir::Program;
use harborc::mir::{function, Address, Error, Literal, MacroScope, Op};
use harborc::mir::{fp, r0, sp};

#[test]
fn get_address_folds_offsets() {
    let loc = sp().offset(5).offset(3);
    assert_eq!(loc.get_address(), Ok(Address(8)));
}

#[test]
fn get_address_wraps_below_zero() {
    let loc = sp().offset(-1);
    assert_eq!(loc.get_address(), Ok(Address(u32::MAX)));
}

#[test]
fn get_address_of_deref_is_an_error() {
    let loc = fp().deref();
    assert_eq!(
        loc.get_address(),
        Err(Error::CannotGetRuntimeAddress(fp().deref()))
    );
}

#[test]
fn to_and_from_are_inverse_moves() {
    let loc = fp().deref().offset(2);
    let mut p = Program::default();
    loc.to(&mut p);
    let to_text = p.assemble();
    let mut q = Program::default();
    loc.from(&mut q);
    let from_text = q.assemble();
    assert_eq!(to_text, ">>>*>>");
    assert_eq!(from_text, "<<&<<<");
}

#[test]
fn zero_drains_a_cell() {
    let mut p = Program::default();
    r0().zero(&mut p);
    assert_eq!(p.assemble(), ">>>>>>>>[-]<<<<<<<<");
}

#[test]
fn set_emits_drain_then_increment() {
    let mut p = Program::default();
    r0().set(4, &mut p);
    assert_eq!(p.assemble(), ">>>>>>>>[-]<<<<<<<<>>>>>>>>++++<<<<<<<<");
}

#[test]
fn undefined_macro_is_reported() {
    let mut p = Program::default();
    let r = Op::Macro(String::from("missing")).assemble(&mut p);
    assert_eq!(r, Err(Error::MacroNotDefined(String::from("missing"))));
}

#[test]
fn let_binds_a_macro_for_its_body() {
    let mut with_macro = Program::default();
    let r = Op::Let(
        String::from("emit"),
        vec![Op::Putnum],
        vec![Op::Macro(String::from("emit"))],
    )
    .assemble(&mut with_macro);
    assert!(r.is_ok());

    let mut direct = Program::default();
    Op::Putnum.assemble(&mut direct).unwrap();
    assert_eq!(with_macro.0, direct.0);
}

#[test]
fn macro_expansion_does_not_recurse_through_itself() {
    let mut p = Program::default();
    let r = Op::Let(
        String::from("m"),
        vec![Op::Macro(String::from("m"))],
        vec![Op::Macro(String::from("m"))],
    )
    .assemble(&mut p);
    assert_eq!(r, Err(Error::MacroNotDefined(String::from("m"))));
}

#[test]
fn scope_lookup_takes_the_newest_binding() {
    let mut scope = MacroScope::new();
    scope.insert(String::from("m"), vec![Op::Putnum]);
    scope.insert(String::from("m"), vec![Op::Putchar]);
    assert_eq!(scope.get(&String::from("m")), Some(&vec![Op::Putchar]));
    assert_eq!(scope.get(&String::from("other")), None);
}

#[test]
fn scope_remove_unbinds() {
    let mut scope = MacroScope::new();
    scope.insert(String::from("m"), vec![Op::Putnum]);
    scope.remove(&String::from("m"));
    assert_eq!(scope.get(&String::from("m")), None);
}

#[test]
fn assemble_with_scope_uses_the_given_bindings() {
    let mut scope = MacroScope::new();
    scope.insert(String::from("emit"), vec![Op::Putnum]);
    let mut with_macro = Program::default();
    Op::Macro(String::from("emit"))
        .assemble_with_scope(&scope, &mut with_macro)
        .unwrap();
    let mut direct = Program::default();
    Op::Putnum.assemble(&mut direct).unwrap();
    assert_eq!(with_macro.0, direct.0);
}

#[test]
fn push_literal_sets_the_new_stack_top() {
    let mut p = Program::default();
    Op::PushLiteral(Literal(5)).assemble(&mut p).unwrap();
    // Bump SP, then drain and set the cell SP points to.
    assert_eq!(p.assemble(), "+*[-]&*+++++&");
}

#[test]
fn stalloc_and_stfree_adjust_the_stack_pointer() {
    let mut p = Program::default();
    Op::Stalloc(3).assemble(&mut p).unwrap();
    Op::Stfree(2).assemble(&mut p).unwrap();
    Op::Stalloc(0).assemble(&mut p).unwrap();
    assert_eq!(p.assemble(), "+++--");
}

#[test]
fn neq_assembles_as_eq_then_not() {
    let mut neq = Program::default();
    Op::Neq.assemble(&mut neq).unwrap();
    let mut eq_not = Program::default();
    Op::Eq.assemble(&mut eq_not).unwrap();
    Op::Not.assemble(&mut eq_not).unwrap();
    assert_eq!(neq.0, eq_not.0);
}

#[test]
fn frame_without_arguments_still_saves_the_frame_pointer() {
    let mut p = Program::default();
    Op::Frame(0, 0, vec![]).assemble(&mut p).unwrap();
    let text = p.assemble();
    assert!(!text.is_empty());
    // The emission must be balanced: every cursor walk returns to cell 0.
    assert_eq!(
        text.matches('>').count(),
        text.matches('<').count()
    );
}

#[test]
fn function_builds_a_frame_of_the_summed_argument_size() {
    let op = function(
        vec![(String::from("x"), 1), (String::from("y"), 2)],
        1,
        vec![Op::Putnum],
    );
    assert!(matches!(op, Op::Frame(3, 1, _)));
}

#[test]
fn function_binds_each_argument_name() {
    let op = function(vec![(String::from("x"), 1)], 0, vec![
        Op::Macro(String::from("x")),
        Op::Pop(harborc::mir::tmp2()),
    ]);
    let mut p = Program::default();
    assert!(op.assemble(&mut p).is_ok());
}

#[test]
fn the_builtin_scope_binds_the_io_macros() {
    let scope = harborc::mir::builtin_scope();
    assert_eq!(scope.get(&String::from("putnum")), Some(&vec![Op::Putnum]));
    assert_eq!(scope.get(&String::from("putchar")), Some(&vec![Op::Putchar]));
    assert_eq!(scope.get(&String::from("getnum")), Some(&vec![Op::Getnum]));
    assert_eq!(scope.get(&String::from("getchar")), Some(&vec![Op::Getchar]));
    let bump = sp().deref().deref();
    assert_eq!(
        scope.get(&String::from("inc")),
        Some(&vec![Op::Increment(bump, 1), Op::Pop(harborc::mir::tmp2())])
    );
    assert_eq!(scope.get(&String::from("other")), None);
}

#[test]
fn the_builtin_scope_assembles_a_macro_program() {
    let scope = harborc::mir::builtin_scope();
    let mut with_macro = Program::default();
    Op::Do(vec![Op::PushLiteral(Literal(7)), Op::Macro(String::from("putnum"))])
        .assemble_with_scope(&scope, &mut with_macro)
        .unwrap();
    let mut direct = Program::default();
    Op::Do(vec![Op::PushLiteral(Literal(7)), Op::Putnum])
        .assemble(&mut direct)
        .unwrap();
    assert_eq!(with_macro.0, direct.0);
}
