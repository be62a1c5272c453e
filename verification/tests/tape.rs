//! Tests of the tape-machine layer: the program accumulator, rendering,
//! parsing, and the round trip between them.

use harborc::lir::{Op, Program};

#[test]
fn builder_methods_append_in_order() {
    let mut p = Program::default();
    p.plus(3);
    p.minus(1);
    p.right(2);
    p.left(2);
    p.begin_loop();
    p.end_loop();
    p.put();
    p.get();
    p.putnum();
    p.getnum();
    p.refer();
    p.deref();
    p.allocate();
    p.free();
    assert_eq!(
        p.0,
        vec![
            Op::Plus(3),
            Op::Minus(1),
            Op::Right(2),
            Op::Left(2),
            Op::Loop,
            Op::End,
            Op::Put,
            Op::Get,
            Op::Putnum,
            Op::Getnum,
            Op::Refer,
            Op::Deref,
            Op::Alloc,
            Op::Free,
        ]
    );
}

#[test]
fn assemble_writes_counts_out() {
    let p = Program(vec![Op::Plus(3), Op::Right(2), Op::Loop, Op::Minus(1), Op::End]);
    assert_eq!(p.assemble(), "+++>>[-]");
}

#[test]
fn assemble_skips_zero_counts() {
    let p = Program(vec![Op::Plus(0), Op::Putnum, Op::Left(0)]);
    assert_eq!(p.assemble(), "$");
}

#[test]
fn parse_reads_one_op_per_glyph() {
    let p = Program::parse("+-<>[],.#$*&?!");
    assert_eq!(
        p.0,
        vec![
            Op::Plus(1),
            Op::Minus(1),
            Op::Left(1),
            Op::Right(1),
            Op::Loop,
            Op::End,
            Op::Get,
            Op::Put,
            Op::Getnum,
            Op::Putnum,
            Op::Deref,
            Op::Refer,
            Op::Alloc,
            Op::Free,
        ]
    );
}

#[test]
fn parse_skips_comment_characters() {
    let p = Program::parse("a +x1\n-\t!");
    assert_eq!(p.0, vec![Op::Plus(1), Op::Minus(1), Op::Free]);
}

#[test]
fn round_trip_expands_counts() {
    let p = Program(vec![Op::Plus(2), Op::Loop, Op::Minus(1), Op::End, Op::Right(3)]);
    let back = Program::parse(&p.assemble());
    assert_eq!(
        back.0,
        vec![
            Op::Plus(1),
            Op::Plus(1),
            Op::Loop,
            Op::Minus(1),
            Op::End,
            Op::Right(1),
            Op::Right(1),
            Op::Right(1),
        ]
    );
}

#[test]
fn round_trip_is_exact_on_normal_form() {
    let ops = vec![
        Op::Plus(1),
        Op::Loop,
        Op::Minus(1),
        Op::End,
        Op::Deref,
        Op::Refer,
        Op::Alloc,
        Op::Free,
        Op::Putnum,
    ];
    let p = Program(ops.clone());
    let back = Program::parse(&p.assemble());
    assert_eq!(back.0, ops);
}

#[test]
fn comment_keeps_text_and_frames_it() {
    let mut p = Program::default();
    p.plus(1);
    p.comment("note");
    assert_eq!(p.0.len(), 1 + 4 + 2);
    assert_eq!(p.0[1], Op::Comment('\n'));
    assert_eq!(p.0[2], Op::Comment('n'));
    assert_eq!(p.0[3], Op::Comment('o'));
    assert_eq!(p.0[4], Op::Comment('t'));
    assert_eq!(p.0[5], Op::Comment('e'));
    assert_eq!(p.0[6], Op::Comment('\n'));
}

#[test]
fn comments_render_and_vanish_on_reparse() {
    let mut p = Program::default();
    p.comment("note");
    p.plus(1);
    let text = p.assemble();
    assert_eq!(text, "\nnote\n+");
    let back = Program::parse(&text);
    assert_eq!(back.0, vec![Op::Plus(1)]);
}

#[test]
fn shift_moves_either_way() {
    let mut p = Program::default();
    p.shift(3);
    p.shift(-2);
    p.shift(0);
    assert_eq!(p.0, vec![Op::Right(3), Op::Left(2)]);
}
