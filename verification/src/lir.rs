//! The tape-machine layer.
//!
//! A program for the tape machine is an ordered sequence of operations, each
//! written as a single character: `+ - < > [ ] , . # $ * & ? !`.  Any other
//! character is a comment.  This module holds the operation type, the mutable
//! program accumulator that the assembler fills, the renderer that turns a
//! program into its textual form, and the parser that reads that form back.

use vstd::prelude::*;
use vstd::string::StrSliceExecFns;

verus! {

/// One tape-machine operation.
///
/// `Plus`, `Minus`, `Left` and `Right` carry a repetition count: `Plus(3)`
/// renders as `+++`.  `Comment` carries a single character that the machine
/// ignores.
#[derive(Clone, Copy, Debug, PartialEq, Eq, PartialOrd, Ord, Hash, Structural)]
pub enum Op {
    Comment(char),

    Plus(u32),
    Minus(u32),
    Left(u32),
    Right(u32),
    Loop,
    End,

    Put,
    Get,
    Putnum,
    Getnum,

    Refer,
    Deref,

    Alloc,
    Free,
}

/// The textual form of a single operation.
pub open spec fn op_text(op: Op) -> Seq<char> {
    match op {
        Op::Comment(c) => seq![c],
        Op::Plus(n) => Seq::new(n as nat, |i: int| '+'),
        Op::Minus(n) => Seq::new(n as nat, |i: int| '-'),
        Op::Left(n) => Seq::new(n as nat, |i: int| '<'),
        Op::Right(n) => Seq::new(n as nat, |i: int| '>'),
        Op::Loop => seq!['['],
        Op::End => seq![']'],
        Op::Get => seq![','],
        Op::Put => seq!['.'],
        Op::Getnum => seq!['#'],
        Op::Putnum => seq!['$'],
        Op::Refer => seq!['&'],
        Op::Deref => seq!['*'],
        Op::Alloc => seq!['?'],
        Op::Free => seq!['!'],
    }
}

/// The textual form of an operation sequence: each operation's text in order.
pub open spec fn text_of(ops: Seq<Op>) -> Seq<char>
    decreases ops.len(),
{
    if ops.len() == 0 {
        Seq::empty()
    } else {
        text_of(ops.drop_last()) + op_text(ops.last())
    }
}

/// The operations one character stands for when a program text is read:
/// one operation per glyph, nothing for a comment character.
pub open spec fn char_ops(c: char) -> Seq<Op> {
    match c {
        '+' => seq![Op::Plus(1)],
        '-' => seq![Op::Minus(1)],
        '<' => seq![Op::Left(1)],
        '>' => seq![Op::Right(1)],
        '[' => seq![Op::Loop],
        ']' => seq![Op::End],
        ',' => seq![Op::Get],
        '.' => seq![Op::Put],
        '#' => seq![Op::Getnum],
        '$' => seq![Op::Putnum],
        '*' => seq![Op::Deref],
        '&' => seq![Op::Refer],
        '?' => seq![Op::Alloc],
        '!' => seq![Op::Free],
        _ => Seq::empty(),
    }
}

/// The operation sequence a program text denotes.
pub open spec fn ops_of(text: Seq<char>) -> Seq<Op>
    decreases text.len(),
{
    if text.len() == 0 {
        Seq::empty()
    } else {
        ops_of(text.drop_last()) + char_ops(text.last())
    }
}

/// An operation sequence in the normal form that re-parsing a rendered
/// program yields: every repetition count is expanded into single steps
/// (`Plus(3)` becomes three `Plus(1)`), and a comment is dropped — unless
/// its character is itself a glyph, in which case it reads back as that
/// operation.
pub open spec fn expand_op(op: Op) -> Seq<Op> {
    match op {
        Op::Comment(c) => char_ops(c),
        Op::Plus(n) => Seq::new(n as nat, |i: int| Op::Plus(1)),
        Op::Minus(n) => Seq::new(n as nat, |i: int| Op::Minus(1)),
        Op::Left(n) => Seq::new(n as nat, |i: int| Op::Left(1)),
        Op::Right(n) => Seq::new(n as nat, |i: int| Op::Right(1)),
        _ => seq![op],
    }
}

/// `expand_op` applied across a whole sequence.
pub open spec fn expanded(ops: Seq<Op>) -> Seq<Op>
    decreases ops.len(),
{
    if ops.len() == 0 {
        Seq::empty()
    } else {
        expanded(ops.drop_last()) + expand_op(ops.last())
    }
}

// Reading a character out of a `Vec<char>` does not give the solver the
// character's type invariant; passing it through a typed binding does.
fn typed_char(c: char) -> (r: char)
    ensures
        r == c,
{
    c
}

/// Relies on String::push: appends the given character to the end of the string.
#[verifier::external_body]
fn push_char(out: &mut String, ch: char)
    ensures
        final(out)@ == old(out)@.push(ch),
{
    out.push(ch);
}

/// The characters of the string, in order.
fn str_chars(s: &str) -> (cs: Vec<char>)
    ensures
        cs@ == s@,
{
    let n = s.unicode_len();
    let mut cs: Vec<char> = Vec::new();
    let mut i: usize = 0;
    while i < n
        invariant
            i <= n,
            n as nat == s@.len(),
            cs@.len() == i,
            forall|j: int| 0 <= j < i ==> cs@[j] == s@[j],
        decreases n - i,
    {
        let c = s.get_char(i);
        cs.push(c);
        i = i + 1;
    }
    proof {
        assert(cs@.len() == s@.len());
        assert forall|j: int| 0 <= j < cs@.len() implies cs@[j] == s@[j] by {}
        assert(cs@ =~= s@);
    }
    cs
}

fn push_repeat(out: &mut String, ch: char, n: u32)
    ensures
        final(out)@ == old(out)@ + Seq::new(n as nat, |i: int| ch),
{
    let mut k: u32 = 0;
    while k < n
        invariant
            k <= n,
            out@ == old(out)@ + Seq::new(k as nat, |i: int| ch),
        decreases n - k,
    {
        push_char(out, ch);
        k = k + 1;
        proof {
            assert(out@ =~= old(out)@ + Seq::new(k as nat, |i: int| ch));
        }
    }
}

/// A tape-machine program: the ordered, growable sequence of operations that
/// the assembler emits into.
#[derive(Clone, Debug, PartialEq, Eq, PartialOrd, Ord, Hash)]
pub struct Program(pub Vec<Op>);

impl View for Program {
    type V = Seq<Op>;

    open spec fn view(&self) -> Seq<Op> {
        self.0@
    }
}

impl Default for Program {
    fn default() -> (r: Self)
        ensures
            r@ == Seq::<Op>::empty(),
    {
        Program(Vec::new())
    }
}

impl Program {
    /// Records a comment: the text's characters as comment operations,
    /// framed by newline comments.
    pub fn comment(&mut self, c: &str)
        ensures
            final(self)@.len() == old(self)@.len() + c@.len() + 2,
            final(self)@.subrange(0, old(self)@.len() as int) == old(self)@,
            final(self)@[old(self)@.len() as int] == Op::Comment('\n'),
            final(self)@.last() == Op::Comment('\n'),
            forall|j: int|
                0 <= j < c@.len() ==> final(self)@[old(self)@.len() + 1 + j] == Op::Comment(c@[j]),
    {
        self.0.push(Op::Comment('\n'));
        let cs = str_chars(c);
        let mut i: usize = 0;
        while i < cs.len()
            invariant
                i <= cs.len(),
                cs@ == c@,
                self@.len() == old(self)@.len() + 1 + i,
                self@.subrange(0, old(self)@.len() as int) == old(self)@,
                self@[old(self)@.len() as int] == Op::Comment('\n'),
                forall|j: int|
                    0 <= j < i ==> self@[old(self)@.len() + 1 + j] == Op::Comment(cs@[j]),
            decreases cs@.len() - i,
        {
            let ch = typed_char(cs[i]);
            self.0.push(Op::Comment(ch));
            i = i + 1;
            proof {
                assert(self@.subrange(0, old(self)@.len() as int) =~= old(self)@);
            }
        }
        self.0.push(Op::Comment('\n'));
        proof {
            assert(self@.subrange(0, old(self)@.len() as int) =~= old(self)@);
        }
    }

    pub fn plus(&mut self, n: u32)
        ensures
            final(self)@ == old(self)@.push(Op::Plus(n)),
    {
        self.0.push(Op::Plus(n));
    }

    pub fn minus(&mut self, n: u32)
        ensures
            final(self)@ == old(self)@.push(Op::Minus(n)),
    {
        self.0.push(Op::Minus(n));
    }

    /// Moves the cursor by a signed distance: right for a positive count,
    /// left for a negative one, nothing for zero.
    pub fn shift(&mut self, n: i32)
        ensures
            final(self)@ == old(self)@ + shift_ops(n as int),
    {
        if n > 0 {
            self.0.push(Op::Right(n as u32));
        } else if n < 0 {
            let mag: u32 = (-(n as i64)) as u32;
            self.0.push(Op::Left(mag));
        }
        proof {
            assert(self@ =~= old(self)@ + shift_ops(n as int));
        }
    }

    pub fn left(&mut self, n: u32)
        ensures
            final(self)@ == old(self)@.push(Op::Left(n)),
    {
        self.0.push(Op::Left(n));
    }

    pub fn right(&mut self, n: u32)
        ensures
            final(self)@ == old(self)@.push(Op::Right(n)),
    {
        self.0.push(Op::Right(n));
    }

    pub fn begin_loop(&mut self)
        ensures
            final(self)@ == old(self)@.push(Op::Loop),
    {
        self.0.push(Op::Loop);
    }

    pub fn end_loop(&mut self)
        ensures
            final(self)@ == old(self)@.push(Op::End),
    {
        self.0.push(Op::End);
    }

    pub fn refer(&mut self)
        ensures
            final(self)@ == old(self)@.push(Op::Refer),
    {
        self.0.push(Op::Refer);
    }

    pub fn deref(&mut self)
        ensures
            final(self)@ == old(self)@.push(Op::Deref),
    {
        self.0.push(Op::Deref);
    }

    pub fn allocate(&mut self)
        ensures
            final(self)@ == old(self)@.push(Op::Alloc),
    {
        self.0.push(Op::Alloc);
    }

    pub fn free(&mut self)
        ensures
            final(self)@ == old(self)@.push(Op::Free),
    {
        self.0.push(Op::Free);
    }

    pub fn put(&mut self)
        ensures
            final(self)@ == old(self)@.push(Op::Put),
    {
        self.0.push(Op::Put);
    }

    pub fn putnum(&mut self)
        ensures
            final(self)@ == old(self)@.push(Op::Putnum),
    {
        self.0.push(Op::Putnum);
    }

    pub fn get(&mut self)
        ensures
            final(self)@ == old(self)@.push(Op::Get),
    {
        self.0.push(Op::Get);
    }

    pub fn getnum(&mut self)
        ensures
            final(self)@ == old(self)@.push(Op::Getnum),
    {
        self.0.push(Op::Getnum);
    }

    /// Renders the program as tape-machine text: every operation's glyphs in
    /// order, with repetition counts written out.
    pub fn assemble(&self) -> (text: String)
        ensures
            text@ == text_of(self@),
    {
        let mut out = String::new();
        let mut i: usize = 0;
        while i < self.0.len()
            invariant
                i <= self.0.len(),
                out@ == text_of(self@.take(i as int)),
            decreases self.0.len() - i,
        {
            let op = self.0[i];
            match op {
                Op::Comment(c) => push_char(&mut out, c),
                Op::Plus(n) => push_repeat(&mut out, '+', n),
                Op::Minus(n) => push_repeat(&mut out, '-', n),
                Op::Left(n) => push_repeat(&mut out, '<', n),
                Op::Right(n) => push_repeat(&mut out, '>', n),
                Op::Loop => push_char(&mut out, '['),
                Op::End => push_char(&mut out, ']'),
                Op::Get => push_char(&mut out, ','),
                Op::Put => push_char(&mut out, '.'),
                Op::Getnum => push_char(&mut out, '#'),
                Op::Putnum => push_char(&mut out, '$'),
                Op::Refer => push_char(&mut out, '&'),
                Op::Deref => push_char(&mut out, '*'),
                Op::Alloc => push_char(&mut out, '?'),
                Op::Free => push_char(&mut out, '!'),
            }
            i = i + 1;
            proof {
                assert(self@.take(i as int).drop_last() =~= self@.take(i as int - 1));
                assert(out@ =~= text_of(self@.take(i as int - 1)) + op_text(self@[i as int - 1]));
            }
        }
        proof {
            assert(self@.take(self.0.len() as int) =~= self@);
        }
        out
    }

    /// Reads a program back from tape-machine text: one operation per glyph;
    /// every other character is skipped as a comment.
    pub fn parse(code: &str) -> (p: Program)
        ensures
            p@ == ops_of(code@),
    {
        let cs = str_chars(code);
        let mut ops: Vec<Op> = Vec::new();
        let mut i: usize = 0;
        while i < cs.len()
            invariant
                i <= cs.len(),
                cs@ == code@,
                ops@ == ops_of(cs@.take(i as int)),
            decreases cs@.len() - i,
        {
            match cs[i] {
                '+' => ops.push(Op::Plus(1)),
                '-' => ops.push(Op::Minus(1)),
                '<' => ops.push(Op::Left(1)),
                '>' => ops.push(Op::Right(1)),
                '[' => ops.push(Op::Loop),
                ']' => ops.push(Op::End),
                ',' => ops.push(Op::Get),
                '.' => ops.push(Op::Put),
                '#' => ops.push(Op::Getnum),
                '$' => ops.push(Op::Putnum),
                '*' => ops.push(Op::Deref),
                '&' => ops.push(Op::Refer),
                '?' => ops.push(Op::Alloc),
                '!' => ops.push(Op::Free),
                _ => {},
            }
            i = i + 1;
            proof {
                assert(cs@.take(i as int).drop_last() =~= cs@.take(i as int - 1));
                assert(ops@ =~= ops_of(cs@.take(i as int - 1)) + char_ops(cs@[i as int - 1]));
            }
        }
        proof {
            assert(cs@.take(cs@.len() as int) =~= cs@);
        }
        Program(ops)
    }
}

/// The spelled-out form of `Program::shift`: a single right or left move with
/// the count's magnitude, or nothing for zero.
pub open spec fn shift_ops(n: int) -> Seq<Op> {
    if n > 0 {
        seq![Op::Right(n as u32)]
    } else if n < 0 {
        seq![Op::Left((-n) as u32)]
    } else {
        Seq::empty()
    }
}

proof fn lemma_ops_of_append(a: Seq<char>, b: Seq<char>)
    ensures
        ops_of(a + b) == ops_of(a) + ops_of(b),
    decreases b.len(),
{
    if b.len() == 0 {
        assert(a + b =~= a);
        assert(ops_of(a) + ops_of(b) =~= ops_of(a));
    } else {
        lemma_ops_of_append(a, b.drop_last());
        assert((a + b).drop_last() =~= a + b.drop_last());
        assert((a + b).last() == b.last());
        assert(ops_of(a) + ops_of(b) =~= ops_of(a) + ops_of(b.drop_last()) + char_ops(b.last()));
    }
}

/// `ops_of` over `n` copies of one character is `n` copies of that
/// character's operations.
proof fn lemma_ops_of_uniform(c: char, op: Op, n: nat)
    requires
        char_ops(c) == seq![op],
    ensures
        ops_of(Seq::new(n, |i: int| c)) == Seq::new(n, |i: int| op),
    decreases n,
{
    if n == 0 {
        assert(Seq::new(0, |i: int| c) =~= Seq::<char>::empty());
        assert(ops_of(Seq::new(n, |i: int| c)) =~= Seq::new(n, |i: int| op));
    } else {
        lemma_ops_of_uniform(c, op, (n - 1) as nat);
        assert(Seq::new(n, |i: int| c).drop_last() =~= Seq::new((n - 1) as nat, |i: int| c));
        assert(Seq::new(n, |i: int| c).last() == c);
        assert(ops_of(Seq::new(n, |i: int| c)) =~= Seq::new((n - 1) as nat, |i: int| op) + seq![op]);
        assert(Seq::new((n - 1) as nat, |i: int| op) + seq![op] =~= Seq::new(n, |i: int| op));
    }
}

proof fn lemma_ops_of_single(c: char)
    ensures
        ops_of(seq![c]) == char_ops(c),
{
    assert(seq![c].drop_last() =~= Seq::<char>::empty());
    assert(ops_of(Seq::<char>::empty()) == Seq::<Op>::empty());
    assert(ops_of(seq![c]) =~= char_ops(c));
}

/// Re-parsing one rendered operation yields its expanded form.
proof fn lemma_op_round_trip(op: Op)
    ensures
        ops_of(op_text(op)) == expand_op(op),
{
    match op {
        Op::Comment(c) => {
            lemma_ops_of_single(c);
        },
        Op::Plus(n) => {
            lemma_ops_of_uniform('+', Op::Plus(1), n as nat);
        },
        Op::Minus(n) => {
            lemma_ops_of_uniform('-', Op::Minus(1), n as nat);
        },
        Op::Left(n) => {
            lemma_ops_of_uniform('<', Op::Left(1), n as nat);
        },
        Op::Right(n) => {
            lemma_ops_of_uniform('>', Op::Right(1), n as nat);
        },
        Op::Loop => {
            lemma_ops_of_single('[');
            assert(char_ops('[') =~= expand_op(op));
        },
        Op::End => {
            lemma_ops_of_single(']');
            assert(char_ops(']') =~= expand_op(op));
        },
        Op::Put => {
            lemma_ops_of_single('.');
            assert(char_ops('.') =~= expand_op(op));
        },
        Op::Get => {
            lemma_ops_of_single(',');
            assert(char_ops(',') =~= expand_op(op));
        },
        Op::Putnum => {
            lemma_ops_of_single('$');
            assert(char_ops('$') =~= expand_op(op));
        },
        Op::Getnum => {
            lemma_ops_of_single('#');
            assert(char_ops('#') =~= expand_op(op));
        },
        Op::Refer => {
            lemma_ops_of_single('&');
            assert(char_ops('&') =~= expand_op(op));
        },
        Op::Deref => {
            lemma_ops_of_single('*');
            assert(char_ops('*') =~= expand_op(op));
        },
        Op::Alloc => {
            lemma_ops_of_single('?');
            assert(char_ops('?') =~= expand_op(op));
        },
        Op::Free => {
            lemma_ops_of_single('!');
            assert(char_ops('!') =~= expand_op(op));
        },
    }
}

/// Rendering a program and re-parsing the text yields the same operation
/// sequence, up to the normal form: comment characters are dropped and each
/// repetition count is expanded into single steps.
pub proof fn lemma_text_round_trip(ops: Seq<Op>)
    ensures
        ops_of(text_of(ops)) == expanded(ops),
    decreases ops.len(),
{
    if ops.len() == 0 {
    } else {
        lemma_text_round_trip(ops.drop_last());
        lemma_ops_of_append(text_of(ops.drop_last()), op_text(ops.last()));
        lemma_op_round_trip(ops.last());
    }
}

/// A program already in normal form is read back exactly as it was written.
pub proof fn lemma_text_round_trip_exact(ops: Seq<Op>)
    requires
        forall|i: int| 0 <= i < ops.len() ==> expand_op(#[trigger] ops[i]) == seq![ops[i]],
    ensures
        ops_of(text_of(ops)) == ops,
    decreases ops.len(),
{
    lemma_text_round_trip(ops);
    if ops.len() == 0 {
        assert(expanded(ops) =~= ops);
    } else {
        lemma_text_round_trip_exact(ops.drop_last());
        lemma_text_round_trip(ops.drop_last());
        assert(ops.last() == ops[ops.len() - 1]);
        assert(expanded(ops) =~= ops.drop_last() + seq![ops.last()]);
        assert(ops.drop_last() + seq![ops.last()] =~= ops);
    }
}

} // verus!
