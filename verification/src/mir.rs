//! The stack-machine layer.
//!
//! An `Op` tree denotes stack-machine actions over the tape: pushes and pops,
//! loads and stores of runs of cells, arithmetic on the top of the stack,
//! structured control flow, named macros, and disciplined stack frames.  The
//! assembler in this module compiles an `Op` tree into tape-machine
//! operations, using the reserved cells at the bottom of the tape: the stack
//! pointer, the frame pointer, and a handful of temporaries and registers.
//!
//! Every location-parameterized emission brackets its work between a cursor
//! walk to the cell (`to`) and its exact inverse (`from`), so the cursor
//! rests on cell 0 between any two emissions.

use vstd::prelude::*;
use vstd::string::StringExecFns;

use crate::lir;
use crate::lir::Program;

verus! {

/// A fixed cell index on the tape.
#[derive(Clone, Copy, Debug, PartialEq, Eq, PartialOrd, Ord, Hash, Structural)]
pub struct Address(pub u32);

/// A literal cell value.
#[derive(Clone, Copy, Debug, PartialEq, Eq, PartialOrd, Ord, Hash, Structural)]
pub struct Literal(pub u32);

/// A cell the assembler can walk the cursor to: a fixed address, a relative
/// offset from another location, or the cell a location's value points to.
///
/// A `Deref` location has no compile-time address; emissions reach it through
/// the tape machine's dereference stack.
#[derive(Debug, PartialEq, Eq, PartialOrd, Ord, Hash)]
pub enum Location {
    Address(Address),
    Deref(Box<Self>),
    Offset(Box<Self>, i32),
}

impl Clone for Location {
    fn clone(&self) -> (r: Self)
        ensures
            r == *self,
        decreases *self,
    {
        match self {
            Location::Address(a) => Location::Address(*a),
            Location::Deref(inner) => Location::Deref(Box::new((**inner).clone())),
            Location::Offset(inner, count) => Location::Offset(
                Box::new((**inner).clone()),
                *count,
            ),
        }
    }
}

/// An error from the assembler.
#[derive(Debug, PartialEq, Eq, PartialOrd, Ord, Hash)]
pub enum Error {
    MacroNotDefined(String),
    CannotGetRuntimeAddress(Location),
    ParseError(String),
}

/// The number of reserved cells at the bottom of the tape; the data stack
/// grows upward from here.
pub const TOTAL_REGISTERS: u32 = 14;

/// Stack pointer: the cell holding the address of the top of the stack.
pub open spec fn spec_sp() -> Location {
    Location::Address(Address(0))
}

#[verifier::when_used_as_spec(spec_sp)]
pub fn sp() -> (r: Location)
    ensures
        r == spec_sp(),
{
    Location::Address(Address(0))
}

/// Frame pointer: the cell holding the address of the current frame's
/// first argument.
pub open spec fn spec_fp() -> Location {
    Location::Address(Address(3))
}

#[verifier::when_used_as_spec(spec_fp)]
pub fn fp() -> (r: Location)
    ensures
        r == spec_fp(),
{
    Location::Address(Address(3))
}

/// A temporary for the assembler's own use.
pub open spec fn spec_tmp0() -> Location {
    Location::Address(Address(1))
}

#[verifier::when_used_as_spec(spec_tmp0)]
pub fn tmp0() -> (r: Location)
    ensures
        r == spec_tmp0(),
{
    Location::Address(Address(1))
}

/// A temporary for the assembler's own use.
pub open spec fn spec_tmp1() -> Location {
    Location::Address(Address(2))
}

#[verifier::when_used_as_spec(spec_tmp1)]
pub fn tmp1() -> (r: Location)
    ensures
        r == spec_tmp1(),
{
    Location::Address(Address(2))
}

/// A temporary for the assembler's own use.
pub open spec fn spec_tmp2() -> Location {
    Location::Address(Address(4))
}

#[verifier::when_used_as_spec(spec_tmp2)]
pub fn tmp2() -> (r: Location)
    ensures
        r == spec_tmp2(),
{
    Location::Address(Address(4))
}

/// A temporary for the assembler's own use.
pub open spec fn spec_tmp3() -> Location {
    Location::Address(Address(5))
}

#[verifier::when_used_as_spec(spec_tmp3)]
pub fn tmp3() -> (r: Location)
    ensures
        r == spec_tmp3(),
{
    Location::Address(Address(5))
}

/// A temporary for the assembler's own use.
pub open spec fn spec_tmp4() -> Location {
    Location::Address(Address(6))
}

#[verifier::when_used_as_spec(spec_tmp4)]
pub fn tmp4() -> (r: Location)
    ensures
        r == spec_tmp4(),
{
    Location::Address(Address(6))
}

/// A temporary for the assembler's own use; inside a frame it holds the
/// active spill pointer for the frame's whole prologue and epilogue.
pub open spec fn spec_tmp5() -> Location {
    Location::Address(Address(7))
}

#[verifier::when_used_as_spec(spec_tmp5)]
pub fn tmp5() -> (r: Location)
    ensures
        r == spec_tmp5(),
{
    Location::Address(Address(7))
}

/// A general purpose register.
pub open spec fn spec_r0() -> Location {
    Location::Address(Address(8))
}

#[verifier::when_used_as_spec(spec_r0)]
pub fn r0() -> (r: Location)
    ensures
        r == spec_r0(),
{
    Location::Address(Address(8))
}

/// A general purpose register.
pub open spec fn spec_r1() -> Location {
    Location::Address(Address(9))
}

#[verifier::when_used_as_spec(spec_r1)]
pub fn r1() -> (r: Location)
    ensures
        r == spec_r1(),
{
    Location::Address(Address(9))
}

/// A general purpose register.
pub open spec fn spec_r2() -> Location {
    Location::Address(Address(10))
}

#[verifier::when_used_as_spec(spec_r2)]
pub fn r2() -> (r: Location)
    ensures
        r == spec_r2(),
{
    Location::Address(Address(10))
}

/// A general purpose register.
pub open spec fn spec_r3() -> Location {
    Location::Address(Address(11))
}

#[verifier::when_used_as_spec(spec_r3)]
pub fn r3() -> (r: Location)
    ensures
        r == spec_r3(),
{
    Location::Address(Address(11))
}

/// A general purpose register.
pub open spec fn spec_r4() -> Location {
    Location::Address(Address(12))
}

#[verifier::when_used_as_spec(spec_r4)]
pub fn r4() -> (r: Location)
    ensures
        r == spec_r4(),
{
    Location::Address(Address(12))
}

/// A general purpose register.
pub open spec fn spec_r5() -> Location {
    Location::Address(Address(13))
}

#[verifier::when_used_as_spec(spec_r5)]
pub fn r5() -> (r: Location)
    ensures
        r == spec_r5(),
{
    Location::Address(Address(13))
}

/// The operations that walk the cursor from cell 0 onto a location.
pub open spec fn to_ops(loc: Location) -> Seq<lir::Op>
    decreases loc,
{
    match loc {
        Location::Address(a) => seq![lir::Op::Right(a.0)],
        Location::Deref(inner) => to_ops(*inner).push(lir::Op::Deref),
        Location::Offset(inner, count) => to_ops(*inner) + lir::shift_ops(count as int),
    }
}

/// The operations that walk the cursor from a location back to cell 0: the
/// exact inverse of `to_ops`.
pub open spec fn from_ops(loc: Location) -> Seq<lir::Op>
    decreases loc,
{
    match loc {
        Location::Address(a) => seq![lir::Op::Left(a.0)],
        Location::Deref(inner) => seq![lir::Op::Refer] + from_ops(*inner),
        Location::Offset(inner, count) => lir::shift_ops(-(count as int)) + from_ops(*inner),
    }
}

/// An emission at a location: the walk there, the given work, and the walk
/// back.
pub open spec fn at_loc(loc: Location, work: Seq<lir::Op>) -> Seq<lir::Op> {
    to_ops(loc) + work + from_ops(loc)
}

/// Draining a cell to zero: a loop that decrements until the cell is empty.
pub open spec fn zero_ops(loc: Location) -> Seq<lir::Op> {
    at_loc(loc, seq![lir::Op::Loop, lir::Op::Minus(1), lir::Op::End])
}

pub open spec fn plus_ops(loc: Location, n: u32) -> Seq<lir::Op> {
    at_loc(loc, seq![lir::Op::Plus(n)])
}

pub open spec fn minus_ops(loc: Location, n: u32) -> Seq<lir::Op> {
    at_loc(loc, seq![lir::Op::Minus(n)])
}

/// Setting a cell to a value: drain it, then increment by the value.
pub open spec fn set_ops(loc: Location, value: u32) -> Seq<lir::Op> {
    zero_ops(loc) + plus_ops(loc, value)
}

pub open spec fn alloc_ops(loc: Location) -> Seq<lir::Op> {
    at_loc(loc, seq![lir::Op::Alloc])
}

/// Freeing through a cell: run the allocator's free on it, then drain the
/// cell itself to zero.
pub open spec fn free_ops(loc: Location) -> Seq<lir::Op> {
    at_loc(loc, seq![lir::Op::Free, lir::Op::Loop, lir::Op::Minus(1), lir::Op::End])
}

pub open spec fn put_ops(loc: Location) -> Seq<lir::Op> {
    at_loc(loc, seq![lir::Op::Put])
}

pub open spec fn get_ops(loc: Location) -> Seq<lir::Op> {
    at_loc(loc, seq![lir::Op::Get])
}

pub open spec fn putnum_ops(loc: Location) -> Seq<lir::Op> {
    at_loc(loc, seq![lir::Op::Putnum])
}

pub open spec fn getnum_ops(loc: Location) -> Seq<lir::Op> {
    at_loc(loc, seq![lir::Op::Getnum])
}

pub open spec fn begin_loop_ops(loc: Location) -> Seq<lir::Op> {
    at_loc(loc, seq![lir::Op::Loop])
}

pub open spec fn end_loop_ops(loc: Location) -> Seq<lir::Op> {
    at_loc(loc, seq![lir::Op::End])
}

impl Location {
    /// The static cell index of this location, if it has one.  A `Deref`
    /// location is only resolvable at runtime, so asking for its address is
    /// an error.  Offsets are folded in with wrap-around arithmetic on the
    /// 32-bit cell index.
    pub open spec fn spec_address(&self) -> Result<Address, Error>
        decreases *self,
    {
        match *self {
            Location::Address(a) => Ok(a),
            Location::Offset(inner, count) => match inner.spec_address() {
                Ok(a) => Ok(Address(add_wrap(a.0, count))),
                Err(e) => Err(e),
            },
            Location::Deref(_) => Err(Error::CannotGetRuntimeAddress(*self)),
        }
    }

    pub fn get_address(&self) -> (r: Result<Address, Error>)
        ensures
            r == self.spec_address(),
        decreases *self,
    {
        match self {
            Location::Address(a) => Ok(*a),
            Location::Offset(inner, count) => {
                match inner.get_address() {
                    Ok(a) => {
                        let sum: i64 = a.0 as i64 + *count as i64;
                        let wrapped: u32 = if sum < 0 {
                            (sum + 0x1_0000_0000i64) as u32
                        } else if sum >= 0x1_0000_0000i64 {
                            (sum - 0x1_0000_0000i64) as u32
                        } else {
                            sum as u32
                        };
                        Ok(Address(wrapped))
                    },
                    Err(e) => Err(e),
                }
            },
            Location::Deref(_) => Err(Error::CannotGetRuntimeAddress(self.clone())),
        }
    }

    /// The cell this location's value points to.
    pub fn deref(&self) -> (r: Self)
        ensures
            r == Location::Deref(Box::new(*self)),
    {
        Location::Deref(Box::new(self.clone()))
    }

    /// The cell a signed distance away from this location.
    pub fn offset(&self, count: i32) -> (r: Self)
        ensures
            r == Location::Offset(Box::new(*self), count),
    {
        Location::Offset(Box::new(self.clone()), count)
    }

    /// Walks the cursor from cell 0 onto this location.
    pub fn to(&self, program: &mut Program)
        ensures
            final(program)@ == old(program)@ + to_ops(*self),
        decreases *self,
    {
        match self {
            Location::Deref(value) => {
                value.to(program);
                program.deref();
                proof {
                    assert(program@ =~= old(program)@ + to_ops(*self));
                }
            },
            Location::Address(a) => {
                program.right(a.0);
                proof {
                    assert(program@ =~= old(program)@ + to_ops(*self));
                }
            },
            Location::Offset(value, count) => {
                value.to(program);
                program.shift(*count);
                proof {
                    assert(program@ =~= old(program)@ + to_ops(*self));
                }
            },
        }
    }

    /// Walks the cursor from this location back to cell 0: the exact inverse
    /// of `to`, undoing its moves in reverse order.
    pub fn from(&self, program: &mut Program)
        ensures
            final(program)@ == old(program)@ + from_ops(*self),
        decreases *self,
    {
        match self {
            Location::Deref(value) => {
                program.refer();
                value.from(program);
                proof {
                    assert(program@ =~= old(program)@ + from_ops(*self));
                }
            },
            Location::Address(a) => {
                program.left(a.0);
                proof {
                    assert(program@ =~= old(program)@ + from_ops(*self));
                }
            },
            Location::Offset(value, count) => {
                let c = *count;
                if c > 0 {
                    program.left(c as u32);
                } else if c < 0 {
                    let mag: u32 = (-(c as i64)) as u32;
                    program.right(mag);
                }
                proof {
                    assert(program@ =~= old(program)@ + lir::shift_ops(-(c as int)));
                }
                value.from(program);
                proof {
                    assert(program@ =~= old(program)@ + from_ops(*self));
                }
            },
        }
    }

    /// Drains this cell to zero.
    pub fn zero(&self, program: &mut Program)
        ensures
            final(program)@ == old(program)@ + zero_ops(*self),
    {
        self.to(program);
        program.begin_loop();
        program.minus(1);
        program.end_loop();
        self.from(program);
        proof {
            assert(program@ =~= old(program)@ + zero_ops(*self));
        }
    }

    /// Increments this cell by `n`.
    pub fn plus(&self, n: u32, program: &mut Program)
        ensures
            final(program)@ == old(program)@ + plus_ops(*self, n),
    {
        self.to(program);
        program.plus(n);
        self.from(program);
        proof {
            assert(program@ =~= old(program)@ + plus_ops(*self, n));
        }
    }

    /// Increments this cell by one.
    pub fn inc(&self, program: &mut Program)
        ensures
            final(program)@ == old(program)@ + plus_ops(*self, 1),
    {
        self.to(program);
        program.plus(1);
        self.from(program);
        proof {
            assert(program@ =~= old(program)@ + plus_ops(*self, 1));
        }
    }

    /// Decrements this cell by `n`.
    pub fn minus(&self, n: u32, program: &mut Program)
        ensures
            final(program)@ == old(program)@ + minus_ops(*self, n),
    {
        self.to(program);
        program.minus(n);
        self.from(program);
        proof {
            assert(program@ =~= old(program)@ + minus_ops(*self, n));
        }
    }

    /// Decrements this cell by one.
    pub fn dec(&self, program: &mut Program)
        ensures
            final(program)@ == old(program)@ + minus_ops(*self, 1),
    {
        self.to(program);
        program.minus(1);
        self.from(program);
        proof {
            assert(program@ =~= old(program)@ + minus_ops(*self, 1));
        }
    }

    /// Sets this cell to a value: drains it, then increments by the value.
    pub fn set(&self, value: u32, program: &mut Program)
        ensures
            final(program)@ == old(program)@ + set_ops(*self, value),
    {
        self.zero(program);
        self.plus(value, program);
        proof {
            assert(program@ =~= old(program)@ + set_ops(*self, value));
        }
    }

    /// Runs the allocator on this cell: its value, a requested size, is
    /// replaced by the address of a fresh block of that many cells.
    pub fn allocate(&self, program: &mut Program)
        ensures
            final(program)@ == old(program)@ + alloc_ops(*self),
    {
        self.to(program);
        program.allocate();
        self.from(program);
        proof {
            assert(program@ =~= old(program)@ + alloc_ops(*self));
        }
    }

    /// Frees the block this cell points to, then drains the cell itself.
    pub fn free(&self, program: &mut Program)
        ensures
            final(program)@ == old(program)@ + free_ops(*self),
    {
        self.to(program);
        program.free();
        program.begin_loop();
        program.minus(1);
        program.end_loop();
        self.from(program);
        proof {
            assert(program@ =~= old(program)@ + free_ops(*self));
        }
    }

    /// Writes this cell as a character.
    pub fn put(&self, program: &mut Program)
        ensures
            final(program)@ == old(program)@ + put_ops(*self),
    {
        self.to(program);
        program.put();
        self.from(program);
        proof {
            assert(program@ =~= old(program)@ + put_ops(*self));
        }
    }

    /// Reads a character into this cell.
    pub fn get(&self, program: &mut Program)
        ensures
            final(program)@ == old(program)@ + get_ops(*self),
    {
        self.to(program);
        program.get();
        self.from(program);
        proof {
            assert(program@ =~= old(program)@ + get_ops(*self));
        }
    }

    /// Writes this cell as a decimal number.
    pub fn putnum(&self, program: &mut Program)
        ensures
            final(program)@ == old(program)@ + putnum_ops(*self),
    {
        self.to(program);
        program.putnum();
        self.from(program);
        proof {
            assert(program@ =~= old(program)@ + putnum_ops(*self));
        }
    }

    /// Reads a decimal number into this cell.
    pub fn getnum(&self, program: &mut Program)
        ensures
            final(program)@ == old(program)@ + getnum_ops(*self),
    {
        self.to(program);
        program.getnum();
        self.from(program);
        proof {
            assert(program@ =~= old(program)@ + getnum_ops(*self));
        }
    }

    /// Opens a loop guarded by this cell.
    pub fn begin_loop(&self, program: &mut Program)
        ensures
            final(program)@ == old(program)@ + begin_loop_ops(*self),
    {
        self.to(program);
        program.begin_loop();
        self.from(program);
        proof {
            assert(program@ =~= old(program)@ + begin_loop_ops(*self));
        }
    }

    /// Closes a loop guarded by this cell.
    pub fn end_loop(&self, program: &mut Program)
        ensures
            final(program)@ == old(program)@ + end_loop_ops(*self),
    {
        self.to(program);
        program.end_loop();
        self.from(program);
        proof {
            assert(program@ =~= old(program)@ + end_loop_ops(*self));
        }
    }
}

/// A cell index reinterpreted as the signed offset with the same 32 bits.
pub open spec fn wrap_i32(n: int) -> i32 {
    if n <= 0x7fff_ffff {
        n as i32
    } else {
        (n - 0x1_0000_0000) as i32
    }
}

fn to_wrapped_i32(i: u32) -> (r: i32)
    ensures
        r == wrap_i32(i as int),
{
    if i <= 0x7fff_ffffu32 {
        i as i32
    } else {
        ((i as i64) - 0x1_0000_0000i64) as i32
    }
}

/// Copying cell `y` into cell `x` while preserving `y`: both `x` and the
/// scratch cell are drained, `y` is drained into the pair of them, and the
/// scratch refills `y`.
pub open spec fn copy_ops(x: Location, y: Location) -> Seq<lir::Op> {
    zero_ops(spec_tmp0()) + zero_ops(x) + begin_loop_ops(y) + plus_ops(x, 1) + plus_ops(
        spec_tmp0(),
        1,
    ) + minus_ops(y, 1) + end_loop_ops(y) + begin_loop_ops(spec_tmp0()) + plus_ops(y, 1)
        + minus_ops(spec_tmp0(), 1) + end_loop_ops(spec_tmp0())
}

/// Copies cell `y` into cell `x`, preserving `y`, through the first scratch
/// temporary.
pub fn copy_cell(x: Location, y: Location, program: &mut Program)
    ensures
        final(program)@ == old(program)@ + copy_ops(x, y),
{
    tmp0().zero(program);
    x.zero(program);

    y.begin_loop(program);
    x.inc(program);
    tmp0().inc(program);
    y.dec(program);
    y.end_loop(program);

    tmp0().begin_loop(program);
    y.inc(program);
    tmp0().dec(program);
    tmp0().end_loop(program);
    proof {
        assert(program@ =~= old(program)@ + copy_ops(x, y));
    }
}

/// The cell the stack pointer points to: the top of the stack.
pub open spec fn sp_top() -> Location {
    Location::Deref(Box::new(spec_sp()))
}

/// Pushing a cell's value: bump the stack pointer, then copy the cell into
/// the new top of stack.
pub open spec fn push_loc_ops(x: Location) -> Seq<lir::Op> {
    plus_ops(spec_sp(), 1) + copy_ops(sp_top(), x)
}

/// Popping into a cell: copy the top of stack into the cell, then drop the
/// stack pointer.
pub open spec fn pop_into_ops(x: Location) -> Seq<lir::Op> {
    copy_ops(x, sp_top()) + minus_ops(spec_sp(), 1)
}

/// Loading `size` cells starting at a location onto the stack, first cell
/// first.
pub open spec fn load_ptr_ops(loc: Location, size: int) -> Seq<lir::Op>
    decreases size,
{
    if size <= 0 {
        Seq::empty()
    } else {
        load_ptr_ops(loc, size - 1) + push_loc_ops(
            Location::Offset(Box::new(loc), wrap_i32(size - 1)),
        )
    }
}

/// Storing `size` cells from the stack at a location: the top of stack goes
/// to the last cell, working down to the first.
pub open spec fn store_ptr_ops(loc: Location, size: int) -> Seq<lir::Op>
    decreases size,
{
    if size <= 0 {
        Seq::empty()
    } else {
        pop_into_ops(Location::Offset(Box::new(loc), wrap_i32(size - 1))) + store_ptr_ops(
            loc,
            size - 1,
        )
    }
}

impl Location {
    /// Pushes this cell's value onto the stack, preserving the cell.
    pub fn push(&self, program: &mut Program)
        ensures
            final(program)@ == old(program)@ + push_loc_ops(*self),
    {
        sp().inc(program);
        copy_cell(sp().deref(), self.clone(), program);
        proof {
            assert(program@ =~= old(program)@ + push_loc_ops(*self));
        }
    }

    /// Pops the top of the stack into this cell.
    pub fn pop_into(&self, program: &mut Program)
        ensures
            final(program)@ == old(program)@ + pop_into_ops(*self),
    {
        copy_cell(self.clone(), sp().deref(), program);
        sp().dec(program);
        proof {
            assert(program@ =~= old(program)@ + pop_into_ops(*self));
        }
    }

    /// Pushes the `size` cells starting at this location onto the stack, in
    /// order.
    pub fn load_ptr(&self, size: u32, program: &mut Program)
        ensures
            final(program)@ == old(program)@ + load_ptr_ops(*self, size as int),
    {
        let mut i: u32 = 0;
        while i < size
            invariant
                i <= size,
                program@ == old(program)@ + load_ptr_ops(*self, i as int),
            decreases size - i,
        {
            let off = to_wrapped_i32(i);
            self.offset(off).push(program);
            i = i + 1;
            proof {
                assert(program@ =~= old(program)@ + load_ptr_ops(*self, i as int));
            }
        }
    }

    /// Pops `size` cells off the stack into this location, the top of stack
    /// landing at the last cell.
    pub fn store_ptr(&self, size: u32, program: &mut Program)
        ensures
            final(program)@ == old(program)@ + store_ptr_ops(*self, size as int),
    {
        let mut i: u32 = 0;
        while i < size
            invariant
                i <= size,
                program@ + store_ptr_ops(*self, size as int - i as int) == old(program)@
                    + store_ptr_ops(*self, size as int),
            decreases size - i,
        {
            let off = to_wrapped_i32(size - i - 1);
            self.offset(off).pop_into(program);
            i = i + 1;
            proof {
                assert(program@ + store_ptr_ops(*self, size as int - i as int) =~= old(program)@
                    + store_ptr_ops(*self, size as int));
            }
        }
        proof {
            assert(program@ =~= program@ + store_ptr_ops(*self, 0));
        }
    }
}

/// `base + count` on the 32-bit cell index, with wrap-around.
pub open spec fn add_wrap(base: u32, count: i32) -> u32 {
    let sum = base + count;
    if sum < 0 {
        (sum + 0x1_0000_0000) as u32
    } else if sum >= 0x1_0000_0000 {
        (sum - 0x1_0000_0000) as u32
    } else {
        sum as u32
    }
}

} // verus!

verus! {

/// One stack-machine operation.
///
/// The `Vec<Self>` fields make an operation a tree: `Do` runs a sequence,
/// `Let` binds a name to an operation sequence for its body, `Frame` runs its
/// body inside a fresh stack frame, and `If` / `While` run a condition
/// sequence and a body sequence.
#[derive(Debug, PartialEq, Eq, PartialOrd, Ord, Hash)]
pub enum Op {
    /// Binds a name to an operation sequence; `Macro` expands it by name.
    Let(String, Vec<Self>, Vec<Self>),
    /// Inlines the operation sequence bound to a name.
    Macro(String),
    /// Runs its body inside a fresh stack frame taking `args_size` cells of
    /// arguments off the stack and leaving `ret_size` cells of result.
    Frame(u32, u32, Vec<Self>),
    /// Runs a sequence of operations in order.
    Do(Vec<Self>),
    /// Stores a number of cells from the stack at a known location.
    StoreAt(Location, u32),
    /// Loads a number of cells from a known location onto the stack.
    LoadFrom(Location, u32),
    /// Pops an address and stores a number of cells at that address.
    Store(u32),
    /// Pops an address and loads the cells at that address.
    Load(u32),
    /// Pops a size off the stack, and allocates that number of cells.
    Alloc,
    /// Pops an address off the stack, and frees the block it points to.
    Free,
    /// Duplicates the top cell of the stack.
    Duplicate,
    /// Pops a cell and prints it as a character.
    Putchar,
    /// Reads a character and pushes it.
    Getchar,
    /// Pops a cell and prints it as a decimal number.
    Putnum,
    /// Reads a decimal number and pushes it.
    Getnum,
    /// Runs the body while the condition leaves a non-zero cell on the stack.
    While(Vec<Self>, Vec<Self>),
    /// Runs the body once if the condition leaves a non-zero cell.
    If(Vec<Self>, Vec<Self>),
    /// Increments a cell by a constant, without reading it.
    Increment(Location, u32),
    /// Decrements a cell by a constant, without reading it.
    Decrement(Location, u32),
    /// Pops a value and pushes its logical not.
    Not,
    /// Pops two cells and pushes their logical or.
    Or,
    /// Pops two cells and pushes their logical and.
    And,
    /// Pops two cells and pushes their sum.
    Add,
    /// Pops two cells and pushes their difference.
    Sub,
    /// Pops two cells and pushes their product.
    Mul,
    /// Pops two cells and pushes their quotient.
    Div,
    /// Pops two cells and pushes their equality.
    Eq,
    /// Pops two cells and pushes their inequality.
    Neq,
    /// Pops the top of the stack into a cell.
    Pop(Location),
    /// Pushes a literal onto the stack.
    PushLiteral(Literal),
    /// Pushes an address onto the stack.
    PushAddress(Address),
    /// Pushes a cell's value onto the stack.
    Push(Location),
    /// Reserves a number of cells on the stack.
    Stalloc(u32),
    /// Drops a number of cells off the stack.
    Stfree(u32),
}

/// The mathematical form of an operation tree: names as character sequences,
/// children as sequences.  Contracts about operations speak of this form.
pub ghost enum OpView {
    Let(Seq<char>, Seq<OpView>, Seq<OpView>),
    Macro(Seq<char>),
    Frame(u32, u32, Seq<OpView>),
    Do(Seq<OpView>),
    StoreAt(Location, u32),
    LoadFrom(Location, u32),
    Store(u32),
    Load(u32),
    Alloc,
    Free,
    Duplicate,
    Putchar,
    Getchar,
    Putnum,
    Getnum,
    While(Seq<OpView>, Seq<OpView>),
    If(Seq<OpView>, Seq<OpView>),
    Increment(Location, u32),
    Decrement(Location, u32),
    Not,
    Or,
    And,
    Add,
    Sub,
    Mul,
    Div,
    Eq,
    Neq,
    Pop(Location),
    PushLiteral(Literal),
    PushAddress(Address),
    Push(Location),
    Stalloc(u32),
    Stfree(u32),
}

pub open spec fn op_view(op: Op) -> OpView
    decreases op,
{
    match op {
        Op::Let(name, val, body) => OpView::Let(name@, ops_view(val@), ops_view(body@)),
        Op::Macro(name) => OpView::Macro(name@),
        Op::Frame(args_size, ret_size, code) => OpView::Frame(
            args_size,
            ret_size,
            ops_view(code@),
        ),
        Op::Do(code) => OpView::Do(ops_view(code@)),
        Op::StoreAt(loc, size) => OpView::StoreAt(loc, size),
        Op::LoadFrom(loc, size) => OpView::LoadFrom(loc, size),
        Op::Store(size) => OpView::Store(size),
        Op::Load(size) => OpView::Load(size),
        Op::Alloc => OpView::Alloc,
        Op::Free => OpView::Free,
        Op::Duplicate => OpView::Duplicate,
        Op::Putchar => OpView::Putchar,
        Op::Getchar => OpView::Getchar,
        Op::Putnum => OpView::Putnum,
        Op::Getnum => OpView::Getnum,
        Op::While(cond, body) => OpView::While(ops_view(cond@), ops_view(body@)),
        Op::If(cond, body) => OpView::If(ops_view(cond@), ops_view(body@)),
        Op::Increment(loc, n) => OpView::Increment(loc, n),
        Op::Decrement(loc, n) => OpView::Decrement(loc, n),
        Op::Not => OpView::Not,
        Op::Or => OpView::Or,
        Op::And => OpView::And,
        Op::Add => OpView::Add,
        Op::Sub => OpView::Sub,
        Op::Mul => OpView::Mul,
        Op::Div => OpView::Div,
        Op::Eq => OpView::Eq,
        Op::Neq => OpView::Neq,
        Op::Pop(loc) => OpView::Pop(loc),
        Op::PushLiteral(lit) => OpView::PushLiteral(lit),
        Op::PushAddress(a) => OpView::PushAddress(a),
        Op::Push(loc) => OpView::Push(loc),
        Op::Stalloc(size) => OpView::Stalloc(size),
        Op::Stfree(size) => OpView::Stfree(size),
    }
}

pub open spec fn ops_view(ops: Seq<Op>) -> Seq<OpView>
    decreases ops,
{
    if ops.len() == 0 {
        Seq::empty()
    } else {
        ops_view(ops.drop_last()).push(op_view(ops.last()))
    }
}

impl View for Op {
    type V = OpView;

    open spec fn view(&self) -> OpView {
        op_view(*self)
    }
}

/// `ops_view` maps the sequence element by element.
pub proof fn lemma_ops_view_index(ops: Seq<Op>)
    ensures
        ops_view(ops).len() == ops.len(),
        forall|i: int| 0 <= i < ops.len() ==> ops_view(ops)[i] == op_view(ops[i]),
    decreases ops,
{
    if ops.len() > 0 {
        lemma_ops_view_index(ops.drop_last());
    }
}

/// Sequences whose elements agree in view have the same view.
proof fn lemma_ops_view_congruence(a: Seq<Op>, b: Seq<Op>)
    requires
        a.len() == b.len(),
        forall|i: int| 0 <= i < a.len() ==> #[trigger] op_view(a[i]) == op_view(b[i]),
    ensures
        ops_view(a) == ops_view(b),
{
    lemma_ops_view_index(a);
    lemma_ops_view_index(b);
    assert(ops_view(a) =~= ops_view(b));
}

fn clone_op_vec(v: &Vec<Op>) -> (r: Vec<Op>)
    ensures
        r@.len() == v@.len(),
        forall|i: int| 0 <= i < v@.len() ==> #[trigger] op_view(r@[i]) == op_view(v@[i]),
        ops_view(r@) == ops_view(v@),
    decreases *v,
{
    let mut r: Vec<Op> = Vec::new();
    let mut i: usize = 0;
    while i < v.len()
        invariant
            i <= v@.len(),
            r@.len() == i,
            forall|j: int| 0 <= j < i ==> #[trigger] op_view(r@[j]) == op_view(v@[j]),
        decreases v@.len() - i,
    {
        let c = v[i].clone();
        r.push(c);
        i = i + 1;
    }
    proof {
        lemma_ops_view_congruence(r@, v@);
    }
    r
}

impl Clone for Op {
    fn clone(&self) -> (r: Self)
        ensures
            r@ == self@,
        decreases *self,
    {
        match self {
            Op::Let(name, val, body) => Op::Let(
                name.clone(),
                clone_op_vec(val),
                clone_op_vec(body),
            ),
            Op::Macro(name) => Op::Macro(name.clone()),
            Op::Frame(args_size, ret_size, code) => Op::Frame(
                *args_size,
                *ret_size,
                clone_op_vec(code),
            ),
            Op::Do(code) => Op::Do(clone_op_vec(code)),
            Op::StoreAt(loc, size) => Op::StoreAt(loc.clone(), *size),
            Op::LoadFrom(loc, size) => Op::LoadFrom(loc.clone(), *size),
            Op::Store(size) => Op::Store(*size),
            Op::Load(size) => Op::Load(*size),
            Op::Alloc => Op::Alloc,
            Op::Free => Op::Free,
            Op::Duplicate => Op::Duplicate,
            Op::Putchar => Op::Putchar,
            Op::Getchar => Op::Getchar,
            Op::Putnum => Op::Putnum,
            Op::Getnum => Op::Getnum,
            Op::While(cond, body) => Op::While(clone_op_vec(cond), clone_op_vec(body)),
            Op::If(cond, body) => Op::If(clone_op_vec(cond), clone_op_vec(body)),
            Op::Increment(loc, n) => Op::Increment(loc.clone(), *n),
            Op::Decrement(loc, n) => Op::Decrement(loc.clone(), *n),
            Op::Not => Op::Not,
            Op::Or => Op::Or,
            Op::And => Op::And,
            Op::Add => Op::Add,
            Op::Sub => Op::Sub,
            Op::Mul => Op::Mul,
            Op::Div => Op::Div,
            Op::Eq => Op::Eq,
            Op::Neq => Op::Neq,
            Op::Pop(loc) => Op::Pop(loc.clone()),
            Op::PushLiteral(lit) => Op::PushLiteral(*lit),
            Op::PushAddress(a) => Op::PushAddress(*a),
            Op::Push(loc) => Op::Push(loc.clone()),
            Op::Stalloc(size) => Op::Stalloc(*size),
            Op::Stfree(size) => Op::Stfree(*size),
        }
    }
}

} // verus!

verus! {

/// The operation sequence bound to a name: the first entry with that name
/// decides.
pub open spec fn scope_lookup(s: Seq<(Seq<char>, Seq<OpView>)>, name: Seq<char>) -> Option<
    Seq<OpView>,
>
    decreases s.len(),
{
    if s.len() == 0 {
        None
    } else if s[0].0 == name {
        Some(s[0].1)
    } else {
        scope_lookup(s.drop_first(), name)
    }
}

/// The scope with the first entry of the given name taken out.
pub open spec fn scope_remove(s: Seq<(Seq<char>, Seq<OpView>)>, name: Seq<char>) -> Seq<
    (Seq<char>, Seq<OpView>),
>
    decreases s.len(),
{
    if s.len() == 0 {
        s
    } else if s[0].0 == name {
        s.drop_first()
    } else {
        seq![s[0]] + scope_remove(s.drop_first(), name)
    }
}

/// The scope with the name bound to the given operations: the first entry of
/// that name is replaced in place, or a new entry is added at the end.
pub open spec fn scope_insert(
    s: Seq<(Seq<char>, Seq<OpView>)>,
    name: Seq<char>,
    val: Seq<OpView>,
) -> Seq<(Seq<char>, Seq<OpView>)>
    decreases s.len(),
{
    if s.len() == 0 {
        seq![(name, val)]
    } else if s[0].0 == name {
        seq![(name, val)] + s.drop_first()
    } else {
        seq![s[0]] + scope_insert(s.drop_first(), name, val)
    }
}

/// The macro table: a mapping from names to bound operation sequences,
/// extended per binder and cloned rather than shared, so shadowing stays
/// lexical.
#[derive(Debug)]
pub struct MacroScope {
    entries: Vec<(String, Vec<Op>)>,
}

impl View for MacroScope {
    type V = Seq<(Seq<char>, Seq<OpView>)>;

    closed spec fn view(&self) -> Seq<(Seq<char>, Seq<OpView>)> {
        Seq::new(self.entries@.len(), |i: int| (self.entries@[i].0@, ops_view(self.entries@[i].1@)))
    }
}

proof fn lemma_scope_lookup_at(s: Seq<(Seq<char>, Seq<OpView>)>, name: Seq<char>, i: int)
    requires
        0 <= i < s.len(),
        s[i].0 == name,
        forall|j: int| 0 <= j < i ==> (#[trigger] s[j]).0 != name,
    ensures
        scope_lookup(s, name) == Some(s[i].1),
    decreases i,
{
    if i > 0 {
        lemma_scope_lookup_at(s.drop_first(), name, i - 1);
    }
}

proof fn lemma_scope_lookup_none(s: Seq<(Seq<char>, Seq<OpView>)>, name: Seq<char>)
    requires
        forall|j: int| 0 <= j < s.len() ==> (#[trigger] s[j]).0 != name,
    ensures
        scope_lookup(s, name) is None,
    decreases s.len(),
{
    if s.len() > 0 {
        lemma_scope_lookup_none(s.drop_first(), name);
    }
}

proof fn lemma_scope_remove_at(s: Seq<(Seq<char>, Seq<OpView>)>, name: Seq<char>, i: int)
    requires
        0 <= i < s.len(),
        s[i].0 == name,
        forall|j: int| 0 <= j < i ==> (#[trigger] s[j]).0 != name,
    ensures
        scope_remove(s, name) == s.subrange(0, i) + s.subrange(i + 1, s.len() as int),
    decreases i,
{
    if i == 0 {
        assert(s.drop_first() =~= s.subrange(0, 0) + s.subrange(1, s.len() as int));
    } else {
        lemma_scope_remove_at(s.drop_first(), name, i - 1);
        assert(s.drop_first().subrange(0, i - 1) =~= s.subrange(1, i));
        assert(s.drop_first().subrange(i, s.drop_first().len() as int) =~= s.subrange(
            i + 1,
            s.len() as int,
        ));
        assert(seq![s[0]] + (s.subrange(1, i) + s.subrange(i + 1, s.len() as int)) =~= s.subrange(
            0,
            i,
        ) + s.subrange(i + 1, s.len() as int));
    }
}

proof fn lemma_scope_remove_none(s: Seq<(Seq<char>, Seq<OpView>)>, name: Seq<char>)
    requires
        forall|j: int| 0 <= j < s.len() ==> (#[trigger] s[j]).0 != name,
    ensures
        scope_remove(s, name) == s,
    decreases s.len(),
{
    if s.len() > 0 {
        lemma_scope_remove_none(s.drop_first(), name);
        assert(seq![s[0]] + s.drop_first() =~= s);
    }
}

proof fn lemma_scope_insert_at(
    s: Seq<(Seq<char>, Seq<OpView>)>,
    name: Seq<char>,
    val: Seq<OpView>,
    i: int,
)
    requires
        0 <= i < s.len(),
        s[i].0 == name,
        forall|j: int| 0 <= j < i ==> (#[trigger] s[j]).0 != name,
    ensures
        scope_insert(s, name, val) == s.update(i, (name, val)),
    decreases i,
{
    if i == 0 {
        assert(seq![(name, val)] + s.drop_first() =~= s.update(0, (name, val)));
    } else {
        lemma_scope_insert_at(s.drop_first(), name, val, i - 1);
        assert(s.drop_first().update(i - 1, (name, val)) =~= s.update(i, (name, val)).drop_first());
        assert(seq![s[0]] + s.update(i, (name, val)).drop_first() =~= s.update(i, (name, val)));
    }
}

proof fn lemma_scope_insert_missing(
    s: Seq<(Seq<char>, Seq<OpView>)>,
    name: Seq<char>,
    val: Seq<OpView>,
)
    requires
        forall|j: int| 0 <= j < s.len() ==> (#[trigger] s[j]).0 != name,
    ensures
        scope_insert(s, name, val) == s.push((name, val)),
    decreases s.len(),
{
    if s.len() == 0 {
        assert(scope_insert(s, name, val) =~= s.push((name, val)));
    } else {
        lemma_scope_insert_missing(s.drop_first(), name, val);
        assert(seq![s[0]] + s.drop_first().push((name, val)) =~= s.push((name, val)));
    }
}

impl MacroScope {
    /// The empty scope.
    pub fn new() -> (r: Self)
        ensures
            r@ == Seq::<(Seq<char>, Seq<OpView>)>::empty(),
    {
        let r = MacroScope { entries: Vec::new() };
        proof {
            assert(r@ =~= Seq::<(Seq<char>, Seq<OpView>)>::empty());
        }
        r
    }

    /// The operations bound to a name, if any.
    pub fn get(&self, name: &String) -> (r: Option<&Vec<Op>>)
        ensures
            match scope_lookup(self@, name@) {
                Some(code) => r matches Some(c) && ops_view(c@) == code,
                None => r is None,
            },
    {
        let mut i: usize = 0;
        while i < self.entries.len()
            invariant
                i <= self.entries@.len(),
                forall|j: int| 0 <= j < i ==> (#[trigger] self@[j]).0 != name@,
            decreases self.entries@.len() - i,
        {
            if self.entries[i].0 == *name {
                proof {
                    lemma_scope_lookup_at(self@, name@, i as int);
                }
                return Some(&self.entries[i].1);
            }
            i = i + 1;
        }
        proof {
            lemma_scope_lookup_none(self@, name@);
        }
        None
    }

    /// Binds a name to an operation sequence, replacing any earlier binding
    /// of that name.
    pub fn insert(&mut self, name: String, code: Vec<Op>)
        ensures
            final(self)@ == scope_insert(old(self)@, name@, ops_view(code@)),
    {
        let ghost gname = name@;
        let ghost gcode = ops_view(code@);
        let mut i: usize = 0;
        while i < self.entries.len()
            invariant
                *self == *old(self),
                name@ == gname,
                ops_view(code@) == gcode,
                i <= self.entries@.len(),
                forall|j: int| 0 <= j < i ==> (#[trigger] self@[j]).0 != gname,
            decreases self.entries@.len() - i,
        {
            let same = self.entries[i].0 == name;
            proof {
                assert(same == (self.entries@[i as int].0@ == name@));
                assert(gname == name@);
            }
            if same {
                proof {
                    assert(self@[i as int] == (self.entries@[i as int].0@, ops_view(
                        self.entries@[i as int].1@,
                    )));
                    assert(self@[i as int].0 == gname);
                    lemma_scope_insert_at(self@, gname, gcode, i as int);
                }
                self.entries.remove(i);
                self.entries.insert(i, (name, code));
                proof {
                    assert(self@ =~= old(self)@.update(i as int, (gname, gcode)));
                }
                return ;
            }
            i = i + 1;
            proof {
                assert(self@[i as int - 1] == (self.entries@[i as int - 1].0@, ops_view(
                    self.entries@[i as int - 1].1@,
                )));
            }
        }
        proof {
            lemma_scope_insert_missing(self@, gname, gcode);
        }
        self.entries.push((name, code));
        proof {
            assert(self@ =~= old(self)@.push((gname, gcode)));
        }
    }

    /// Removes the binding of a name, if there is one.
    pub fn remove(&mut self, name: &String)
        ensures
            final(self)@ == scope_remove(old(self)@, name@),
    {
        let mut i: usize = 0;
        while i < self.entries.len()
            invariant
                *self == *old(self),
                i <= self.entries@.len(),
                forall|j: int| 0 <= j < i ==> (#[trigger] self@[j]).0 != name@,
            decreases self.entries@.len() - i,
        {
            if self.entries[i].0 == *name {
                proof {
                    lemma_scope_remove_at(self@, name@, i as int);
                }
                self.entries.remove(i);
                proof {
                    assert(self@ =~= old(self)@.subrange(0, i as int) + old(self)@.subrange(
                        i as int + 1,
                        old(self)@.len() as int,
                    ));
                }
                return ;
            }
            i = i + 1;
        }
        proof {
            lemma_scope_remove_none(self@, name@);
        }
    }
}

impl Clone for MacroScope {
    fn clone(&self) -> (r: Self)
        ensures
            r@ == self@,
    {
        let mut entries: Vec<(String, Vec<Op>)> = Vec::new();
        let mut i: usize = 0;
        while i < self.entries.len()
            invariant
                i <= self.entries@.len(),
                entries@.len() == i,
                forall|j: int|
                    0 <= j < i ==> (#[trigger] entries@[j]).0@ == self.entries@[j].0@ && ops_view(
                        entries@[j].1@,
                    ) == ops_view(self.entries@[j].1@),
            decreases self.entries@.len() - i,
        {
            let name = self.entries[i].0.clone();
            let code = clone_op_vec(&self.entries[i].1);
            entries.push((name, code));
            i = i + 1;
        }
        let r = MacroScope { entries };
        proof {
            assert(r@ =~= self@);
        }
        r
    }
}

} // verus!

verus! {

/// The mathematical form of an assembler error.
pub ghost enum ErrorView {
    MacroNotDefined(Seq<char>),
    CannotGetRuntimeAddress(Location),
    ParseError(Seq<char>),
}

impl View for Error {
    type V = ErrorView;

    open spec fn view(&self) -> ErrorView {
        match self {
            Error::MacroNotDefined(name) => ErrorView::MacroNotDefined(name@),
            Error::CannotGetRuntimeAddress(loc) => ErrorView::CannotGetRuntimeAddress(*loc),
            Error::ParseError(msg) => ErrorView::ParseError(msg@),
        }
    }
}

/// A termination weight for operation trees: every operation weighs at least
/// one, a container weighs two more than its children together, and `Neq`
/// weighs two because it assembles as `Eq` followed by `Not`.
pub open spec fn opv_wt(v: OpView) -> nat
    decreases v,
{
    match v {
        OpView::Let(_, val, body) => 2 + opsv_wt(val) + opsv_wt(body),
        OpView::Frame(_, _, code) => 2 + opsv_wt(code),
        OpView::Do(code) => 2 + opsv_wt(code),
        OpView::While(cond, body) => 2 + opsv_wt(cond) + opsv_wt(body),
        OpView::If(cond, body) => 2 + opsv_wt(cond) + opsv_wt(body),
        OpView::Neq => 2,
        _ => 1,
    }
}

pub open spec fn opsv_wt(s: Seq<OpView>) -> nat
    decreases s,
{
    if s.len() == 0 {
        0
    } else {
        opv_wt(s[0]) + opsv_wt(s.drop_first())
    }
}

/// The weight of a scope: one per entry plus the weight of its bound
/// operations.
pub open spec fn scope_wt(s: Seq<(Seq<char>, Seq<OpView>)>) -> nat
    decreases s,
{
    if s.len() == 0 {
        0
    } else {
        1 + opsv_wt(s[0].1) + scope_wt(s.drop_first())
    }
}

proof fn lemma_opv_wt_pos(v: OpView)
    ensures
        opv_wt(v) >= 1,
{
}

proof fn lemma_opsv_wt_elem(s: Seq<OpView>, i: int)
    requires
        0 <= i < s.len(),
    ensures
        opv_wt(s[i]) <= opsv_wt(s),
    decreases i,
{
    if i == 0 {
    } else {
        lemma_opsv_wt_elem(s.drop_first(), i - 1);
    }
}

proof fn lemma_scope_wt_insert(
    s: Seq<(Seq<char>, Seq<OpView>)>,
    name: Seq<char>,
    val: Seq<OpView>,
)
    ensures
        scope_wt(scope_insert(s, name, val)) <= scope_wt(s) + 1 + opsv_wt(val),
    decreases s.len(),
{
    if s.len() == 0 {
        let t = seq![(name, val)];
        assert(scope_insert(s, name, val) == t);
        assert(t.drop_first() =~= Seq::<(Seq<char>, Seq<OpView>)>::empty());
        assert(scope_wt(Seq::<(Seq<char>, Seq<OpView>)>::empty()) == 0);
        assert(t[0] == (name, val));
        assert(scope_wt(t) == 1 + opsv_wt(val));
    } else if s[0].0 == name {
        let t = seq![(name, val)] + s.drop_first();
        assert(scope_insert(s, name, val) == t);
        assert(t[0] == (name, val));
        assert(t.len() == s.len());
        assert(t.drop_first() =~= s.drop_first());
        assert(scope_wt(t) == 1 + opsv_wt(val) + scope_wt(s.drop_first()));
        assert(scope_wt(s) == 1 + opsv_wt(s[0].1) + scope_wt(s.drop_first()));
    } else {
        lemma_scope_wt_insert(s.drop_first(), name, val);
        let t = seq![s[0]] + scope_insert(s.drop_first(), name, val);
        assert(scope_insert(s, name, val) == t);
        assert(t[0] == s[0]);
        assert(t.len() >= 1);
        assert(t.drop_first() =~= scope_insert(s.drop_first(), name, val));
        assert(scope_wt(t) == 1 + opsv_wt(s[0].1) + scope_wt(scope_insert(s.drop_first(), name, val)));
        assert(scope_wt(s) == 1 + opsv_wt(s[0].1) + scope_wt(s.drop_first()));
    }
}

proof fn lemma_scope_wt_remove(s: Seq<(Seq<char>, Seq<OpView>)>, name: Seq<char>)
    requires
        scope_lookup(s, name) is Some,
    ensures
        scope_wt(scope_remove(s, name)) + 1 + opsv_wt(scope_lookup(s, name)->Some_0) == scope_wt(
            s,
        ),
    decreases s.len(),
{
    if s[0].0 == name {
    } else {
        lemma_scope_wt_remove(s.drop_first(), name);
        let t = seq![s[0]] + scope_remove(s.drop_first(), name);
        assert(t[0] == s[0]);
        assert(t.drop_first() =~= scope_remove(s.drop_first(), name));
    }
}

/// The cell one past the top of the stack.
pub open spec fn sp_above() -> Location {
    Location::Offset(Box::new(sp_top()), 1)
}

/// The cell the second scratch temporary points to.
pub open spec fn tmp2_target() -> Location {
    Location::Deref(Box::new(spec_tmp2()))
}

/// Pushing a literal: bump the stack pointer and set the new top of stack.
pub open spec fn push_literal_ops(n: u32) -> Seq<lir::Op> {
    plus_ops(spec_sp(), 1) + set_ops(sp_top(), n)
}

/// Popping an address into the second temporary, then loading cells from it.
pub open spec fn load_stack_ops(size: u32) -> Seq<lir::Op> {
    pop_into_ops(spec_tmp2()) + load_ptr_ops(tmp2_target(), size as int)
}

/// Popping an address into the second temporary, then storing cells at it.
pub open spec fn store_stack_ops(size: u32) -> Seq<lir::Op> {
    pop_into_ops(spec_tmp2()) + store_ptr_ops(tmp2_target(), size as int)
}

pub open spec fn stalloc_ops(size: u32) -> Seq<lir::Op> {
    if size > 0 {
        plus_ops(spec_sp(), size)
    } else {
        Seq::empty()
    }
}

pub open spec fn stfree_ops(size: u32) -> Seq<lir::Op> {
    if size > 0 {
        minus_ops(spec_sp(), size)
    } else {
        Seq::empty()
    }
}

/// Allocation on the stack top: the requested size is replaced by the block
/// address in place.
pub open spec fn alloc_stack_ops() -> Seq<lir::Op> {
    alloc_ops(sp_top())
}

/// Freeing through the stack top, then dropping it.
pub open spec fn free_stack_ops() -> Seq<lir::Op> {
    free_ops(sp_top()) + minus_ops(spec_sp(), 1)
}

/// Duplicating the stack top through the second temporary.
pub open spec fn duplicate_ops() -> Seq<lir::Op> {
    pop_into_ops(spec_tmp2()) + push_loc_ops(spec_tmp2()) + push_loc_ops(spec_tmp2())
}

pub open spec fn putnum_stack_ops() -> Seq<lir::Op> {
    putnum_ops(sp_top()) + minus_ops(spec_sp(), 1)
}

pub open spec fn getnum_stack_ops() -> Seq<lir::Op> {
    getnum_ops(sp_above()) + plus_ops(spec_sp(), 1)
}

pub open spec fn putchar_stack_ops() -> Seq<lir::Op> {
    put_ops(sp_top()) + minus_ops(spec_sp(), 1)
}

pub open spec fn getchar_stack_ops() -> Seq<lir::Op> {
    get_ops(sp_above()) + plus_ops(spec_sp(), 1)
}

/// Logical not of the stack top, computed in the second temporary.
#[verifier::opaque]
pub open spec fn not_ops() -> Seq<lir::Op> {
    pop_into_ops(spec_tmp2()) + zero_ops(spec_tmp0()) + begin_loop_ops(spec_tmp2()) + plus_ops(
        spec_tmp0(),
        1,
    ) + zero_ops(spec_tmp2()) + end_loop_ops(spec_tmp2()) + plus_ops(spec_tmp2(), 1)
        + begin_loop_ops(spec_tmp0()) + minus_ops(spec_tmp2(), 1) + minus_ops(spec_tmp0(), 1)
        + end_loop_ops(spec_tmp0()) + push_loc_ops(spec_tmp2())
}

/// Sum (also logical or): drain the second operand into the first.
#[verifier::opaque]
pub open spec fn add_ops() -> Seq<lir::Op> {
    pop_into_ops(spec_tmp2()) + pop_into_ops(spec_tmp3()) + zero_ops(spec_tmp0()) + begin_loop_ops(
        spec_tmp2(),
    ) + plus_ops(spec_tmp3(), 1) + plus_ops(spec_tmp0(), 1) + minus_ops(spec_tmp2(), 1)
        + end_loop_ops(spec_tmp2()) + begin_loop_ops(spec_tmp0()) + plus_ops(spec_tmp2(), 1)
        + minus_ops(spec_tmp0(), 1) + end_loop_ops(spec_tmp0()) + push_loc_ops(spec_tmp3())
}

/// Difference: drain the second operand while decrementing the first.
#[verifier::opaque]
pub open spec fn sub_ops() -> Seq<lir::Op> {
    pop_into_ops(spec_tmp3()) + pop_into_ops(spec_tmp2()) + zero_ops(spec_tmp0()) + begin_loop_ops(
        spec_tmp3(),
    ) + minus_ops(spec_tmp2(), 1) + plus_ops(spec_tmp0(), 1) + minus_ops(spec_tmp3(), 1)
        + end_loop_ops(spec_tmp3()) + begin_loop_ops(spec_tmp0()) + plus_ops(spec_tmp3(), 1)
        + minus_ops(spec_tmp0(), 1) + end_loop_ops(spec_tmp0()) + push_loc_ops(spec_tmp2())
}

/// Product (also logical and): an outer loop over the first operand adding
/// the second each round.
#[verifier::opaque]
pub open spec fn mul_ops() -> Seq<lir::Op> {
    pop_into_ops(spec_tmp2()) + pop_into_ops(spec_tmp3()) + zero_ops(spec_tmp0()) + zero_ops(
        spec_tmp1(),
    ) + begin_loop_ops(spec_tmp3()) + plus_ops(spec_tmp1(), 1) + minus_ops(spec_tmp3(), 1)
        + end_loop_ops(spec_tmp3()) + begin_loop_ops(spec_tmp1()) + begin_loop_ops(spec_tmp2())
        + plus_ops(spec_tmp3(), 1) + plus_ops(spec_tmp0(), 1) + minus_ops(spec_tmp2(), 1)
        + end_loop_ops(spec_tmp2()) + begin_loop_ops(spec_tmp0()) + plus_ops(spec_tmp2(), 1)
        + minus_ops(spec_tmp0(), 1) + end_loop_ops(spec_tmp0()) + minus_ops(spec_tmp1(), 1)
        + end_loop_ops(spec_tmp1()) + push_loc_ops(spec_tmp3())
}

/// The first half of the quotient computation: operands popped, scratch
/// cells cleared, and the dividend moved into the round counter.
#[verifier::opaque]
pub open spec fn div_part1_ops() -> Seq<lir::Op> {
    pop_into_ops(spec_tmp5()) + pop_into_ops(spec_tmp4()) + zero_ops(spec_tmp0()) + zero_ops(
        spec_tmp1(),
    ) + zero_ops(spec_tmp2()) + zero_ops(spec_tmp3()) + begin_loop_ops(spec_tmp4()) + plus_ops(
        spec_tmp0(),
        1,
    ) + minus_ops(spec_tmp4(), 1) + end_loop_ops(spec_tmp4()) + begin_loop_ops(spec_tmp0())
        + begin_loop_ops(spec_tmp5()) + plus_ops(spec_tmp1(), 1) + plus_ops(spec_tmp2(), 1)
        + minus_ops(spec_tmp5(), 1) + end_loop_ops(spec_tmp5()) + begin_loop_ops(spec_tmp2())
        + plus_ops(spec_tmp5(), 1) + minus_ops(spec_tmp2(), 1) + end_loop_ops(spec_tmp2())
        + begin_loop_ops(spec_tmp1()) + plus_ops(spec_tmp2(), 1) + minus_ops(spec_tmp0(), 1)
}

/// The second half of the quotient computation: the per-round balance and
/// the final push of the quotient.
#[verifier::opaque]
pub open spec fn div_part2_ops() -> Seq<lir::Op> {
    begin_loop_ops(spec_tmp0()) + zero_ops(spec_tmp2()) + plus_ops(spec_tmp3(), 1) + minus_ops(
        spec_tmp0(),
        1,
    ) + end_loop_ops(spec_tmp0()) + begin_loop_ops(spec_tmp3()) + plus_ops(spec_tmp0(), 1)
        + minus_ops(spec_tmp3(), 1) + end_loop_ops(spec_tmp3()) + begin_loop_ops(spec_tmp2())
        + minus_ops(spec_tmp1(), 1) + begin_loop_ops(spec_tmp1()) + minus_ops(spec_tmp4(), 1)
        + zero_ops(spec_tmp1()) + end_loop_ops(spec_tmp1()) + plus_ops(spec_tmp1(), 1) + minus_ops(
        spec_tmp2(),
        1,
    ) + end_loop_ops(spec_tmp2()) + minus_ops(spec_tmp1(), 1) + end_loop_ops(spec_tmp1())
        + plus_ops(spec_tmp4(), 1) + end_loop_ops(spec_tmp0()) + push_loc_ops(spec_tmp4())
}

/// Quotient: a doubly nested balance that decrements a copy of the dividend
/// once per round of the divisor, accumulating the quotient.
#[verifier::opaque]
pub open spec fn div_ops() -> Seq<lir::Op> {
    div_part1_ops() + div_part2_ops()
}

/// Equality: count the first operand up, cancel per unit of the second, and
/// clear the provisional one if anything is left over.
#[verifier::opaque]
pub open spec fn eq_ops() -> Seq<lir::Op> {
    pop_into_ops(spec_tmp2()) + pop_into_ops(spec_tmp3()) + zero_ops(spec_tmp0()) + zero_ops(
        spec_tmp1(),
    ) + begin_loop_ops(spec_tmp3()) + plus_ops(spec_tmp1(), 1) + minus_ops(spec_tmp3(), 1)
        + end_loop_ops(spec_tmp3()) + plus_ops(spec_tmp3(), 1) + begin_loop_ops(spec_tmp2())
        + minus_ops(spec_tmp1(), 1) + plus_ops(spec_tmp0(), 1) + minus_ops(spec_tmp2(), 1)
        + end_loop_ops(spec_tmp2()) + begin_loop_ops(spec_tmp0()) + plus_ops(spec_tmp2(), 1)
        + minus_ops(spec_tmp0(), 1) + end_loop_ops(spec_tmp0()) + begin_loop_ops(spec_tmp1())
        + minus_ops(spec_tmp3(), 1) + zero_ops(spec_tmp1()) + end_loop_ops(spec_tmp1())
        + push_loc_ops(spec_tmp3())
}

/// Inequality: equality followed by logical not.
#[verifier::opaque]
pub open spec fn neq_ops() -> Seq<lir::Op> {
    eq_ops() + not_ops()
}

/// Spilling `size` cells from the stack top into a fresh heap block whose
/// address is kept in the fifth temporary.
#[verifier::opaque]
pub open spec fn spill_ops(size: u32) -> Seq<lir::Op> {
    push_literal_ops(size) + alloc_stack_ops() + duplicate_ops() + pop_into_ops(spec_tmp5())
        + store_stack_ops(size)
}

/// Entering a frame: save the old frame pointer on the stack, point the
/// frame pointer at the saved slot, then step it to the first argument.
#[verifier::opaque]
pub open spec fn frame_enter_ops() -> Seq<lir::Op> {
    push_loc_ops(spec_fp()) + copy_ops(spec_fp(), spec_sp()) + plus_ops(spec_fp(), 1)
}

/// Reloading a spill: push the kept block address, load the cells back, then
/// free the block.
#[verifier::opaque]
pub open spec fn unspill_ops(size: u32) -> Seq<lir::Op> {
    push_loc_ops(spec_tmp5()) + load_stack_ops(size) + push_loc_ops(spec_tmp5()) + free_stack_ops()
}

/// The operations an operation tree assembles to under a scope.  On success
/// the result is exactly what the assembler appends; on the first error met,
/// the error carries exactly what was appended before it stopped, alongside
/// the fault.
pub open spec fn assembled(op: OpView, scope: Seq<(Seq<char>, Seq<OpView>)>) -> Result<
    Seq<lir::Op>,
    (Seq<lir::Op>, ErrorView),
>
    decreases opv_wt(op) + scope_wt(scope), 0nat,
    via assembled_dec
{
    match op {
        OpView::Do(code) => assembled_seq(code, scope),
        OpView::Let(name, val, body) => assembled_seq(body, scope_insert(scope, name, val)),
        OpView::Macro(name) => match scope_lookup(scope, name) {
            Some(code) => assembled_seq(code, scope_remove(scope, name)),
            None => Err((Seq::empty(), ErrorView::MacroNotDefined(name))),
        },
        OpView::Frame(args_size, ret_size, code) => {
            let prologue = (if args_size > 0 {
                spill_ops(args_size)
            } else {
                Seq::empty()
            }) + frame_enter_ops() + (if args_size > 0 {
                unspill_ops(args_size)
            } else {
                Seq::empty()
            });
            match assembled_seq(code, scope) {
                Err(pe) => Err((prologue + pe.0, pe.1)),
                Ok(body) => Ok(
                    prologue + body + (if ret_size > 0 {
                        spill_ops(ret_size)
                    } else {
                        Seq::empty()
                    }) + stfree_ops(args_size) + pop_into_ops(spec_fp()) + (if ret_size > 0 {
                        unspill_ops(ret_size)
                    } else {
                        Seq::empty()
                    }) + zero_ops(spec_tmp5()),
                ),
            }
        },
        OpView::If(cond, body) => match assembled_seq(cond, scope) {
            Err(pe) => Err(pe),
            Ok(c) => match assembled_seq(body, scope) {
                Err(pe) => Err(
                    (c + pop_into_ops(spec_tmp2()) + begin_loop_ops(spec_tmp2()) + pe.0, pe.1),
                ),
                Ok(b) => Ok(
                    c + pop_into_ops(spec_tmp2()) + begin_loop_ops(spec_tmp2()) + b + zero_ops(
                        spec_tmp2(),
                    ) + end_loop_ops(spec_tmp2()),
                ),
            },
        },
        OpView::While(cond, body) => match assembled_seq(cond, scope) {
            Err(pe) => Err(pe),
            Ok(c) => match assembled_seq(body, scope) {
                Err(pe) => Err(
                    (c + pop_into_ops(spec_tmp2()) + begin_loop_ops(spec_tmp2()) + pe.0, pe.1),
                ),
                Ok(b) => Ok(
                    c + pop_into_ops(spec_tmp2()) + begin_loop_ops(spec_tmp2()) + b + c
                        + pop_into_ops(spec_tmp2()) + end_loop_ops(spec_tmp2()),
                ),
            },
        },
        OpView::Pop(loc) => Ok(pop_into_ops(loc)),
        OpView::PushLiteral(lit) => Ok(push_literal_ops(lit.0)),
        OpView::PushAddress(a) => Ok(push_literal_ops(a.0)),
        OpView::Push(loc) => Ok(push_loc_ops(loc)),
        OpView::Load(size) => Ok(load_stack_ops(size)),
        OpView::Store(size) => Ok(store_stack_ops(size)),
        OpView::LoadFrom(loc, size) => Ok(load_ptr_ops(loc, size as int)),
        OpView::StoreAt(loc, size) => Ok(store_ptr_ops(loc, size as int)),
        OpView::Stalloc(size) => Ok(stalloc_ops(size)),
        OpView::Stfree(size) => Ok(stfree_ops(size)),
        OpView::Alloc => Ok(alloc_stack_ops()),
        OpView::Free => Ok(free_stack_ops()),
        OpView::Duplicate => Ok(duplicate_ops()),
        OpView::Decrement(loc, n) => Ok(minus_ops(loc, n)),
        OpView::Increment(loc, n) => Ok(plus_ops(loc, n)),
        OpView::Not => Ok(not_ops()),
        OpView::Add => Ok(add_ops()),
        OpView::Or => Ok(add_ops()),
        OpView::Sub => Ok(sub_ops()),
        OpView::Mul => Ok(mul_ops()),
        OpView::And => Ok(mul_ops()),
        OpView::Div => Ok(div_ops()),
        OpView::Eq => Ok(eq_ops()),
        OpView::Neq => Ok(neq_ops()),
        OpView::Putnum => Ok(putnum_stack_ops()),
        OpView::Getnum => Ok(getnum_stack_ops()),
        OpView::Putchar => Ok(putchar_stack_ops()),
        OpView::Getchar => Ok(getchar_stack_ops()),
    }
}

/// A sequence of operations assembled in order; the first error stops the
/// fold, carrying what the earlier operations appended.
pub open spec fn assembled_seq(ops: Seq<OpView>, scope: Seq<(Seq<char>, Seq<OpView>)>) -> Result<
    Seq<lir::Op>,
    (Seq<lir::Op>, ErrorView),
>
    decreases opsv_wt(ops) + scope_wt(scope), ops.len(),
    via assembled_seq_dec
{
    if ops.len() == 0 {
        Ok(Seq::empty())
    } else {
        match assembled(ops[0], scope) {
            Err(pe) => Err(pe),
            Ok(first) => match assembled_seq(ops.drop_first(), scope) {
                Err(pe) => Err((first + pe.0, pe.1)),
                Ok(rest) => Ok(first + rest),
            },
        }
    }
}

#[via_fn]
proof fn assembled_dec(op: OpView, scope: Seq<(Seq<char>, Seq<OpView>)>) {
    match op {
        OpView::Let(name, val, body) => {
            lemma_scope_wt_insert(scope, name, val);
        },
        OpView::Macro(name) => {
            if scope_lookup(scope, name) is Some {
                lemma_scope_wt_remove(scope, name);
            }
        },
        _ => {},
    }
}

#[via_fn]
proof fn assembled_seq_dec(ops: Seq<OpView>, scope: Seq<(Seq<char>, Seq<OpView>)>) {
    if ops.len() > 0 {
        lemma_opv_wt_pos(ops[0]);
    }
}

} // verus!

verus! {

/// Assembling a concatenation: assemble the first part, then the second;
/// an error in the second part carries the first part's full emission.
proof fn lemma_assembled_seq_append(
    a: Seq<OpView>,
    b: Seq<OpView>,
    scope: Seq<(Seq<char>, Seq<OpView>)>,
)
    ensures
        assembled_seq(a + b, scope) == (match assembled_seq(a, scope) {
            Err(pe) => Err(pe),
            Ok(ea) => match assembled_seq(b, scope) {
                Err(pe) => Err::<Seq<lir::Op>, (Seq<lir::Op>, ErrorView)>((ea + pe.0, pe.1)),
                Ok(eb) => Ok(ea + eb),
            },
        }),
    decreases a.len(),
{
    if a.len() == 0 {
        assert(a + b =~= b);
        match assembled_seq(b, scope) {
            Err(pe) => {
                assert(Seq::<lir::Op>::empty() + pe.0 =~= pe.0);
            },
            Ok(eb) => {
                assert(Seq::<lir::Op>::empty() + eb =~= eb);
            },
        }
    } else {
        lemma_assembled_seq_append(a.drop_first(), b, scope);
        assert((a + b)[0] == a[0]);
        assert((a + b).drop_first() =~= a.drop_first() + b);
        match assembled(a[0], scope) {
            Err(pe) => {},
            Ok(e0) => {
                match assembled_seq(a.drop_first(), scope) {
                    Err(pe) => {
                        assert(e0 + pe.0 =~= e0 + pe.0);
                    },
                    Ok(ea1) => {
                        match assembled_seq(b, scope) {
                            Err(pe) => {
                                assert(e0 + (ea1 + pe.0) =~= (e0 + ea1) + pe.0);
                            },
                            Ok(eb) => {
                                assert(e0 + (ea1 + eb) =~= (e0 + ea1) + eb);
                            },
                        }
                    },
                }
            },
        }
    }
}

/// Assembling a single operation as a sequence of one.
proof fn lemma_assembled_seq_single(v: OpView, scope: Seq<(Seq<char>, Seq<OpView>)>)
    ensures
        assembled_seq(seq![v], scope) == (match assembled(v, scope) {
            Err(pe) => Err::<Seq<lir::Op>, (Seq<lir::Op>, ErrorView)>(pe),
            Ok(e0) => Ok(e0),
        }),
{
    let s = seq![v];
    assert(s.drop_first() =~= Seq::<OpView>::empty());
    assert(assembled_seq(Seq::<OpView>::empty(), scope) == Ok::<
        Seq<lir::Op>,
        (Seq<lir::Op>, ErrorView),
    >(Seq::empty()));
    match assembled(v, scope) {
        Err(pe) => {},
        Ok(e0) => {
            assert(e0 + Seq::<lir::Op>::empty() =~= e0);
        },
    }
}


/// Assembles each operation of a sequence in order, stopping at the first
/// error.
fn assemble_seq(ops: &Vec<Op>, scope: &MacroScope, program: &mut Program) -> (r: Result<
    (),
    Error,
>)
    ensures
        match assembled_seq(ops_view(ops@), scope@) {
            Ok(emitted) => r is Ok && final(program)@ == old(program)@ + emitted,
            Err(pe) => {
                &&& r matches Err(e2) && e2@ == pe.1
                &&& final(program)@ == old(program)@ + pe.0
            },
        },
    decreases opsv_wt(ops_view(ops@)) + scope_wt(scope@), ops@.len(),
{
    let ghost vops = ops_view(ops@);
    let ghost base = old(program)@;
    proof {
        assert(vops.take(0) =~= Seq::<OpView>::empty());
        assert(program@.subrange(base.len() as int, program@.len() as int) =~= Seq::<
            lir::Op,
        >::empty());
    }
    let mut i: usize = 0;
    while i < ops.len()
        invariant
            i <= ops@.len(),
            vops == ops_view(ops@),
            base == old(program)@,
            base.len() <= program@.len(),
            program@.subrange(0, base.len() as int) == base,
            assembled_seq(vops.take(i as int), scope@) == Ok::<
                Seq<lir::Op>,
                (Seq<lir::Op>, ErrorView),
            >(program@.subrange(base.len() as int, program@.len() as int)),
        decreases ops@.len() - i,
    {
        proof {
            lemma_ops_view_index(ops@);
            lemma_opsv_wt_elem(vops, i as int);
        }
        let ghost before = program@;
        let r = ops[i].assemble_with_scope(scope, program);
        match r {
            Err(e) => {
                proof {
                    lemma_assembled_seq_append(vops.take(i as int), vops.skip(i as int), scope@);
                    assert(vops.take(i as int) + vops.skip(i as int) =~= vops);
                    assert(vops.skip(i as int)[0] == vops[i as int]);
                    assert(vops.skip(i as int).drop_first() =~= vops.skip(i as int + 1));
                    let emitted = before.subrange(base.len() as int, before.len() as int);
                    assert(before =~= base + emitted);
                    let pe = assembled(vops[i as int], scope@)->Err_0;
                    assert(assembled_seq(vops, scope@) matches Err(whole) && whole.1 == pe.1
                        && whole.0 == emitted + pe.0);
                    assert(program@ =~= base + (emitted + pe.0));
                }
                return Err(e);
            },
            Ok(_) => {
                i = i + 1;
                proof {
                    let ghost emitted_i = assembled(vops[i as int - 1], scope@)->Ok_0;
                    lemma_assembled_seq_append(vops.take(i as int - 1), seq![vops[i as int - 1]], scope@);
                    lemma_assembled_seq_single(vops[i as int - 1], scope@);
                    assert(vops.take(i as int) =~= vops.take(i as int - 1) + seq![vops[i as int - 1]]);
                    assert(program@ == before + emitted_i);
                    assert(program@.subrange(0, base.len() as int) =~= base);
                    assert(program@.subrange(base.len() as int, program@.len() as int)
                        =~= before.subrange(base.len() as int, before.len() as int) + emitted_i);
                }
            },
        }
    }
    proof {
        lemma_ops_view_index(ops@);
        assert(vops.take(ops@.len() as int) =~= vops);
    }
    Ok(())
}

} // verus!


verus! {

fn emit_not(program: &mut Program)
    ensures
        final(program)@ == old(program)@ + not_ops(),
{
        tmp2().pop_into(program);
        tmp0().zero(program);
        tmp2().begin_loop(program);
        tmp0().inc(program);
        tmp2().zero(program);
        tmp2().end_loop(program);
        tmp2().inc(program);
        tmp0().begin_loop(program);
        tmp2().dec(program);
        tmp0().dec(program);
        tmp0().end_loop(program);
        tmp2().push(program);
        proof {
            reveal(not_ops);
            assert(program@ =~= old(program)@ + not_ops());
        }
}

fn emit_add(program: &mut Program)
    ensures
        final(program)@ == old(program)@ + add_ops(),
{
        tmp2().pop_into(program);
        tmp3().pop_into(program);
        tmp0().zero(program);
        tmp2().begin_loop(program);
        tmp3().inc(program);
        tmp0().inc(program);
        tmp2().dec(program);
        tmp2().end_loop(program);
        tmp0().begin_loop(program);
        tmp2().inc(program);
        tmp0().dec(program);
        tmp0().end_loop(program);
        tmp3().push(program);
        proof {
            reveal(add_ops);
            assert(program@ =~= old(program)@ + add_ops());
        }
}

fn emit_sub(program: &mut Program)
    ensures
        final(program)@ == old(program)@ + sub_ops(),
{
        tmp3().pop_into(program);
        tmp2().pop_into(program);
        tmp0().zero(program);
        tmp3().begin_loop(program);
        tmp2().dec(program);
        tmp0().inc(program);
        tmp3().dec(program);
        tmp3().end_loop(program);
        tmp0().begin_loop(program);
        tmp3().inc(program);
        tmp0().dec(program);
        tmp0().end_loop(program);
        tmp2().push(program);
        proof {
            reveal(sub_ops);
            assert(program@ =~= old(program)@ + sub_ops());
        }
}

#[verifier::rlimit(60)]
fn emit_mul(program: &mut Program)
    ensures
        final(program)@ == old(program)@ + mul_ops(),
{
        tmp2().pop_into(program);
        tmp3().pop_into(program);
        tmp0().zero(program);
        tmp1().zero(program);
        tmp3().begin_loop(program);
        tmp1().inc(program);
        tmp3().dec(program);
        tmp3().end_loop(program);
        tmp1().begin_loop(program);
        tmp2().begin_loop(program);
        tmp3().inc(program);
        tmp0().inc(program);
        tmp2().dec(program);
        tmp2().end_loop(program);
        tmp0().begin_loop(program);
        tmp2().inc(program);
        tmp0().dec(program);
        tmp0().end_loop(program);
        tmp1().dec(program);
        tmp1().end_loop(program);
        tmp3().push(program);
        proof {
            reveal(mul_ops);
            assert(program@ =~= old(program)@ + mul_ops());
        }
}

#[verifier::rlimit(60)]
fn emit_div_part1(program: &mut Program)
    ensures
        final(program)@ == old(program)@ + div_part1_ops(),
{
    tmp5().pop_into(program);
    tmp4().pop_into(program);
    tmp0().zero(program);
    tmp1().zero(program);
    tmp2().zero(program);
    tmp3().zero(program);
    tmp4().begin_loop(program);
    tmp0().inc(program);
    tmp4().dec(program);
    tmp4().end_loop(program);
    tmp0().begin_loop(program);
    tmp5().begin_loop(program);
    tmp1().inc(program);
    tmp2().inc(program);
    tmp5().dec(program);
    tmp5().end_loop(program);
    tmp2().begin_loop(program);
    tmp5().inc(program);
    tmp2().dec(program);
    tmp2().end_loop(program);
    tmp1().begin_loop(program);
    tmp2().inc(program);
    tmp0().dec(program);
    proof {
        reveal(div_part1_ops);
        assert(program@ =~= old(program)@ + div_part1_ops());
    }
}

#[verifier::rlimit(60)]
fn emit_div_part2(program: &mut Program)
    ensures
        final(program)@ == old(program)@ + div_part2_ops(),
{
    tmp0().begin_loop(program);
    tmp2().zero(program);
    tmp3().inc(program);
    tmp0().dec(program);
    tmp0().end_loop(program);
    tmp3().begin_loop(program);
    tmp0().inc(program);
    tmp3().dec(program);
    tmp3().end_loop(program);
    tmp2().begin_loop(program);
    tmp1().dec(program);
    tmp1().begin_loop(program);
    tmp4().dec(program);
    tmp1().zero(program);
    tmp1().end_loop(program);
    tmp1().inc(program);
    tmp2().dec(program);
    tmp2().end_loop(program);
    tmp1().dec(program);
    tmp1().end_loop(program);
    tmp4().inc(program);
    tmp0().end_loop(program);
    tmp4().push(program);
    proof {
        reveal(div_part2_ops);
        assert(program@ =~= old(program)@ + div_part2_ops());
    }
}

fn emit_div(program: &mut Program)
    ensures
        final(program)@ == old(program)@ + div_ops(),
{
    emit_div_part1(program);
    emit_div_part2(program);
    proof {
        reveal(div_ops);
        assert(program@ =~= old(program)@ + div_ops());
    }
}

#[verifier::rlimit(60)]
fn emit_eq(program: &mut Program)
    ensures
        final(program)@ == old(program)@ + eq_ops(),
{
        tmp2().pop_into(program);
        tmp3().pop_into(program);
        tmp0().zero(program);
        tmp1().zero(program);
        tmp3().begin_loop(program);
        tmp1().inc(program);
        tmp3().dec(program);
        tmp3().end_loop(program);
        tmp3().inc(program);
        tmp2().begin_loop(program);
        tmp1().dec(program);
        tmp0().inc(program);
        tmp2().dec(program);
        tmp2().end_loop(program);
        tmp0().begin_loop(program);
        tmp2().inc(program);
        tmp0().dec(program);
        tmp0().end_loop(program);
        tmp1().begin_loop(program);
        tmp3().dec(program);
        tmp1().zero(program);
        tmp1().end_loop(program);
        tmp3().push(program);
        proof {
            reveal(eq_ops);
            assert(program@ =~= old(program)@ + eq_ops());
        }
}

} // verus!


verus! {

/// Spilling `size` stack cells into a fresh heap block tracked in the fifth
/// temporary.
fn emit_spill(size: u32, program: &mut Program)
    ensures
        final(program)@ == old(program)@ + spill_ops(size),
{
    sp().inc(program);
    sp().deref().set(size, program);
    sp().deref().allocate(program);
    tmp2().pop_into(program);
    tmp2().push(program);
    tmp2().push(program);
    tmp5().pop_into(program);
    tmp2().pop_into(program);
    tmp2().deref().store_ptr(size, program);
    proof {
        reveal(spill_ops);
        assert(program@ =~= old(program)@ + spill_ops(size));
    }
}

/// Reloading a spill kept in the fifth temporary, then freeing its block.
fn emit_unspill(size: u32, program: &mut Program)
    ensures
        final(program)@ == old(program)@ + unspill_ops(size),
{
    tmp5().push(program);
    tmp2().pop_into(program);
    tmp2().deref().load_ptr(size, program);
    tmp5().push(program);
    sp().deref().free(program);
    sp().dec(program);
    proof {
        reveal(unspill_ops);
        assert(program@ =~= old(program)@ + unspill_ops(size));
    }
}

/// The disciplined call site around a frame body.
#[verifier::rlimit(100)]
fn assemble_frame(
    args_size: u32,
    ret_size: u32,
    code: &Vec<Op>,
    scope: &MacroScope,
    program: &mut Program,
) -> (r: Result<(), Error>)
    ensures
        match assembled(OpView::Frame(args_size, ret_size, ops_view(code@)), scope@) {
            Ok(emitted) => r is Ok && final(program)@ == old(program)@ + emitted,
            Err(pe) => {
                &&& r matches Err(e2) && e2@ == pe.1
                &&& final(program)@ == old(program)@ + pe.0
            },
        },
    decreases opsv_wt(ops_view(code@)) + scope_wt(scope@) + 1, 0nat,
{
    let ghost base = program@;
    // Spill the arguments on top of the stack into a fresh heap block,
    // keeping its address in the fifth temporary.
    if args_size > 0 {
        emit_spill(args_size, program);
    }
    // Save the old frame pointer and point the frame pointer at the first
    // argument slot about to be recreated.
    fp().push(program);
    copy_cell(fp(), sp(), program);
    fp().inc(program);
    proof {
        reveal(frame_enter_ops);
    }
    // Reload the arguments from the heap block and free it.
    if args_size > 0 {
        emit_unspill(args_size, program);
    }
    let ghost prologue = (if args_size > 0 {
        spill_ops(args_size)
    } else {
        Seq::<lir::Op>::empty()
    }) + frame_enter_ops() + (if args_size > 0 {
        unspill_ops(args_size)
    } else {
        Seq::<lir::Op>::empty()
    });
    proof {
        assert(program@ =~= base + prologue);
    }
    // Run the body in the new frame.
    let r = assemble_seq(code, scope, program);
    if let Err(e) = r {
        proof {
            let pe = assembled_seq(ops_view(code@), scope@)->Err_0;
            assert(program@ =~= base + (prologue + pe.0));
        }
        return Err(e);
    }
    let ghost with_body = program@;
    // Spill the return value to a heap block.
    if ret_size > 0 {
        emit_spill(ret_size, program);
    }
    // Drop the argument slots and restore the frame pointer.
    if args_size > 0 {
        sp().minus(args_size, program);
    }
    fp().pop_into(program);
    // Reload the return value and free its block.
    if ret_size > 0 {
        emit_unspill(ret_size, program);
    }
    tmp5().zero(program);
    proof {
        assert(program@ =~= with_body + (if ret_size > 0 {
            spill_ops(ret_size)
        } else {
            Seq::<lir::Op>::empty()
        }) + stfree_ops(args_size) + pop_into_ops(spec_fp()) + (if ret_size > 0 {
            unspill_ops(ret_size)
        } else {
            Seq::<lir::Op>::empty()
        }) + zero_ops(spec_tmp5()));
        assert(program@ =~= base + assembled(
            OpView::Frame(args_size, ret_size, ops_view(code@)),
            scope@,
        )->Ok_0);
    }
    Ok(())
}

} // verus!

verus! {

impl Op {
    /// Assembles this operation under the empty scope, appending tape-machine
    /// operations to the program.
    pub fn assemble(&self, program: &mut Program) -> (r: Result<(), Error>)
        ensures
            match assembled(self@, Seq::empty()) {
                Ok(emitted) => r is Ok && final(program)@ == old(program)@ + emitted,
                Err(pe) => {
                    &&& r matches Err(e2) && e2@ == pe.1
                    &&& final(program)@ == old(program)@ + pe.0
                },
            },
    {
        let scope = MacroScope::new();
        self.assemble_with_scope(&scope, program)
    }

    /// Assembles this operation under a scope of macro bindings, appending
    /// tape-machine operations to the program.
    ///
    /// On success the appended operations are exactly `assembled(self@,
    /// scope@)`; on an error, whatever was appended before the error stands,
    /// and the error is the one `assembled` gives.
    #[verifier::rlimit(100)]
    pub fn assemble_with_scope(&self, scope: &MacroScope, program: &mut Program) -> (r: Result<
        (),
        Error,
    >)
        ensures
            match assembled(self@, scope@) {
                Ok(emitted) => r is Ok && final(program)@ == old(program)@ + emitted,
                Err(pe) => {
                    &&& r matches Err(e2) && e2@ == pe.1
                    &&& final(program)@ == old(program)@ + pe.0
                },
            },
        decreases opv_wt(self@) + scope_wt(scope@), 0nat,
    {
        match self {
            Op::Do(code) => {
                let r = assemble_seq(code, scope, program);
                r
            },
            Op::Let(name, val, body) => {
                let mut new_scope = scope.clone();
                new_scope.insert(name.clone(), clone_op_vec(val));
                proof {
                    lemma_scope_wt_insert(scope@, name@, ops_view(val@));
                }
                let r = assemble_seq(body, &new_scope, program);
                r
            },
            Op::Macro(name) => {
                match scope.get(name) {
                    Some(code) => {
                        let mut new_scope = scope.clone();
                        new_scope.remove(name);
                        proof {
                            lemma_scope_wt_remove(scope@, name@);
                        }
                        let r = assemble_seq(code, &new_scope, program);
                        r
                    },
                    None => {
                        proof {
                            assert(program@ =~= old(program)@ + Seq::<lir::Op>::empty());
                        }
                        Err(Error::MacroNotDefined(name.clone()))
                    },
                }
            },
            Op::Frame(args_size_ref, ret_size_ref, code) => {
                let r = assemble_frame(*args_size_ref, *ret_size_ref, code, scope, program);
                r
            },
            Op::If(cond, body) => {
                let ghost base = program@;
                let r1 = assemble_seq(cond, scope, program);
                if let Err(e) = r1 {
                    return Err(e);
                }
                let ghost c = assembled_seq(ops_view(cond@), scope@)->Ok_0;
                tmp2().pop_into(program);
                tmp2().begin_loop(program);
                let ghost mid = program@;
                let r2 = assemble_seq(body, scope, program);
                if let Err(e) = r2 {
                    proof {
                        let pe = assembled_seq(ops_view(body@), scope@)->Err_0;
                        assert(program@ =~= base + (c + pop_into_ops(spec_tmp2())
                            + begin_loop_ops(spec_tmp2()) + pe.0));
                    }
                    return Err(e);
                }
                tmp2().zero(program);
                tmp2().end_loop(program);
                proof {
                    assert(program@ =~= base + assembled(self@, scope@)->Ok_0);
                }
                Ok(())
            },
            Op::While(cond, body) => {
                let ghost base = program@;
                let r1 = assemble_seq(cond, scope, program);
                if let Err(e) = r1 {
                    return Err(e);
                }
                let ghost c = assembled_seq(ops_view(cond@), scope@)->Ok_0;
                tmp2().pop_into(program);
                tmp2().begin_loop(program);
                let ghost mid = program@;
                let r2 = assemble_seq(body, scope, program);
                if let Err(e) = r2 {
                    proof {
                        let pe = assembled_seq(ops_view(body@), scope@)->Err_0;
                        assert(program@ =~= base + (c + pop_into_ops(spec_tmp2())
                            + begin_loop_ops(spec_tmp2()) + pe.0));
                    }
                    return Err(e);
                }
                let r3 = assemble_seq(cond, scope, program);
                if let Err(e) = r3 {
                    proof {
                        assert(false);
                    }
                    return Err(e);
                }
                tmp2().pop_into(program);
                tmp2().end_loop(program);
                proof {
                    assert(program@ =~= base + assembled(self@, scope@)->Ok_0);
                }
                Ok(())
            },
            Op::Pop(loc) => {
                loc.pop_into(program);
                Ok(())
            },
            Op::PushLiteral(lit) => {
                sp().inc(program);
                sp().deref().set(lit.0, program);
                proof {
                    assert(program@ =~= old(program)@ + push_literal_ops(lit.0));
                }
                Ok(())
            },
            Op::PushAddress(a) => {
                sp().inc(program);
                sp().deref().set(a.0, program);
                proof {
                    assert(program@ =~= old(program)@ + push_literal_ops(a.0));
                }
                Ok(())
            },
            Op::Push(loc) => {
                loc.push(program);
                Ok(())
            },
            Op::Load(size) => {
                tmp2().pop_into(program);
                tmp2().deref().load_ptr(*size, program);
                proof {
                    assert(program@ =~= old(program)@ + load_stack_ops(*size));
                }
                Ok(())
            },
            Op::Store(size) => {
                tmp2().pop_into(program);
                tmp2().deref().store_ptr(*size, program);
                proof {
                    assert(program@ =~= old(program)@ + store_stack_ops(*size));
                }
                Ok(())
            },
            Op::LoadFrom(loc, size) => {
                loc.load_ptr(*size, program);
                Ok(())
            },
            Op::StoreAt(loc, size) => {
                loc.store_ptr(*size, program);
                Ok(())
            },
            Op::Stalloc(size) => {
                if *size > 0 {
                    sp().plus(*size, program);
                } else {
                    proof {
                        assert(program@ =~= old(program)@ + stalloc_ops(*size));
                    }
                }
                Ok(())
            },
            Op::Stfree(size) => {
                if *size > 0 {
                    sp().minus(*size, program);
                } else {
                    proof {
                        assert(program@ =~= old(program)@ + stfree_ops(*size));
                    }
                }
                Ok(())
            },
            Op::Alloc => {
                sp().deref().allocate(program);
                Ok(())
            },
            Op::Free => {
                sp().deref().free(program);
                sp().dec(program);
                proof {
                    assert(program@ =~= old(program)@ + free_stack_ops());
                }
                Ok(())
            },
            Op::Duplicate => {
                tmp2().pop_into(program);
                tmp2().push(program);
                tmp2().push(program);
                proof {
                    assert(program@ =~= old(program)@ + duplicate_ops());
                }
                Ok(())
            },
            Op::Decrement(loc, n) => {
                loc.minus(*n, program);
                Ok(())
            },
            Op::Increment(loc, n) => {
                loc.plus(*n, program);
                Ok(())
            },
            Op::Not => {
                emit_not(program);
                Ok(())
            },
            Op::Add | Op::Or => {
                emit_add(program);
                Ok(())
            },
            Op::Sub => {
                emit_sub(program);
                Ok(())
            },
            Op::Mul | Op::And => {
                emit_mul(program);
                Ok(())
            },
            Op::Div => {
                emit_div(program);
                Ok(())
            },
            Op::Eq => {
                emit_eq(program);
                Ok(())
            },
            Op::Neq => {
                let r1 = Op::Eq.assemble_with_scope(scope, program);
                if let Err(e) = r1 {
                    proof {
                        assert(false);
                    }
                    return Err(e);
                }
                let r2 = Op::Not.assemble_with_scope(scope, program);
                if let Err(e) = r2 {
                    proof {
                        assert(false);
                    }
                    return Err(e);
                }
                proof {
                    reveal(neq_ops);
                    assert(program@ =~= old(program)@ + neq_ops());
                }
                Ok(())
            },
            Op::Putnum => {
                sp().deref().putnum(program);
                sp().dec(program);
                proof {
                    assert(program@ =~= old(program)@ + putnum_stack_ops());
                }
                Ok(())
            },
            Op::Getnum => {
                sp().deref().offset(1).getnum(program);
                sp().inc(program);
                proof {
                    assert(program@ =~= old(program)@ + getnum_stack_ops());
                }
                Ok(())
            },
            Op::Putchar => {
                sp().deref().put(program);
                sp().dec(program);
                proof {
                    assert(program@ =~= old(program)@ + putchar_stack_ops());
                }
                Ok(())
            },
            Op::Getchar => {
                sp().deref().offset(1).get(program);
                sp().inc(program);
                proof {
                    assert(program@ =~= old(program)@ + getchar_stack_ops());
                }
                Ok(())
            },
        }
    }
}

} // verus!

verus! {

/// Addition that sticks at the largest cell count rather than wrapping.
pub open spec fn sat_add(a: u32, b: u32) -> u32 {
    if a + b > u32::MAX {
        u32::MAX
    } else {
        (a + b) as u32
    }
}

/// Subtraction that stops at zero.
pub open spec fn sat_sub(a: u32, b: u32) -> u32 {
    if a >= b {
        (a - b) as u32
    } else {
        0
    }
}

/// The argument list in its mathematical form: names as character sequences.
pub open spec fn args_view(s: Seq<(String, u32)>) -> Seq<(Seq<char>, u32)> {
    Seq::new(s.len(), |i: int| (s[i].0@, s[i].1))
}

/// The total size of an argument list, summed left to right.
pub open spec fn args_size_of(s: Seq<(Seq<char>, u32)>) -> u32
    decreases s.len(),
{
    if s.len() == 0 {
        0
    } else {
        sat_add(args_size_of(s.drop_last()), s.last().1)
    }
}

/// The nest of bindings a function body sits in: working from the last
/// argument inward, each argument's name is bound to its address within the
/// frame — the frame pointer plus the sizes of the arguments before it.
pub open spec fn function_lets(
    args: Seq<(Seq<char>, u32)>,
    args_size: u32,
    offset: u32,
    inner: OpView,
) -> OpView
    decreases args.len(),
{
    if args.len() == 0 {
        inner
    } else {
        let name = args.last().0;
        let size = args.last().1;
        let offset2 = sat_add(offset, size);
        function_lets(
            args.drop_last(),
            args_size,
            offset2,
            OpView::Let(
                name,
                seq![
                    OpView::LoadFrom(spec_fp(), 1),
                    OpView::Increment(sp_top(), sat_sub(args_size, offset2)),
                ],
                seq![inner],
            ),
        )
    }
}

/// What `function` builds: a frame around the body, with every argument
/// bound by name to its slot in the frame.
pub open spec fn spec_function(args: Seq<(Seq<char>, u32)>, ret_size: u32, code: Seq<OpView>) -> OpView {
    OpView::Frame(
        args_size_of(args),
        ret_size,
        seq![function_lets(args, args_size_of(args), 0, OpView::Do(code))],
    )
}

/// `ops_view` of a singleton.
proof fn lemma_ops_view_one(a: Op)
    ensures
        ops_view(seq![a]) == seq![op_view(a)],
{
    assert(seq![a].drop_last() =~= Seq::<Op>::empty());
    assert(ops_view(Seq::<Op>::empty()) == Seq::<OpView>::empty());
    assert(ops_view(seq![a]) =~= seq![op_view(a)]);
}

/// `ops_view` of a pair.
proof fn lemma_ops_view_two(a: Op, b: Op)
    ensures
        ops_view(seq![a, b]) == seq![op_view(a), op_view(b)],
{
    lemma_ops_view_one(a);
    assert(seq![a, b].drop_last() =~= seq![a]);
    assert(ops_view(seq![a, b]) =~= seq![op_view(a), op_view(b)]);
}

/// Builds the operation for a function: a frame taking the named arguments
/// off the stack and leaving `ret_size` cells, whose body sees each argument
/// bound by name to its address within the frame.
pub fn function(args: Vec<(String, u32)>, ret_size: u32, code: Vec<Op>) -> (r: Op)
    ensures
        r@ == spec_function(args_view(args@), ret_size, ops_view(code@)),
{
    let ghost orig = args_view(args@);
    let ghost code_v = ops_view(code@);
    let mut args_size: u32 = 0;
    let mut i: usize = 0;
    while i < args.len()
        invariant
            i <= args@.len(),
            orig == args_view(args@),
            args_size == args_size_of(orig.take(i as int)),
        decreases args@.len() - i,
    {
        let sz = args[i].1;
        args_size = if args_size > u32::MAX - sz {
            u32::MAX
        } else {
            args_size + sz
        };
        i = i + 1;
        proof {
            assert(orig.take(i as int).drop_last() =~= orig.take(i as int - 1));
            assert(orig.take(i as int).last() == orig[i as int - 1]);
            assert(orig[i as int - 1].1 == args@[i as int - 1].1);
        }
    }
    proof {
        assert(orig.take(args@.len() as int) =~= orig);
    }

    let mut rest = args;
    let mut offset: u32 = 0;
    let mut result = Op::Do(code);
    proof {
        assert(result@ == OpView::Do(code_v));
    }
    while rest.len() > 0
        invariant
            args_size == args_size_of(orig),
            function_lets(args_view(rest@), args_size, offset, result@) == function_lets(
                orig,
                args_size,
                0,
                OpView::Do(code_v),
            ),
        decreases rest@.len(),
    {
        let ghost rest_pre = args_view(rest@);
        let ghost result_pre = result@;
        let ghost offset_pre = offset;
        let popped = rest.pop().unwrap();
        let ghost pname = popped.0@;
        let size = popped.1;
        offset = if offset > u32::MAX - size {
            u32::MAX
        } else {
            offset + size
        };
        let amount: u32 = if args_size >= offset {
            args_size - offset
        } else {
            0
        };
        let addr_ops: Vec<Op> = vec![Op::LoadFrom(fp(), 1), Op::Increment(sp().deref(), amount)];
        proof {
            lemma_ops_view_two(addr_ops@[0], addr_ops@[1]);
            assert(addr_ops@ =~= seq![
                Op::LoadFrom(Location::Address(Address(3)), 1),
                Op::Increment(Location::Deref(Box::new(Location::Address(Address(0)))), amount),
            ]);
        }
        result = Op::Let(popped.0, addr_ops, vec![result]);
        proof {
            match &result {
                Op::Let(n2, v2, b2) => {
                    assert(b2@.len() == 1);
                    assert(b2@ =~= seq![b2@[0]]);
                    lemma_ops_view_one(b2@[0]);
                    lemma_ops_view_two(v2@[0], v2@[1]);
                    assert(ops_view(b2@) =~= seq![result_pre]);
                    assert(result@ == OpView::Let(
                        pname,
                        seq![
                            OpView::LoadFrom(spec_fp(), 1),
                            OpView::Increment(sp_top(), sat_sub(args_size, offset)),
                        ],
                        seq![result_pre],
                    ));
                },
                _ => {},
            }
            assert(rest_pre.drop_last() =~= args_view(rest@));
            assert(rest_pre.last() == (pname, size));
            assert(offset == sat_add(offset_pre, size));
            assert(function_lets(args_view(rest@), args_size, offset, result@) == function_lets(
                rest_pre,
                args_size,
                offset_pre,
                result_pre,
            ));
        }
    }
    proof {
        assert(args_view(rest@).len() == 0);
        assert(function_lets(args_view(rest@), args_size, offset, result@) == result@);
    }
    let r = Op::Frame(args_size, ret_size, vec![result]);
    proof {
        match &r {
            Op::Frame(a2, r2, c2) => {
                assert(c2@.len() == 1);
                assert(c2@ =~= seq![c2@[0]]);
                lemma_ops_view_one(c2@[0]);
                assert(ops_view(c2@) =~= seq![function_lets(orig, args_size, 0, OpView::Do(code_v))]);
            },
            _ => {},
        }
    }
    r
}

} // verus!

verus! {

/// The macro bindings every stack-machine program assembles under when the
/// driver runs one directly: the four I/O operations by name, and `inc` /
/// `dec`, which bump the cell whose address is on top of the stack and then
/// drop that address.
pub open spec fn builtin_bindings() -> Seq<(Seq<char>, Seq<OpView>)> {
    seq![
        ("putnum"@, seq![OpView::Putnum]),
        ("putchar"@, seq![OpView::Putchar]),
        ("getnum"@, seq![OpView::Getnum]),
        ("getchar"@, seq![OpView::Getchar]),
        (
            "dec"@,
            seq![
                OpView::Decrement(Location::Deref(Box::new(sp_top())), 1),
                OpView::Pop(spec_tmp2()),
            ],
        ),
        (
            "inc"@,
            seq![
                OpView::Increment(Location::Deref(Box::new(sp_top())), 1),
                OpView::Pop(spec_tmp2()),
            ],
        ),
    ]
}

/// Builds the builtin macro scope.
pub fn builtin_scope() -> (s: MacroScope)
    ensures
        s@ == builtin_bindings(),
{
    proof {
        reveal_strlit("putnum");
        reveal_strlit("putchar");
        reveal_strlit("getnum");
        reveal_strlit("getchar");
        reveal_strlit("dec");
        reveal_strlit("inc");
        assert("putnum"@.len() == 6);
        assert("putchar"@.len() == 7);
        assert("getnum"@.len() == 6);
        assert("getchar"@.len() == 7);
        assert("dec"@.len() == 3);
        assert("inc"@.len() == 3);
        assert("putnum"@[0] == 'p');
        assert("getnum"@[0] == 'g');
        assert("putchar"@[0] == 'p');
        assert("getchar"@[0] == 'g');
        assert("dec"@[0] == 'd');
        assert("inc"@[0] == 'i');
    }
    let mut s = MacroScope::new();

    let code = vec![Op::Putnum];
    proof {
        lemma_ops_view_one(code@[0]);
        assert(code@ =~= seq![Op::Putnum]);
        lemma_scope_insert_missing(s@, "putnum"@, ops_view(code@));
    }
    s.insert(String::from_str("putnum"), code);
    proof {
        assert(s@ =~= builtin_bindings().take(1));
    }

    let code = vec![Op::Putchar];
    proof {
        lemma_ops_view_one(code@[0]);
        assert(code@ =~= seq![Op::Putchar]);
        assert(forall|j: int| 0 <= j < s@.len() ==> (#[trigger] s@[j]).0 != "putchar"@);
        lemma_scope_insert_missing(s@, "putchar"@, ops_view(code@));
    }
    s.insert(String::from_str("putchar"), code);
    proof {
        assert(s@ =~= builtin_bindings().take(2));
    }

    let code = vec![Op::Getnum];
    proof {
        lemma_ops_view_one(code@[0]);
        assert(code@ =~= seq![Op::Getnum]);
        assert(forall|j: int| 0 <= j < s@.len() ==> (#[trigger] s@[j]).0 != "getnum"@);
        lemma_scope_insert_missing(s@, "getnum"@, ops_view(code@));
    }
    s.insert(String::from_str("getnum"), code);
    proof {
        assert(s@ =~= builtin_bindings().take(3));
    }

    let code = vec![Op::Getchar];
    proof {
        lemma_ops_view_one(code@[0]);
        assert(code@ =~= seq![Op::Getchar]);
        assert(forall|j: int| 0 <= j < s@.len() ==> (#[trigger] s@[j]).0 != "getchar"@);
        lemma_scope_insert_missing(s@, "getchar"@, ops_view(code@));
    }
    s.insert(String::from_str("getchar"), code);
    proof {
        assert(s@ =~= builtin_bindings().take(4));
    }

    let code = vec![Op::Decrement(sp().deref().deref(), 1), Op::Pop(tmp2())];
    proof {
        lemma_ops_view_two(code@[0], code@[1]);
        assert(forall|j: int| 0 <= j < s@.len() ==> (#[trigger] s@[j]).0 != "dec"@);
        lemma_scope_insert_missing(s@, "dec"@, ops_view(code@));
    }
    s.insert(String::from_str("dec"), code);
    proof {
        assert(s@ =~= builtin_bindings().take(5));
    }

    let code = vec![Op::Increment(sp().deref().deref(), 1), Op::Pop(tmp2())];
    proof {
        lemma_ops_view_two(code@[0], code@[1]);
        assert(forall|j: int| 0 <= j < s@.len() ==> (#[trigger] s@[j]).0 != "inc"@);
        lemma_scope_insert_missing(s@, "inc"@, ops_view(code@));
    }
    s.insert(String::from_str("inc"), code);
    proof {
        assert(s@ =~= builtin_bindings());
    }
    s
}

} // verus!
