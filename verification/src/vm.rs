//! The stack machine that runs bytecode, one instruction per step.
//!
//! Instructions: a one-byte opcode, some followed by an 8-byte
//! little-endian operand: 0x01 load constant (operand: its index),
//! 0x02 load local, 0x03 store local (operand: the local's number),
//! 0x06 add, 0x07 subtract, 0x08 multiply, 0x09 divide, 0x0A call
//! (operand: the function's index), 0x0B return, 0xFF halt.
use vstd::prelude::*;
use vstd::bytes::{spec_u64_from_le_bytes, u64_from_le_bytes};
use vstd::slice::slice_subrange;
use crate::format::{Constant, ConstantView, FunctionInfo, BinaryProgram};

verus! {

/// A value on the stack. A decimal value is held by the bit pattern of its
/// 64-bit IEEE-754 representation.
#[derive(Debug)]
pub enum VMValue {
    Int(i64),
    Float(u64),
    String(String),
}

/// A value with its text as a character sequence.
pub enum VMValueView {
    Int(i64),
    Float(u64),
    String(Seq<char>),
}

impl View for VMValue {
    type V = VMValueView;

    open spec fn view(&self) -> VMValueView {
        match self {
            VMValue::Int(v) => VMValueView::Int(*v),
            VMValue::Float(v) => VMValueView::Float(*v),
            VMValue::String(s) => VMValueView::String(s@),
        }
    }
}

impl Clone for VMValue {
    fn clone(&self) -> (r: Self)
        ensures
            r == *self,
    {
        match self {
            VMValue::Int(v) => VMValue::Int(*v),
            VMValue::Float(v) => VMValue::Float(*v),
            VMValue::String(s) => VMValue::String(s.clone()),
        }
    }
}

/// A call frame: the locals by number, where to return, and the function.
#[derive(Debug)]
pub struct Frame {
    pub locals: Vec<(usize, VMValue)>,
    pub return_ip: usize,
    pub function_index: usize,
}

/// A frame as mathematical values.
pub struct FrameView {
    pub locals: Map<usize, VMValueView>,
    pub return_ip: usize,
    pub function_index: usize,
}

/// The locals as a map; a later binding of a number hides an earlier one.
pub open spec fn locals_map(b: Seq<(usize, VMValue)>) -> Map<usize, VMValueView>
    decreases b.len(),
{
    if b.len() == 0 {
        Map::empty()
    } else {
        locals_map(b.drop_last()).insert(b.last().0, b.last().1@)
    }
}

impl View for Frame {
    type V = FrameView;

    open spec fn view(&self) -> FrameView {
        FrameView {
            locals: locals_map(self.locals@),
            return_ip: self.return_ip,
            function_index: self.function_index,
        }
    }
}

/// Why the machine stops on an instruction it cannot carry out.
#[derive(Debug, Clone, Copy, PartialEq, Eq, Structural)]
pub enum Fault {
    /// The code ends before the instruction or its operand.
    CodeOutOfRange,
    /// An opcode that stands for no instruction.
    UnknownOpcode(u8),
    /// A constant index beyond the constant pool.
    ConstantOutOfRange,
    /// A function index beyond the function table.
    FunctionOutOfRange,
    /// A value is taken from an empty stack.
    StackUnderflow,
    /// A local is used, or a return made, with no call frame.
    NoFrame,
    /// A local that was never stored.
    UndefinedLocal,
    /// An addition of values that are not both integers or both decimals.
    InvalidAddTypes,
    /// An integer result out of the range of `i64`.
    ArithmeticOverflow,
    /// An integer division by zero.
    DivisionByZero,
}

/// What a step leads to.
#[derive(Debug, Clone, Copy, PartialEq, Eq, Structural)]
pub enum StepOutcome {
    /// The instruction was carried out.
    Continue,
    /// The halt instruction was met.
    Halt,
    /// An addition of two decimals, given by their bit patterns, was
    /// started: both were taken from the stack, and their sum is to be
    /// pushed.
    FloatAdd(u64, u64),
    /// The instruction cannot be carried out.
    Fault(Fault),
}

/// The machine: a stack of values, call frames, and the program it runs.
#[derive(Debug)]
pub struct VM {
    pub stack: Vec<VMValue>,
    pub frames: Vec<Frame>,
    pub ip: usize,
    pub bytecode: Vec<u8>,
    pub constants: Vec<Constant>,
    pub functions: Vec<FunctionInfo>,
    pub current_function: usize,
}

/// The views of a sequence of values.
pub open spec fn stack_view(s: Seq<VMValue>) -> Seq<VMValueView> {
    s.map_values(|v: VMValue| v@)
}

/// The machine as mathematical values.
#[verifier::ext_equal]
pub struct VMView {
    pub stack: Seq<VMValueView>,
    pub frames: Seq<FrameView>,
    pub ip: usize,
    pub bytecode: Seq<u8>,
    pub constants: Seq<ConstantView>,
    pub functions: Seq<FunctionInfo>,
    pub current_function: usize,
}

impl View for VM {
    type V = VMView;

    open spec fn view(&self) -> VMView {
        VMView {
            stack: stack_view(self.stack@),
            frames: self.frames@.map_values(|f: Frame| f@),
            ip: self.ip,
            bytecode: self.bytecode@,
            constants: self.constants@.map_values(|c: Constant| c@),
            functions: self.functions@,
            current_function: self.current_function,
        }
    }
}

// ---------------------------------------------------------------------------
// One step, as a function from state to state and outcome.
/// The value a constant loads.
pub open spec fn constant_value(c: ConstantView) -> VMValueView {
    match c {
        ConstantView::Int(v) => VMValueView::Int(v),
        ConstantView::Float(v) => VMValueView::Float(v),
        ConstantView::String(s) => VMValueView::String(s),
    }
}

/// The state with its instruction pointer at `ip`.
pub open spec fn at_ip(s: VMView, ip: usize) -> VMView {
    VMView { ip, ..s }
}

/// The state with the given stack.
pub open spec fn with_stack(s: VMView, stack: Seq<VMValueView>) -> VMView {
    VMView { stack, ..s }
}

/// The 8-byte operand at the instruction pointer, and the state past it.
pub open spec fn read_operand(s: VMView) -> Option<(i64, VMView)> {
    if s.ip + 8 <= s.bytecode.len() {
        Some(
            (
                spec_u64_from_le_bytes(s.bytecode.subrange(s.ip as int, s.ip + 8)) as i64,
                at_ip(s, (s.ip + 8) as usize),
            ),
        )
    } else {
        None
    }
}

/// Load constant.
pub open spec fn load_const_step(s: VMView) -> (VMView, StepOutcome) {
    match read_operand(s) {
        None => (s, StepOutcome::Fault(Fault::CodeOutOfRange)),
        Some((v, s1)) => {
            let index = v as usize;
            if index < s1.constants.len() {
                (with_stack(s1, s1.stack.push(constant_value(s1.constants[index as int]))), StepOutcome::Continue)
            } else {
                (s1, StepOutcome::Fault(Fault::ConstantOutOfRange))
            }
        },
    }
}

/// Store local: the top value goes to the local of that number in the
/// innermost frame.
pub open spec fn store_local_step(s: VMView) -> (VMView, StepOutcome) {
    match read_operand(s) {
        None => (s, StepOutcome::Fault(Fault::CodeOutOfRange)),
        Some((v, s1)) => {
            let n = v as usize;
            if s1.stack.len() == 0 {
                (s1, StepOutcome::Fault(Fault::StackUnderflow))
            } else {
                let s2 = with_stack(s1, s1.stack.drop_last());
                if s2.frames.len() == 0 {
                    (s2, StepOutcome::Fault(Fault::NoFrame))
                } else {
                    let f = s2.frames.last();
                    let f2 = FrameView { locals: f.locals.insert(n, s1.stack.last()), ..f };
                    (VMView { frames: s2.frames.update(s2.frames.len() - 1, f2), ..s2 }, StepOutcome::Continue)
                }
            }
        },
    }
}

/// Load local: the local of that number in the innermost frame is pushed.
pub open spec fn load_local_step(s: VMView) -> (VMView, StepOutcome) {
    match read_operand(s) {
        None => (s, StepOutcome::Fault(Fault::CodeOutOfRange)),
        Some((v, s1)) => {
            let n = v as usize;
            if s1.frames.len() == 0 {
                (s1, StepOutcome::Fault(Fault::NoFrame))
            } else if !s1.frames.last().locals.contains_key(n) {
                (s1, StepOutcome::Fault(Fault::UndefinedLocal))
            } else {
                (with_stack(s1, s1.stack.push(s1.frames.last().locals[n])), StepOutcome::Continue)
            }
        },
    }
}

/// An arithmetic instruction: the two top values are taken (the top one is
/// the right operand).
pub open spec fn arithmetic_step(s: VMView, opcode: u8) -> (VMView, StepOutcome) {
    if s.stack.len() < 2 {
        (with_stack(s, seq![]), StepOutcome::Fault(Fault::StackUnderflow))
    } else {
        let b = s.stack.last();
        let a = s.stack.drop_last().last();
        let s1 = with_stack(s, s.stack.drop_last().drop_last());
        match (a, b) {
            (VMValueView::Int(x), VMValueView::Int(y)) => {
                let r = if opcode == 6 {
                    x.checked_add(y)
                } else if opcode == 7 {
                    x.checked_sub(y)
                } else if opcode == 8 {
                    x.checked_mul(y)
                } else {
                    x.checked_div(y)
                };
                if opcode == 9 && y == 0 {
                    (s1, StepOutcome::Fault(Fault::DivisionByZero))
                } else {
                    match r {
                        Some(z) => (with_stack(s1, s1.stack.push(VMValueView::Int(z))), StepOutcome::Continue),
                        None => (s1, StepOutcome::Fault(Fault::ArithmeticOverflow)),
                    }
                }
            },
            (VMValueView::Float(x), VMValueView::Float(y)) => if opcode == 6 {
                (s1, StepOutcome::FloatAdd(x, y))
            } else {
                (s1, StepOutcome::Continue)
            },
            _ => if opcode == 6 {
                (s1, StepOutcome::Fault(Fault::InvalidAddTypes))
            } else {
                (s1, StepOutcome::Continue)
            },
        }
    }
}

/// The locals of a new frame: argument `i` as local `i`.
pub open spec fn arguments_locals(args: Seq<VMValueView>) -> Map<usize, VMValueView>
    decreases args.len(),
{
    if args.len() == 0 {
        Map::empty()
    } else {
        arguments_locals(args.drop_last()).insert((args.len() - 1) as usize, args.last())
    }
}

/// Call: as many values as the function has parameters are taken from the
/// stack (the top one is the last argument) into a new frame, which
/// returns past the operand; execution goes on at the function's code.
pub open spec fn call_step(s: VMView) -> (VMView, StepOutcome) {
    match read_operand(s) {
        None => (s, StepOutcome::Fault(Fault::CodeOutOfRange)),
        Some((v, s1)) => {
            let index = v as usize;
            if index >= s1.functions.len() {
                (s1, StepOutcome::Fault(Fault::FunctionOutOfRange))
            } else {
                let func = s1.functions[index as int];
                let argc = func.parameter_count as int;
                if s1.stack.len() < argc {
                    (with_stack(s1, seq![]), StepOutcome::Fault(Fault::StackUnderflow))
                } else {
                    let keep = s1.stack.len() - argc;
                    let frame = FrameView {
                        locals: arguments_locals(s1.stack.subrange(keep, s1.stack.len() as int)),
                        return_ip: s1.ip,
                        function_index: index,
                    };
                    (
                        VMView {
                            stack: s1.stack.subrange(0, keep),
                            frames: s1.frames.push(frame),
                            ip: func.code_offset as usize,
                            ..s1
                        },
                        StepOutcome::Continue,
                    )
                }
            }
        },
    }
}

/// Return: the top value is taken, the innermost frame removed, execution
/// goes on where it returns, and the value is pushed back.
pub open spec fn return_step(s: VMView) -> (VMView, StepOutcome) {
    if s.stack.len() == 0 {
        (s, StepOutcome::Fault(Fault::StackUnderflow))
    } else if s.frames.len() == 0 {
        (with_stack(s, s.stack.drop_last()), StepOutcome::Fault(Fault::NoFrame))
    } else {
        (
            VMView { frames: s.frames.drop_last(), ip: s.frames.last().return_ip, ..s },
            StepOutcome::Continue,
        )
    }
}

/// One step: the opcode at the instruction pointer is read and carried out.
pub open spec fn step_of(s: VMView) -> (VMView, StepOutcome) {
    if s.ip >= s.bytecode.len() {
        (s, StepOutcome::Fault(Fault::CodeOutOfRange))
    } else {
        let opcode = s.bytecode[s.ip as int];
        let s1 = at_ip(s, (s.ip + 1) as usize);
        if opcode == 0x01 {
            load_const_step(s1)
        } else if opcode == 0x02 {
            load_local_step(s1)
        } else if opcode == 0x03 {
            store_local_step(s1)
        } else if opcode == 0x06 || opcode == 0x07 || opcode == 0x08 || opcode == 0x09 {
            arithmetic_step(s1, opcode)
        } else if opcode == 0x0A {
            call_step(s1)
        } else if opcode == 0x0B {
            return_step(s1)
        } else if opcode == 0xFF {
            (s1, StepOutcome::Halt)
        } else {
            (s1, StepOutcome::Fault(Fault::UnknownOpcode(opcode)))
        }
    }
}

// ---------------------------------------------------------------------------
// The machine.
/// The value of a constant, to be pushed.
fn constant_to_value(c: &Constant) -> (v: VMValue)
    ensures
        v@ == constant_value(c@),
{
    match c {
        Constant::Int(x) => VMValue::Int(*x),
        Constant::Float(x) => VMValue::Float(*x),
        Constant::String(s) => VMValue::String(s.clone()),
    }
}

/// The local of number `n`, the latest stored.
fn find_local(locals: &Vec<(usize, VMValue)>, n: usize) -> (r: Option<&VMValue>)
    ensures
        match r {
            Some(v) => locals_map(locals@).contains_key(n) && locals_map(locals@)[n] == v@,
            None => !locals_map(locals@).contains_key(n),
        },
{
    let mut i: usize = locals.len();
    assert(locals@.subrange(0, i as int) =~= locals@);
    while i > 0
        invariant
            i <= locals@.len(),
            locals_map(locals@).contains_key(n) == locals_map(locals@.subrange(0, i as int)).contains_key(n),
            locals_map(locals@).contains_key(n) ==> locals_map(locals@)[n] == locals_map(locals@.subrange(0, i as int))[n],
        decreases i,
    {
        assert(locals@.subrange(0, i as int).drop_last() =~= locals@.subrange(0, i - 1));
        if locals[i - 1].0 == n {
            return Some(&locals[i - 1].1);
        }
        i = i - 1;
    }
    None
}

impl VM {
    /// A machine for `program`: empty stack, no frame, at the start of the
    /// code, the entry function as current function.
    pub fn new(program: BinaryProgram) -> (vm: Self)
        ensures
            vm@.stack == Seq::<VMValueView>::empty(),
            vm@.frames == Seq::<FrameView>::empty(),
            vm@.ip == 0,
            vm@.bytecode == program@.code,
            vm@.constants == program@.constants,
            vm@.functions == program@.functions,
            vm@.current_function == program.entry_function as usize,
    {
        let vm = Self {
            stack: Vec::new(),
            frames: Vec::new(),
            ip: 0,
            bytecode: program.code,
            constants: program.constants,
            functions: program.functions,
            current_function: program.entry_function as usize,
        };
        assert(vm@.stack =~= Seq::<VMValueView>::empty());
        assert(vm@.frames =~= Seq::<FrameView>::empty());
        vm
    }

    fn push(&mut self, value: VMValue)
        ensures
            final(self)@ == with_stack(old(self)@, old(self)@.stack.push(value@)),
    {
        self.stack.push(value);
        assert(self@.stack =~= old(self)@.stack.push(value@));
        assert(self@ =~= with_stack(old(self)@, old(self)@.stack.push(value@)));
    }

    fn pop(&mut self) -> (r: Option<VMValue>)
        ensures
            old(self)@.stack.len() == 0 ==> r is None && final(self)@ == old(self)@,
            old(self)@.stack.len() > 0 ==> r is Some && r->0@ == old(self)@.stack.last()
                && final(self)@ == with_stack(old(self)@, old(self)@.stack.drop_last()),
    {
        let r = self.stack.pop();
        proof {
            if old(self)@.stack.len() > 0 {
                assert(self@.stack =~= old(self)@.stack.drop_last());
            }
            assert(self@ =~= with_stack(old(self)@, self@.stack));
        }
        r
    }

    fn read_i64(&mut self) -> (r: Option<i64>)
        ensures
            match read_operand(old(self)@) {
                Some((v, s1)) => r == Some(v) && final(self)@ == s1,
                None => r is None && final(self)@ == old(self)@,
            },
    {
        if self.ip <= self.bytecode.len() && self.bytecode.len() - self.ip >= 8 {
            let bytes = slice_subrange(self.bytecode.as_slice(), self.ip, self.ip + 8);
            let v = u64_from_le_bytes(bytes) as i64;
            self.ip = self.ip + 8;
            assert(self@ =~= at_ip(old(self)@, self.ip));
            Some(v)
        } else {
            None
        }
    }

    fn op_load_const(&mut self) -> (r: StepOutcome)
        ensures
            (final(self)@, r) == load_const_step(old(self)@),
    {
        let index = match self.read_i64() {
            Some(v) => v as usize,
            None => return StepOutcome::Fault(Fault::CodeOutOfRange),
        };
        if index >= self.constants.len() {
            return StepOutcome::Fault(Fault::ConstantOutOfRange);
        }
        let value = constant_to_value(&self.constants[index]);
        self.push(value);
        StepOutcome::Continue
    }

    fn op_store_local(&mut self) -> (r: StepOutcome)
        ensures
            (final(self)@, r) == store_local_step(old(self)@),
    {
        let n = match self.read_i64() {
            Some(v) => v as usize,
            None => return StepOutcome::Fault(Fault::CodeOutOfRange),
        };
        let value = match self.pop() {
            Some(v) => v,
            None => return StepOutcome::Fault(Fault::StackUnderflow),
        };
        let len = self.frames.len();
        if len == 0 {
            return StepOutcome::Fault(Fault::NoFrame);
        }
        let ghost s2 = self@;
        let ghost vv = value@;
        let mut frame = self.frames.pop().unwrap();
        let ghost fv = frame@;
        assert(fv == s2.frames.last());
        let ghost locals_before = frame.locals@;
        frame.locals.push((n, value));
        assert(frame.locals@.drop_last() =~= locals_before);
        assert(frame@.locals == fv.locals.insert(n, vv));
        self.frames.push(frame);
        assert(self@.frames =~= s2.frames.update(s2.frames.len() - 1, FrameView { locals: fv.locals.insert(n, vv), ..fv }));
        StepOutcome::Continue
    }

    fn op_load_local(&mut self) -> (r: StepOutcome)
        ensures
            (final(self)@, r) == load_local_step(old(self)@),
    {
        let n = match self.read_i64() {
            Some(v) => v as usize,
            None => return StepOutcome::Fault(Fault::CodeOutOfRange),
        };
        let len = self.frames.len();
        if len == 0 {
            return StepOutcome::Fault(Fault::NoFrame);
        }
        assert(self@.frames.last() == self.frames@[len - 1]@);
        let value = match find_local(&self.frames[len - 1].locals, n) {
            Some(v) => v.clone(),
            None => return StepOutcome::Fault(Fault::UndefinedLocal),
        };
        self.push(value);
        StepOutcome::Continue
    }

    /// Add (0x06), subtract (0x07), multiply (0x08) or divide (0x09).
    fn op_arithmetic(&mut self, opcode: u8) -> (r: StepOutcome)
        requires
            opcode == 6 || opcode == 7 || opcode == 8 || opcode == 9,
        ensures
            (final(self)@, r) == arithmetic_step(old(self)@, opcode),
    {
        let b = match self.pop() {
            Some(v) => v,
            None => return StepOutcome::Fault(Fault::StackUnderflow),
        };
        let a = match self.pop() {
            Some(v) => v,
            None => {
                assert(self@ =~= with_stack(old(self)@, seq![]));
                return StepOutcome::Fault(Fault::StackUnderflow);
            },
        };
        assert(self@.stack =~= old(self)@.stack.drop_last().drop_last());
        match (a, b) {
            (VMValue::Int(x), VMValue::Int(y)) => {
                let r = if opcode == 6 {
                    x.checked_add(y)
                } else if opcode == 7 {
                    x.checked_sub(y)
                } else if opcode == 8 {
                    x.checked_mul(y)
                } else {
                    if y == 0 {
                        return StepOutcome::Fault(Fault::DivisionByZero);
                    }
                    x.checked_div(y)
                };
                match r {
                    Some(z) => {
                        self.push(VMValue::Int(z));
                        StepOutcome::Continue
                    },
                    None => StepOutcome::Fault(Fault::ArithmeticOverflow),
                }
            },
            (VMValue::Float(x), VMValue::Float(y)) => {
                if opcode == 6 {
                    StepOutcome::FloatAdd(x, y)
                } else {
                    StepOutcome::Continue
                }
            },
            _ => {
                if opcode == 6 {
                    StepOutcome::Fault(Fault::InvalidAddTypes)
                } else {
                    StepOutcome::Continue
                }
            },
        }
    }

    fn op_call(&mut self) -> (r: StepOutcome)
        ensures
            (final(self)@, r) == call_step(old(self)@),
    {
        let func_index = match self.read_i64() {
            Some(v) => v as usize,
            None => return StepOutcome::Fault(Fault::CodeOutOfRange),
        };
        if func_index >= self.functions.len() {
            return StepOutcome::Fault(Fault::FunctionOutOfRange);
        }
        let func = self.functions[func_index];
        let arg_count = func.parameter_count as usize;
        let ghost s1 = self@;
        if self.stack.len() < arg_count {
            self.stack.clear();
            assert(self@ =~= with_stack(s1, seq![]));
            return StepOutcome::Fault(Fault::StackUnderflow);
        }
        let keep = self.stack.len() - arg_count;
        let args = self.stack.split_off(keep);
        assert(self@.stack =~= s1.stack.subrange(0, keep as int));
        let ghost argv = s1.stack.subrange(keep as int, s1.stack.len() as int);
        assert(stack_view(args@) =~= argv);
        let mut locals: Vec<(usize, VMValue)> = Vec::new();
        let mut i: usize = 0;
        let mut rest = args;
        proof {
            assert(locals_map(locals@) =~= arguments_locals(argv.subrange(0, 0)));
        }
        while rest.len() > 0
            invariant
                i + rest@.len() == argv.len(),
                argv.len() == arg_count,
                stack_view(rest@) == argv.subrange(i as int, argv.len() as int),
                locals_map(locals@) == arguments_locals(argv.subrange(0, i as int)),
            decreases rest@.len(),
        {
            let ghost rb = rest@;
            assert(rb.map_values(|v: VMValue| v@)[0] == argv[i as int]);
            let v = rest.remove(0);
            let ghost vv = v@;
            assert(rest@ =~= rb.subrange(1, rb.len() as int));
            let ghost before = locals@;
            locals.push((i, v));
            assert(locals@.drop_last() =~= before);
            assert(argv.subrange(0, i + 1).drop_last() =~= argv.subrange(0, i as int));
            assert forall|k: int| 0 <= k < rest@.len() implies #[trigger] stack_view(rest@)[k] == argv.subrange(i + 1, argv.len() as int)[k] by {
                assert(rest@[k] == rb[k + 1]);
                assert(stack_view(rb)[k + 1] == argv.subrange(i as int, argv.len() as int)[k + 1]);
            }
            i = i + 1;
            assert(stack_view(rest@) =~= argv.subrange(i as int, argv.len() as int));
        }
        assert(argv.subrange(0, i as int) =~= argv);
        let frame = Frame { locals, return_ip: self.ip, function_index: func_index };
        let ghost fv = frame@;
        self.frames.push(frame);
        self.ip = func.code_offset as usize;
        assert(self@.frames =~= s1.frames.push(fv));
        StepOutcome::Continue
    }

    fn op_return(&mut self) -> (r: StepOutcome)
        ensures
            (final(self)@, r) == return_step(old(self)@),
    {
        let ret = match self.pop() {
            Some(v) => v,
            None => return StepOutcome::Fault(Fault::StackUnderflow),
        };
        let frame = match self.frames.pop() {
            Some(f) => f,
            None => return StepOutcome::Fault(Fault::NoFrame),
        };
        assert(self@.frames =~= old(self)@.frames.drop_last());
        self.ip = frame.return_ip;
        self.push(ret);
        assert(self@.stack =~= old(self)@.stack);
        StepOutcome::Continue
    }

    /// Carries out the instruction at the instruction pointer; see
    /// `step_of` for what each instruction does.
    pub fn step(&mut self) -> (r: StepOutcome)
        ensures
            (final(self)@, r) == step_of(old(self)@),
    {
        if self.ip >= self.bytecode.len() {
            return StepOutcome::Fault(Fault::CodeOutOfRange);
        }
        let opcode = self.bytecode[self.ip];
        self.ip = self.ip + 1;
        assert(self@ =~= at_ip(old(self)@, self.ip));
        if opcode == 0x01 {
            self.op_load_const()
        } else if opcode == 0x02 {
            self.op_load_local()
        } else if opcode == 0x03 {
            self.op_store_local()
        } else if opcode == 0x06 || opcode == 0x07 || opcode == 0x08 || opcode == 0x09 {
            self.op_arithmetic(opcode)
        } else if opcode == 0x0A {
            self.op_call()
        } else if opcode == 0x0B {
            self.op_return()
        } else if opcode == 0xFF {
            StepOutcome::Halt
        } else {
            StepOutcome::Fault(Fault::UnknownOpcode(opcode))
        }
    }
}

// ---------------------------------------------------------------------------
// Laws of the machine.
/// A local read right after it was stored gives back the stored value: a
/// store followed by a load of the same local leaves the stack as it was.
pub proof fn lemma_load_after_store(s: VMView)
    requires
        s.bytecode.len() <= usize::MAX,
        s.ip + 18 <= s.bytecode.len(),
        s.bytecode[s.ip as int] == 0x03,
        s.bytecode[s.ip + 9] == 0x02,
        s.bytecode.subrange(s.ip + 1, s.ip + 9) == s.bytecode.subrange(s.ip + 10, s.ip + 18),
        s.stack.len() > 0,
        s.frames.len() > 0,
    ensures
        step_of(s).1 == StepOutcome::Continue,
        step_of(step_of(s).0).1 == StepOutcome::Continue,
        step_of(step_of(s).0).0.stack == s.stack,
        step_of(step_of(s).0).0.ip == s.ip + 18,
        step_of(step_of(s).0).0.frames.len() == s.frames.len(),
{
    let s1 = step_of(s).0;
    assert(s1.bytecode == s.bytecode);
    assert(s1.ip == s.ip + 9);
    assert(s1.bytecode.subrange(s1.ip + 1, s1.ip + 9) == s.bytecode.subrange(s.ip + 10, s.ip + 18));
    assert(s1.stack =~= s.stack.drop_last());
    let s2 = step_of(s1).0;
    assert(s2.stack =~= s.stack);
}

/// A return undoes the frame that a call made: after a call, whatever ran
/// in between, a return met with the same frames and a value on the stack
/// brings the frames back to what they were before the call, and goes on
/// right after the call instruction.
pub proof fn lemma_return_undoes_call(s: VMView, t: VMView)
    requires
        s.bytecode.len() <= usize::MAX,
        s.ip < s.bytecode.len(),
        s.bytecode[s.ip as int] == 0x0A,
        step_of(s).1 == StepOutcome::Continue,
        t.frames == step_of(s).0.frames,
        t.ip < t.bytecode.len(),
        t.bytecode[t.ip as int] == 0x0B,
        t.stack.len() > 0,
    ensures
        step_of(t).1 == StepOutcome::Continue,
        step_of(t).0.frames == s.frames,
        step_of(t).0.ip == s.ip + 9,
        step_of(t).0.stack == t.stack,
{
    assert(step_of(t).0.frames =~= s.frames);
}

/// The locals made of the arguments: local `i` holds argument `i`, and there
/// is no other local.
proof fn lemma_arguments_locals(args: Seq<VMValueView>)
    requires
        args.len() <= usize::MAX,
    ensures
        forall|n: usize| #[trigger] arguments_locals(args).contains_key(n) <==> (n as int) < args.len(),
        forall|n: usize| (n as int) < args.len() ==> #[trigger] arguments_locals(args)[n] == args[n as int],
    decreases args.len(),
{
    if args.len() > 0 {
        let init = args.drop_last();
        lemma_arguments_locals(init);
        let last_key = (args.len() - 1) as usize;
        assert(last_key as int == args.len() - 1);
        assert(arguments_locals(args) == arguments_locals(init).insert(last_key, args.last()));
        assert forall|n: usize| #[trigger] arguments_locals(args).contains_key(n) <==> (n as int) < args.len() by {
            if n != last_key {
                assert(arguments_locals(args).contains_key(n) == arguments_locals(init).contains_key(n));
            }
        }
        assert forall|n: usize| (n as int) < args.len() implies #[trigger] arguments_locals(args)[n] == args[n as int] by {
            if n != last_key {
                assert(arguments_locals(args)[n] == arguments_locals(init)[n]);
                assert(init[n as int] == args[n as int]);
            }
        }
    }
}

/// A call binds its arguments in the order they were pushed: calling a
/// function of `k` parameters takes the top `k` values off the stack, and
/// in the new frame local `i` holds the value that stood `k - i` places
/// from the top (the first argument pushed is local 0); there is no other
/// local, the frame returns right after the call instruction, and execution
/// goes on at the function's code.
pub proof fn lemma_call_binds_arguments(s: VMView)
    requires
        s.bytecode.len() <= usize::MAX,
        s.stack.len() <= usize::MAX,
        s.ip < s.bytecode.len(),
        s.bytecode[s.ip as int] == 0x0A,
        step_of(s).1 == StepOutcome::Continue,
    ensures
        ({
            let s2 = step_of(s).0;
            let f = s2.frames.last();
            let k = s.functions[f.function_index as int].parameter_count as int;
            &&& s2.frames.len() == s.frames.len() + 1
            &&& s2.frames.drop_last() == s.frames
            &&& f.function_index < s.functions.len()
            &&& k <= s.stack.len()
            &&& s2.stack == s.stack.subrange(0, s.stack.len() - k)
            &&& forall|i: usize| (i as int) < k ==> #[trigger] f.locals.contains_key(i)
                && f.locals[i] == s.stack[s.stack.len() - k + i]
            &&& forall|n: usize| #[trigger] f.locals.contains_key(n) ==> (n as int) < k
            &&& f.return_ip == s.ip + 9
            &&& s2.ip == s.functions[f.function_index as int].code_offset
        }),
{
    let s1 = at_ip(s, (s.ip + 1) as usize);
    let (v, s1b) = read_operand(s1).unwrap();
    let index = v as usize;
    let func = s1b.functions[index as int];
    let argc = func.parameter_count as int;
    let keep = s1b.stack.len() - argc;
    let args = s1b.stack.subrange(keep, s1b.stack.len() as int);
    lemma_arguments_locals(args);
    let s2 = step_of(s).0;
    assert(s2.frames.drop_last() =~= s.frames);
    assert forall|i: usize| (i as int) < argc implies #[trigger] s2.frames.last().locals.contains_key(i)
        && s2.frames.last().locals[i] == s.stack[s.stack.len() - argc + i] by {
        assert(args[i as int] == s.stack[keep + i]);
    }
}

} // verus!
