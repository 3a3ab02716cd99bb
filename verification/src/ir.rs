//! The intermediate representation: each function as a list of
//! three-address instructions over numbered temporaries `t0`, `t1`, ...
use vstd::prelude::*;
use crate::text::{push_decimal, decimal};
use crate::structure::{
    Value, ValueView, TokenOperation, Expression, ExpressionKind, ExprView, ExprKindView,
    Operation, FunctionCall, Statement, StatementView, Function, FunctionView, FileItem,
    FileItemView, SourceFileView, Program, ProgramView, expr_view, exprs_view,
    lemma_exprs_view, };

verus! {

broadcast use vstd::string::group_string_axioms;

/// An operand: a temporary or a literal. A decimal literal is held by the
/// bit pattern of its 64-bit IEEE-754 representation.
#[derive(Debug)]
pub enum IRValue {
    Temp(String),
    Int(i64),
    Float(u64),
    String(String),
}

/// An operand with its texts as character sequences.
pub enum IRValueView {
    Temp(Seq<char>),
    Int(i64),
    Float(u64),
    String(Seq<char>),
}

impl View for IRValue {
    type V = IRValueView;

    open spec fn view(&self) -> IRValueView {
        match self {
            IRValue::Temp(s) => IRValueView::Temp(s@),
            IRValue::Int(v) => IRValueView::Int(*v),
            IRValue::Float(v) => IRValueView::Float(*v),
            IRValue::String(s) => IRValueView::String(s@),
        }
    }
}

/// A three-address instruction.
#[derive(Debug)]
pub enum IRInstruction {
    Load { dst: String, variable: String },
    Store { variable: String, src: IRValue },
    Add { dst: String, left: IRValue, right: IRValue },
    Sub { dst: String, left: IRValue, right: IRValue },
    Mul { dst: String, left: IRValue, right: IRValue },
    Div { dst: String, left: IRValue, right: IRValue },
    Call { dst: String, function: String, arguments: Vec<IRValue> },
    Return(IRValue),
}

/// An instruction with its texts as character sequences.
pub enum IRInstructionView {
    Load { dst: Seq<char>, variable: Seq<char> },
    Store { variable: Seq<char>, src: IRValueView },
    Add { dst: Seq<char>, left: IRValueView, right: IRValueView },
    Sub { dst: Seq<char>, left: IRValueView, right: IRValueView },
    Mul { dst: Seq<char>, left: IRValueView, right: IRValueView },
    Div { dst: Seq<char>, left: IRValueView, right: IRValueView },
    Call { dst: Seq<char>, function: Seq<char>, arguments: Seq<IRValueView> },
    Return(IRValueView),
}

/// The views of a sequence of operands.
pub open spec fn values_view(s: Seq<IRValue>) -> Seq<IRValueView> {
    s.map_values(|v: IRValue| v@)
}

impl View for IRInstruction {
    type V = IRInstructionView;

    open spec fn view(&self) -> IRInstructionView {
        match self {
            IRInstruction::Load { dst, variable } => IRInstructionView::Load { dst: dst@, variable: variable@ },
            IRInstruction::Store { variable, src } => IRInstructionView::Store { variable: variable@, src: src@ },
            IRInstruction::Add { dst, left, right } => IRInstructionView::Add { dst: dst@, left: left@, right: right@ },
            IRInstruction::Sub { dst, left, right } => IRInstructionView::Sub { dst: dst@, left: left@, right: right@ },
            IRInstruction::Mul { dst, left, right } => IRInstructionView::Mul { dst: dst@, left: left@, right: right@ },
            IRInstruction::Div { dst, left, right } => IRInstructionView::Div { dst: dst@, left: left@, right: right@ },
            IRInstruction::Call { dst, function, arguments } => IRInstructionView::Call {
                dst: dst@,
                function: function@,
                arguments: values_view(arguments@),
            },
            IRInstruction::Return(v) => IRInstructionView::Return(v@),
        }
    }
}

/// The views of a sequence of instructions.
pub open spec fn instructions_view(s: Seq<IRInstruction>) -> Seq<IRInstructionView> {
    s.map_values(|i: IRInstruction| i@)
}

/// A function of the intermediate representation.
#[derive(Debug)]
pub struct IRFunction {
    pub name: String,
    pub instructions: Vec<IRInstruction>,
}

/// A function with its texts as character sequences.
pub struct IRFunctionView {
    pub name: Seq<char>,
    pub instructions: Seq<IRInstructionView>,
}

impl View for IRFunction {
    type V = IRFunctionView;

    open spec fn view(&self) -> IRFunctionView {
        IRFunctionView { name: self.name@, instructions: instructions_view(self.instructions@) }
    }
}

/// A program of the intermediate representation.
#[derive(Debug)]
pub struct IRProgram {
    pub functions: Vec<IRFunction>,
}

impl View for IRProgram {
    type V = Seq<IRFunctionView>;

    open spec fn view(&self) -> Seq<IRFunctionView> {
        self.functions@.map_values(|f: IRFunction| f@)
    }
}

// ---------------------------------------------------------------------------
// The lowering, with the counter of temporaries threaded through it.
/// The name of temporary number `n`: `t` followed by `n` in decimal.
pub open spec fn temp_name(n: nat) -> Seq<char> {
    "t"@ + decimal(n)
}

/// The operand of a literal.
pub open spec fn literal_operand(v: ValueView) -> IRValueView {
    match v {
        ValueView::Int(x) => IRValueView::Int(x),
        ValueView::Float(x) => IRValueView::Float(x),
        ValueView::String(s) => IRValueView::String(s),
    }
}

/// The instruction of an operator.
pub open spec fn operation_instruction(op: TokenOperation, dst: Seq<char>, left: IRValueView, right: IRValueView) -> IRInstructionView {
    match op {
        TokenOperation::Add => IRInstructionView::Add { dst, left, right },
        TokenOperation::Subtract => IRInstructionView::Sub { dst, left, right },
        TokenOperation::Multiply => IRInstructionView::Mul { dst, left, right },
        TokenOperation::Divide => IRInstructionView::Div { dst, left, right },
    }
}

/// The lowering of an expression with the counter at `n`: the operand
/// holding its value, the instructions emitted, and the counter after. A
/// literal emits nothing; a variable is loaded into a new temporary; an
/// operation emits its left then right operand, then its instruction into
/// a new temporary; a call emits its arguments from the first, then the
/// call into a new temporary.
pub open spec fn expression_ir(e: ExprView, n: nat) -> (IRValueView, Seq<IRInstructionView>, nat)
    decreases e,
{
    match e.kind {
        ExprKindView::Value(v) => (literal_operand(v), seq![], n),
        ExprKindView::Variable(name) => (
            IRValueView::Temp(temp_name(n)),
            seq![IRInstructionView::Load { dst: temp_name(n), variable: name }],
            n + 1,
        ),
        ExprKindView::Operation(op) => {
            let (l, il, n1) = expression_ir(*op.left, n);
            let (r, ir, n2) = expression_ir(*op.right, n1);
            (
                IRValueView::Temp(temp_name(n2)),
                il + ir + seq![operation_instruction(op.operator, temp_name(n2), l, r)],
                n2 + 1,
            )
        },
        ExprKindView::FunctionCall(call) => {
            let (vals, is, n1) = arguments_ir(call.arguments, n);
            (
                IRValueView::Temp(temp_name(n1)),
                is + seq![IRInstructionView::Call { dst: temp_name(n1), function: call.name, arguments: vals }],
                n1 + 1,
            )
        },
    }
}

/// The lowering of call arguments, from the first.
pub open spec fn arguments_ir(args: Seq<ExprView>, n: nat) -> (Seq<IRValueView>, Seq<IRInstructionView>, nat)
    decreases args,
{
    if args.len() == 0 {
        (seq![], seq![], n)
    } else {
        let (vals, is, n1) = arguments_ir(args.drop_last(), n);
        let (v, i2, n2) = expression_ir(args.last(), n1);
        (vals.push(v), is + i2, n2)
    }
}

/// The lowering of a statement: a declaration with a value stores it,
/// a `retourner` with a value returns it, an expression is evaluated.
pub open spec fn statement_ir(st: StatementView, n: nat) -> (Seq<IRInstructionView>, nat) {
    match st {
        StatementView::VariableDeclaration(v) => match v.value {
            Some(e) => {
                let (val, is, n1) = expression_ir(e, n);
                (is + seq![IRInstructionView::Store { variable: v.name, src: val }], n1)
            },
            None => (seq![], n),
        },
        StatementView::Return(r) => match r.value {
            Some(e) => {
                let (val, is, n1) = expression_ir(e, n);
                (is + seq![IRInstructionView::Return(val)], n1)
            },
            None => (seq![], n),
        },
        StatementView::Expression(e) => {
            let (_, is, n1) = expression_ir(e, n);
            (is, n1)
        },
    }
}

/// The lowering of statements one after the other.
pub open spec fn statements_ir(body: Seq<StatementView>, n: nat) -> (Seq<IRInstructionView>, nat)
    decreases body.len(),
{
    if body.len() == 0 {
        (seq![], n)
    } else {
        let (is, n1) = statements_ir(body.drop_last(), n);
        let (i2, n2) = statement_ir(body.last(), n1);
        (is + i2, n2)
    }
}

/// The lowering of a function: its body, with temporaries numbered
/// from zero.
pub open spec fn function_ir(f: FunctionView) -> IRFunctionView {
    IRFunctionView { name: f.name, instructions: statements_ir(f.body, 0).0 }
}

/// The number of temporaries a function needs.
pub open spec fn function_temps(f: FunctionView) -> nat {
    statements_ir(f.body, 0).1
}

/// The functions of the items, lowered.
pub open spec fn items_ir(items: Seq<FileItemView>) -> Seq<IRFunctionView>
    decreases items.len(),
{
    if items.len() == 0 {
        seq![]
    } else {
        let fs = items_ir(items.drop_last());
        match items.last() {
            FileItemView::Function(f) => fs.push(function_ir(f)),
            FileItemView::Variable(_) => fs,
        }
    }
}

/// The functions of all the files, lowered, file after file.
pub open spec fn program_ir(files: Seq<SourceFileView>) -> Seq<IRFunctionView>
    decreases files.len(),
{
    if files.len() == 0 {
        seq![]
    } else {
        program_ir(files.drop_last()) + items_ir(files.last().items)
    }
}

/// Every function of the program needs fewer temporaries than a `usize`
/// counts.
pub open spec fn temps_fit(p: ProgramView) -> bool {
    forall|i: int, j: int|
        0 <= i < p.files.len() && 0 <= j < p.files[i].items.len() ==> match #[trigger] p.files[i].items[j] {
            FileItemView::Function(f) => function_temps(f) < usize::MAX,
            FileItemView::Variable(_) => true,
        }
}

/// The counter only grows along a lowering.
pub proof fn lemma_expression_ir_counter(e: ExprView, n: nat)
    ensures
        n <= expression_ir(e, n).2,
    decreases e,
{
    match e.kind {
        ExprKindView::Operation(op) => {
            lemma_expression_ir_counter(*op.left, n);
            lemma_expression_ir_counter(*op.right, expression_ir(*op.left, n).2);
        },
        ExprKindView::FunctionCall(call) => {
            lemma_arguments_ir_counter(call.arguments, n);
        },
        _ => {},
    }
}

/// The counter only grows along the arguments' lowering.
pub proof fn lemma_arguments_ir_counter(args: Seq<ExprView>, n: nat)
    ensures
        n <= arguments_ir(args, n).2,
        arguments_ir(args, n).0.len() == args.len(),
    decreases args,
{
    if args.len() > 0 {
        lemma_arguments_ir_counter(args.drop_last(), n);
        lemma_expression_ir_counter(args.last(), arguments_ir(args.drop_last(), n).2);
    }
}

/// The counter only grows along a body's lowering.
pub proof fn lemma_statements_ir_counter(body: Seq<StatementView>, n: nat, k: int)
    requires
        0 <= k <= body.len(),
    ensures
        n <= statements_ir(body.subrange(0, k), n).1 <= statements_ir(body, n).1,
    decreases body.len() - k,
{
    if k == body.len() {
        assert(body.subrange(0, k) =~= body);
        lemma_statements_ir_counter_base(body, n);
    } else {
        assert(body.drop_last().subrange(0, k) =~= body.subrange(0, k));
        lemma_statements_ir_counter(body.drop_last(), n, k);
        let n1 = statements_ir(body.drop_last(), n).1;
        match body.last() {
            StatementView::VariableDeclaration(v) => if let Some(e) = v.value { lemma_expression_ir_counter(e, n1); },
            StatementView::Return(r) => if let Some(e) = r.value { lemma_expression_ir_counter(e, n1); },
            StatementView::Expression(e) => lemma_expression_ir_counter(e, n1),
        }
    }
}

/// The counter only grows along a body's lowering.
pub proof fn lemma_statements_ir_counter_base(body: Seq<StatementView>, n: nat)
    ensures
        n <= statements_ir(body, n).1,
    decreases body.len(),
{
    if body.len() > 0 {
        lemma_statements_ir_counter_base(body.drop_last(), n);
        let n1 = statements_ir(body.drop_last(), n).1;
        match body.last() {
            StatementView::VariableDeclaration(v) => if let Some(e) = v.value { lemma_expression_ir_counter(e, n1); },
            StatementView::Return(r) => if let Some(e) = r.value { lemma_expression_ir_counter(e, n1); },
            StatementView::Expression(e) => lemma_expression_ir_counter(e, n1),
        }
    }
}

/// The counter after lowering the functions of the items from counter
/// `n`: each function starts again from zero.
pub open spec fn items_counter(n: nat, items: Seq<FileItemView>) -> nat
    decreases items.len(),
{
    if items.len() == 0 {
        n
    } else {
        match items.last() {
            FileItemView::Function(f) => function_temps(f),
            FileItemView::Variable(_) => items_counter(n, items.drop_last()),
        }
    }
}

/// The counter after lowering all the files from counter `n`.
pub open spec fn program_counter(n: nat, files: Seq<SourceFileView>) -> nat
    decreases files.len(),
{
    if files.len() == 0 {
        n
    } else {
        items_counter(program_counter(n, files.drop_last()), files.last().items)
    }
}

// ---------------------------------------------------------------------------
// The generator.
/// Lowers programs, numbering temporaries with a counter.
pub struct IRGenerator {
    temp_counter: usize,
}

impl IRGenerator {
    /// The number of the next temporary.
    pub closed spec fn counter(&self) -> nat {
        self.temp_counter as nat
    }

    /// A generator whose next temporary is `t0`.
    pub fn new() -> (g: Self)
        ensures
            g.counter() == 0,
    {
        Self { temp_counter: 0 }
    }

    fn new_temp(&mut self) -> (name: String)
        requires
            old(self).counter() < usize::MAX,
        ensures
            name@ == temp_name(old(self).counter()),
            final(self).counter() == old(self).counter() + 1,
    {
        let mut name = "t".to_string();
        push_decimal(&mut name, self.temp_counter);
        self.temp_counter += 1;
        name
    }

    fn generate_call(&mut self, call: &FunctionCall, instructions: &mut Vec<IRInstruction>) -> (v: IRValue)
        requires
            arguments_ir(exprs_view(call.arguments@), old(self).counter()).2 < usize::MAX,
        ensures
            ({
                let (vals, is, n1) = arguments_ir(exprs_view(call.arguments@), old(self).counter());
                &&& v@ == IRValueView::Temp(temp_name(n1))
                &&& instructions_view(final(instructions)@) == instructions_view(old(instructions)@) + is
                    + seq![IRInstructionView::Call { dst: temp_name(n1), function: call.name@, arguments: vals }]
                &&& final(self).counter() == n1 + 1
            }),
        decreases call, 0int,
    {
        let ghost n0 = self.counter();
        let ghost start = instructions_view(instructions@);
        let ghost argv = exprs_view(call.arguments@);
        proof {
            lemma_exprs_view(call.arguments@);
        }
        let mut args: Vec<IRValue> = Vec::new();
        let mut i: usize = 0;
        assert(argv.subrange(0, 0) =~= Seq::<ExprView>::empty());
        assert(values_view(args@) =~= Seq::<IRValueView>::empty());
        assert(instructions_view(instructions@) =~= start + Seq::<IRInstructionView>::empty());
        #[verifier::loop_isolation(false)]
        while i < call.arguments.len()
            invariant
                i <= call.arguments@.len(),
                argv.len() == call.arguments@.len(),
                ({
                    let (vals, is, n1) = arguments_ir(argv.subrange(0, i as int), n0);
                    &&& values_view(args@) == vals
                    &&& instructions_view(instructions@) == start + is
                    &&& self.counter() == n1
                }),
            decreases call.arguments@.len() - i,
        {
            let ghost sub = argv.subrange(0, i + 1);
            assert(sub.drop_last() =~= argv.subrange(0, i as int));
            assert(sub.last() == call.arguments@[i as int]@);
            proof {
                lemma_arguments_prefix_counter(argv, n0, i as int + 1);
            }
            let ghost before_args = values_view(args@);
            let ghost before_is = instructions_view(instructions@);
            let v = self.generate_expression(&call.arguments[i], instructions);
            args.push(v);
            assert(values_view(args@) =~= before_args.push(args@.last()@));
            i = i + 1;
            assert(instructions_view(instructions@) =~= start + arguments_ir(argv.subrange(0, i as int), n0).1);
        }
        assert(argv.subrange(0, i as int) =~= argv);
        let temp = self.new_temp();
        let ghost before_is = instructions_view(instructions@);
        let ghost vals = values_view(args@);
        instructions.push(IRInstruction::Call { dst: temp.clone(), function: call.name.clone(), arguments: args });
        assert(instructions_view(instructions@) =~= before_is.push(instructions@.last()@));
        IRValue::Temp(temp)
    }

    fn generate_operation(&mut self, op: &Operation, instructions: &mut Vec<IRInstruction>) -> (v: IRValue)
        requires
            expression_ir(expr_view(*op.right), expression_ir(expr_view(*op.left), old(self).counter()).2).2 < usize::MAX,
        ensures
            ({
                let (l, il, n1) = expression_ir(expr_view(*op.left), old(self).counter());
                let (r, ir, n2) = expression_ir(expr_view(*op.right), n1);
                &&& v@ == IRValueView::Temp(temp_name(n2))
                &&& instructions_view(final(instructions)@) == instructions_view(old(instructions)@) + il + ir
                    + seq![operation_instruction(op.operator, temp_name(n2), l, r)]
                &&& final(self).counter() == n2 + 1
            }),
        decreases op, 0int,
    {
        let ghost n0 = self.counter();
        proof {
            lemma_expression_ir_counter(expr_view(*op.left), n0);
            lemma_expression_ir_counter(expr_view(*op.right), expression_ir(expr_view(*op.left), n0).2);
        }
        let left = self.generate_expression(&op.left, instructions);
        let right = self.generate_expression(&op.right, instructions);
        let temp = self.new_temp();
        let ghost before_is = instructions_view(instructions@);
        match op.operator {
            TokenOperation::Add => {
                instructions.push(IRInstruction::Add { dst: temp.clone(), left, right });
            },
            TokenOperation::Subtract => {
                instructions.push(IRInstruction::Sub { dst: temp.clone(), left, right });
            },
            TokenOperation::Multiply => {
                instructions.push(IRInstruction::Mul { dst: temp.clone(), left, right });
            },
            TokenOperation::Divide => {
                instructions.push(IRInstruction::Div { dst: temp.clone(), left, right });
            },
        }
        assert(instructions_view(instructions@) =~= before_is.push(instructions@.last()@));
        IRValue::Temp(temp)
    }

    fn generate_expression(&mut self, expression: &Expression, instructions: &mut Vec<IRInstruction>) -> (v: IRValue)
        requires
            expression_ir(expression@, old(self).counter()).2 <= usize::MAX,
        ensures
            ({
                let (val, is, n1) = expression_ir(expression@, old(self).counter());
                &&& v@ == val
                &&& instructions_view(final(instructions)@) == instructions_view(old(instructions)@) + is
                &&& final(self).counter() == n1
            }),
        decreases expression, 1int,
    {
        match &expression.kind {
            ExpressionKind::Value(value) => {
                assert(instructions_view(instructions@) =~= instructions_view(instructions@) + Seq::<IRInstructionView>::empty());
                match value {
                    Value::Int(v) => IRValue::Int(*v),
                    Value::Float(v) => IRValue::Float(*v),
                    Value::String(v) => IRValue::String(v.clone()),
                }
            },
            ExpressionKind::Variable(name) => {
                let temp = self.new_temp();
                let ghost before_is = instructions_view(instructions@);
                instructions.push(IRInstruction::Load { dst: temp.clone(), variable: name.clone() });
                assert(instructions_view(instructions@) =~= before_is.push(instructions@.last()@));
                IRValue::Temp(temp)
            },
            ExpressionKind::Operation(op) => {
                let v = self.generate_operation(op, instructions);
                assert(instructions_view(instructions@) =~= instructions_view(old(instructions)@) + expression_ir(expression@, old(self).counter()).1);
                v
            },
            ExpressionKind::FunctionCall(call) => {
                let v = self.generate_call(call, instructions);
                v
            },
        }
    }

    fn generate_statement(&mut self, statement: &Statement, instructions: &mut Vec<IRInstruction>)
        requires
            statement_ir(statement@, old(self).counter()).1 <= usize::MAX,
        ensures
            ({
                let (is, n1) = statement_ir(statement@, old(self).counter());
                &&& instructions_view(final(instructions)@) == instructions_view(old(instructions)@) + is
                &&& final(self).counter() == n1
            }),
    {
        match statement {
            Statement::VariableDeclaration(var) => {
                if let Some(expr) = &var.value {
                    let value = self.generate_expression(expr, instructions);
                    let ghost before_is = instructions_view(instructions@);
                    instructions.push(IRInstruction::Store { variable: var.name.clone(), src: value });
                    assert(instructions_view(instructions@) =~= before_is.push(instructions@.last()@));
                } else {
                    assert(instructions_view(instructions@) =~= instructions_view(instructions@) + Seq::<IRInstructionView>::empty());
                }
            },
            Statement::Return(ret) => {
                if let Some(expr) = &ret.value {
                    let value = self.generate_expression(expr, instructions);
                    let ghost before_is = instructions_view(instructions@);
                    instructions.push(IRInstruction::Return(value));
                    assert(instructions_view(instructions@) =~= before_is.push(instructions@.last()@));
                } else {
                    assert(instructions_view(instructions@) =~= instructions_view(instructions@) + Seq::<IRInstructionView>::empty());
                }
            },
            Statement::Expression(expr) => {
                self.generate_expression(expr, instructions);
            },
        }
    }

    fn generate_function(&mut self, function: &Function) -> (f: IRFunction)
        requires
            function_temps(function@) <= usize::MAX,
        ensures
            f@ == function_ir(function@),
            final(self).counter() == function_temps(function@),
    {
        self.temp_counter = 0;
        let ghost body = function@.body;
        let mut instructions: Vec<IRInstruction> = Vec::new();
        let mut j: usize = 0;
        assert(body.subrange(0, 0) =~= Seq::<StatementView>::empty());
        assert(instructions_view(instructions@) =~= Seq::<IRInstructionView>::empty());
        while j < function.body.len()
            invariant
                j <= function.body@.len(),
                body == function@.body,
                body.len() == function.body@.len(),
                function_temps(function@) <= usize::MAX,
                ({
                    let (is, n1) = statements_ir(body.subrange(0, j as int), 0);
                    instructions_view(instructions@) == is && self.counter() == n1
                }),
            decreases function.body@.len() - j,
        {
            let ghost sub = body.subrange(0, j + 1);
            assert(sub.drop_last() =~= body.subrange(0, j as int));
            assert(sub.last() == function.body@[j as int]@);
            proof {
                lemma_statements_ir_counter(body, 0, j + 1);
            }
            self.generate_statement(&function.body[j], &mut instructions);
            j = j + 1;
        }
        assert(body.subrange(0, j as int) =~= body);
        IRFunction { name: function.name.clone(), instructions }
    }

    /// Lowers every function of every file, in order, each with its
    /// temporaries numbered from `t0`; other items give nothing.
    pub fn generate(&mut self, program: &Program) -> (r: IRProgram)
        requires
            temps_fit(program@),
        ensures
            r@ == program_ir(program@.files),
            final(self).counter() == program_counter(old(self).counter(), program@.files),
    {
        let ghost files = program@.files;
        let mut functions: Vec<IRFunction> = Vec::new();
        let mut i: usize = 0;
        assert(files.subrange(0, 0) =~= Seq::<SourceFileView>::empty());
        assert(functions@.map_values(|f: IRFunction| f@) =~= Seq::<IRFunctionView>::empty());
        while i < program.files.len()
            invariant
                i <= program.files@.len(),
                files == program@.files,
                files.len() == program.files@.len(),
                temps_fit(program@),
                functions@.map_values(|f: IRFunction| f@) == program_ir(files.subrange(0, i as int)),
                self.counter() == program_counter(old(self).counter(), files.subrange(0, i as int)),
            decreases program.files@.len() - i,
        {
            let file = &program.files[i];
            let ghost items = file@.items;
            let ghost before = functions@.map_values(|f: IRFunction| f@);
            let ghost c0 = self.counter();
            assert(files.subrange(0, i + 1).drop_last() =~= files.subrange(0, i as int));
            assert(files.subrange(0, i + 1).last() == file@);
            assert(files[i as int] == file@);
            let mut j: usize = 0;
            assert(items.subrange(0, 0) =~= Seq::<FileItemView>::empty());
            assert(before + Seq::<IRFunctionView>::empty() =~= before);
            #[verifier::loop_isolation(false)]
            while j < file.items.len()
                invariant
                    j <= file.items@.len(),
                    items == file@.items,
                    items.len() == file.items@.len(),
                    functions@.map_values(|f: IRFunction| f@) == before + items_ir(items.subrange(0, j as int)),
                    self.counter() == items_counter(c0, items.subrange(0, j as int)),
                decreases file.items@.len() - j,
            {
                let ghost sub = items.subrange(0, j + 1);
                assert(sub.drop_last() =~= items.subrange(0, j as int));
                assert(sub.last() == file.items@[j as int]@);
                assert(items[j as int] == file.items@[j as int]@);
                if let FileItem::Function(func) = &file.items[j] {
                    let ghost fs = functions@.map_values(|f: IRFunction| f@);
                    let irf = self.generate_function(func);
                    functions.push(irf);
                    assert(functions@.map_values(|f: IRFunction| f@) =~= fs.push(function_ir(func@)));
                }
                j = j + 1;
            }
            assert(items.subrange(0, j as int) =~= items);
            i = i + 1;
        }
        assert(files.subrange(0, i as int) =~= files);
        IRProgram { functions }
    }
}

/// Lowering a prefix of the arguments stops at a counter no greater than
/// lowering all of them.
pub proof fn lemma_arguments_prefix_counter(args: Seq<ExprView>, n: nat, k: int)
    requires
        0 <= k <= args.len(),
    ensures
        arguments_ir(args.subrange(0, k), n).2 <= arguments_ir(args, n).2,
    decreases args.len() - k,
{
    if k == args.len() {
        assert(args.subrange(0, k) =~= args);
    } else {
        assert(args.drop_last().subrange(0, k) =~= args.subrange(0, k));
        lemma_arguments_prefix_counter(args.drop_last(), n, k);
        lemma_expression_ir_counter(args.last(), arguments_ir(args.drop_last(), n).2);
    }
}

// ---------------------------------------------------------------------------
// Every temporary is written once.
/// The temporary an instruction writes, if it writes one.
pub open spec fn destination(i: IRInstructionView) -> Option<Seq<char>> {
    match i {
        IRInstructionView::Load { dst, .. } => Some(dst),
        IRInstructionView::Add { dst, .. } => Some(dst),
        IRInstructionView::Sub { dst, .. } => Some(dst),
        IRInstructionView::Mul { dst, .. } => Some(dst),
        IRInstructionView::Div { dst, .. } => Some(dst),
        IRInstructionView::Call { dst, .. } => Some(dst),
        IRInstructionView::Store { .. } => None,
        IRInstructionView::Return(_) => None,
    }
}

/// The temporaries written by a list of instructions, in order.
pub open spec fn destinations(is: Seq<IRInstructionView>) -> Seq<Seq<char>>
    decreases is.len(),
{
    if is.len() == 0 {
        seq![]
    } else {
        match destination(is.last()) {
            Some(d) => destinations(is.drop_last()).push(d),
            None => destinations(is.drop_last()),
        }
    }
}

/// The temporaries numbered from `n` up to, and without, `m`.
pub open spec fn temps_between(n: nat, m: nat) -> Seq<Seq<char>> {
    Seq::new((m - n) as nat, |i: int| temp_name((n + i) as nat))
}

/// No temporary is written twice by the instructions of the function.
pub open spec fn writes_each_temp_once(f: IRFunctionView) -> bool {
    let ds = destinations(f.instructions);
    forall|i: int, j: int| 0 <= i < j < ds.len() ==> ds[i] != ds[j]
}

/// The temporaries written by two lists of instructions one after the other.
pub proof fn lemma_destinations_concat(a: Seq<IRInstructionView>, b: Seq<IRInstructionView>)
    ensures
        destinations(a + b) == destinations(a) + destinations(b),
    decreases b.len(),
{
    if b.len() == 0 {
        assert(a + b =~= a);
        assert(destinations(a) + destinations(b) =~= destinations(a));
    } else {
        assert((a + b).drop_last() =~= a + b.drop_last());
        assert((a + b).last() == b.last());
        lemma_destinations_concat(a, b.drop_last());
        match destination(b.last()) {
            Some(d) => {
                assert(destinations(a) + destinations(b.drop_last()).push(d)
                    =~= (destinations(a) + destinations(b.drop_last())).push(d));
            },
            None => {},
        }
    }
}

/// The temporaries written by a single instruction.
proof fn lemma_destinations_single(i: IRInstructionView)
    ensures
        destinations(seq![i]) == match destination(i) {
            Some(d) => seq![d],
            None => Seq::<Seq<char>>::empty(),
        },
{
    assert(seq![i].drop_last() =~= Seq::<IRInstructionView>::empty());
    assert(destinations(Seq::<IRInstructionView>::empty()) == Seq::<Seq<char>>::empty());
    assert(seq![i].last() == i);
    match destination(i) {
        Some(d) => {
            assert(Seq::<Seq<char>>::empty().push(d) =~= seq![d]);
        },
        None => {},
    }
}

/// Consecutive ranges of temporaries join.
proof fn lemma_temps_between_concat(n: nat, m: nat, k: nat)
    requires
        n <= m <= k,
    ensures
        temps_between(n, m) + temps_between(m, k) == temps_between(n, k),
{
    assert(temps_between(n, m) + temps_between(m, k) =~= temps_between(n, k));
}

/// An expression's lowering writes exactly the temporaries from the
/// counter before to the counter after, in order.
pub proof fn lemma_expression_destinations(e: ExprView, n: nat)
    ensures
        n <= expression_ir(e, n).2,
        destinations(expression_ir(e, n).1) == temps_between(n, expression_ir(e, n).2),
    decreases e,
{
    match e.kind {
        ExprKindView::Value(_) => {
            assert(expression_ir(e, n).1 =~= Seq::<IRInstructionView>::empty());
            assert(destinations(Seq::<IRInstructionView>::empty()) == Seq::<Seq<char>>::empty());
            assert(temps_between(n, n) =~= Seq::<Seq<char>>::empty());
        },
        ExprKindView::Variable(name) => {
            let i = IRInstructionView::Load { dst: temp_name(n), variable: name };
            lemma_destinations_single(i);
            assert(temps_between(n, n + 1) =~= seq![temp_name(n)]);
        },
        ExprKindView::Operation(op) => {
            let (l, il, n1) = expression_ir(*op.left, n);
            let (r, ir, n2) = expression_ir(*op.right, n1);
            lemma_expression_destinations(*op.left, n);
            lemma_expression_destinations(*op.right, n1);
            let last = operation_instruction(op.operator, temp_name(n2), l, r);
            lemma_destinations_concat(il, ir);
            lemma_destinations_concat(il + ir, seq![last]);
            lemma_destinations_single(last);
            assert(temps_between(n2, n2 + 1) =~= seq![temp_name(n2)]);
            lemma_temps_between_concat(n, n1, n2);
            lemma_temps_between_concat(n, n2, n2 + 1);
        },
        ExprKindView::FunctionCall(call) => {
            let (vals, is, n1) = arguments_ir(call.arguments, n);
            lemma_arguments_destinations(call.arguments, n);
            let last = IRInstructionView::Call { dst: temp_name(n1), function: call.name, arguments: vals };
            lemma_destinations_concat(is, seq![last]);
            lemma_destinations_single(last);
            assert(temps_between(n1, n1 + 1) =~= seq![temp_name(n1)]);
            lemma_temps_between_concat(n, n1, n1 + 1);
        },
    }
}

/// The arguments' lowering writes exactly the temporaries from the
/// counter before to the counter after, in order.
pub proof fn lemma_arguments_destinations(args: Seq<ExprView>, n: nat)
    ensures
        n <= arguments_ir(args, n).2,
        destinations(arguments_ir(args, n).1) == temps_between(n, arguments_ir(args, n).2),
    decreases args,
{
    if args.len() == 0 {
        assert(temps_between(n, n) =~= Seq::<Seq<char>>::empty());
    } else {
        let (vals, is, n1) = arguments_ir(args.drop_last(), n);
        let (v, i2, n2) = expression_ir(args.last(), n1);
        lemma_arguments_destinations(args.drop_last(), n);
        lemma_expression_destinations(args.last(), n1);
        lemma_destinations_concat(is, i2);
        lemma_temps_between_concat(n, n1, n2);
    }
}

/// A statement's lowering writes exactly the temporaries from the
/// counter before to the counter after, in order.
pub proof fn lemma_statement_destinations(st: StatementView, n: nat)
    ensures
        n <= statement_ir(st, n).1,
        destinations(statement_ir(st, n).0) == temps_between(n, statement_ir(st, n).1),
{
    match st {
        StatementView::VariableDeclaration(v) => match v.value {
            Some(e) => {
                let (val, is, n1) = expression_ir(e, n);
                lemma_expression_destinations(e, n);
                let last = IRInstructionView::Store { variable: v.name, src: val };
                lemma_destinations_concat(is, seq![last]);
                lemma_destinations_single(last);
                assert(destinations(is) + destinations(seq![last]) =~= destinations(is));
            },
            None => {
                assert(temps_between(n, n) =~= Seq::<Seq<char>>::empty());
            },
        },
        StatementView::Return(r) => match r.value {
            Some(e) => {
                let (val, is, n1) = expression_ir(e, n);
                lemma_expression_destinations(e, n);
                let last = IRInstructionView::Return(val);
                lemma_destinations_concat(is, seq![last]);
                lemma_destinations_single(last);
                assert(destinations(is) + destinations(seq![last]) =~= destinations(is));
            },
            None => {
                assert(temps_between(n, n) =~= Seq::<Seq<char>>::empty());
            },
        },
        StatementView::Expression(e) => {
            lemma_expression_destinations(e, n);
        },
    }
}

/// A body's lowering writes exactly the temporaries from the counter
/// before to the counter after, in order.
pub proof fn lemma_statements_destinations(body: Seq<StatementView>, n: nat)
    ensures
        n <= statements_ir(body, n).1,
        destinations(statements_ir(body, n).0) == temps_between(n, statements_ir(body, n).1),
    decreases body.len(),
{
    if body.len() == 0 {
        assert(temps_between(n, n) =~= Seq::<Seq<char>>::empty());
    } else {
        let (is, n1) = statements_ir(body.drop_last(), n);
        let (i2, n2) = statement_ir(body.last(), n1);
        lemma_statements_destinations(body.drop_last(), n);
        lemma_statement_destinations(body.last(), n1);
        lemma_destinations_concat(is, i2);
        lemma_temps_between_concat(n, n1, n2);
    }
}

/// Distinct numbers name distinct temporaries.
pub proof fn lemma_temp_name_injective(a: nat, b: nat)
    requires
        temp_name(a) == temp_name(b),
    ensures
        a == b,
{
    reveal_strlit("t");
    assert(temp_name(a).subrange(1, temp_name(a).len() as int) =~= decimal(a));
    assert(temp_name(b).subrange(1, temp_name(b).len() as int) =~= decimal(b));
    crate::text::lemma_decimal_injective(a, b);
}

/// The lowering of a function writes the temporaries `t0`, `t1`, ... in
/// this order, each of them once.
pub proof fn lemma_function_temps_fresh(f: FunctionView)
    ensures
        destinations(function_ir(f).instructions) == temps_between(0, function_temps(f)),
        writes_each_temp_once(function_ir(f)),
{
    lemma_statements_destinations(f.body, 0);
    let ds = destinations(function_ir(f).instructions);
    assert forall|i: int, j: int| 0 <= i < j < ds.len() implies ds[i] != ds[j] by {
        if ds[i] == ds[j] {
            lemma_temp_name_injective(i as nat, j as nat);
        }
    }
}

/// In every function of a lowered program, no temporary is written
/// twice.
pub proof fn lemma_program_temps_fresh(files: Seq<SourceFileView>)
    ensures
        forall|k: int| 0 <= k < program_ir(files).len() ==> writes_each_temp_once(#[trigger] program_ir(files)[k]),
    decreases files.len(),
{
    if files.len() > 0 {
        lemma_program_temps_fresh(files.drop_last());
        lemma_items_temps_fresh(files.last().items);
        let a = program_ir(files.drop_last());
        let b = items_ir(files.last().items);
        assert forall|k: int| 0 <= k < program_ir(files).len() implies writes_each_temp_once(#[trigger] program_ir(files)[k]) by {
            if k < a.len() {
                assert(program_ir(files)[k] == a[k]);
            } else {
                assert(program_ir(files)[k] == b[k - a.len()]);
            }
        }
    }
}

/// In every function lowered from the items, no temporary is written
/// twice.
proof fn lemma_items_temps_fresh(items: Seq<FileItemView>)
    ensures
        forall|k: int| 0 <= k < items_ir(items).len() ==> writes_each_temp_once(#[trigger] items_ir(items)[k]),
    decreases items.len(),
{
    if items.len() > 0 {
        lemma_items_temps_fresh(items.drop_last());
        let a = items_ir(items.drop_last());
        match items.last() {
            FileItemView::Function(f) => {
                lemma_function_temps_fresh(f);
                assert forall|k: int| 0 <= k < items_ir(items).len() implies writes_each_temp_once(#[trigger] items_ir(items)[k]) by {
                    if k < a.len() {
                        assert(items_ir(items)[k] == a[k]);
                    }
                }
            },
            FileItemView::Variable(_) => {},
        }
    }
}

// ---------------------------------------------------------------------------
// Every temporary is written before it is read.
/// The instruction reads temporary `t` as one of its operands.
pub open spec fn reads_temp(i: IRInstructionView, t: Seq<char>) -> bool {
    let v = IRValueView::Temp(t);
    match i {
        IRInstructionView::Load { .. } => false,
        IRInstructionView::Store { src, .. } => src == v,
        IRInstructionView::Add { left, right, .. } => left == v || right == v,
        IRInstructionView::Sub { left, right, .. } => left == v || right == v,
        IRInstructionView::Mul { left, right, .. } => left == v || right == v,
        IRInstructionView::Div { left, right, .. } => left == v || right == v,
        IRInstructionView::Call { arguments, .. } => arguments.contains(v),
        IRInstructionView::Return(r) => r == v,
    }
}

/// Every temporary that some instruction reads is written by an instruction
/// before it.
pub open spec fn reads_after_writes(is: Seq<IRInstructionView>) -> bool {
    forall|k: int, t: Seq<char>|
        0 <= k < is.len() && #[trigger] reads_temp(is[k], t) ==> exists|j: int|
            0 <= j < k && #[trigger] destination(is[j]) == Some(t)
}

/// The operand is a literal, or a temporary numbered below `m`.
pub open spec fn operand_below(v: IRValueView, m: nat) -> bool {
    match v {
        IRValueView::Temp(t) => exists|j: nat| j < m && t == #[trigger] temp_name(j),
        _ => true,
    }
}

/// Every operand of the instruction is a literal or a temporary numbered
/// below `m`.
pub open spec fn reads_below(i: IRInstructionView, m: nat) -> bool {
    match i {
        IRInstructionView::Load { .. } => true,
        IRInstructionView::Store { src, .. } => operand_below(src, m),
        IRInstructionView::Add { left, right, .. } => operand_below(left, m) && operand_below(right, m),
        IRInstructionView::Sub { left, right, .. } => operand_below(left, m) && operand_below(right, m),
        IRInstructionView::Mul { left, right, .. } => operand_below(left, m) && operand_below(right, m),
        IRInstructionView::Div { left, right, .. } => operand_below(left, m) && operand_below(right, m),
        IRInstructionView::Call { arguments, .. } => forall|k: int|
            0 <= k < arguments.len() ==> operand_below(#[trigger] arguments[k], m),
        IRInstructionView::Return(r) => operand_below(r, m),
    }
}

/// Instructions lowered with the counter starting at `n`: each reads only
/// temporaries numbered below `n` plus the number of temporaries written
/// before it.
pub open spec fn reads_in_order(is: Seq<IRInstructionView>, n: nat) -> bool {
    forall|k: int|
        0 <= k < is.len() ==> reads_below(#[trigger] is[k], n + destinations(is.subrange(0, k)).len())
}

/// A bound on operands can be raised.
proof fn lemma_operand_below_mono(v: IRValueView, m: nat, m2: nat)
    requires
        operand_below(v, m),
        m <= m2,
    ensures
        operand_below(v, m2),
{
    if let IRValueView::Temp(t) = v {
        let j = choose|j: nat| j < m && t == #[trigger] temp_name(j);
        assert(j < m2 && t == temp_name(j));
    }
}

/// A bound on an instruction's operands can be raised.
proof fn lemma_reads_below_mono(i: IRInstructionView, m: nat, m2: nat)
    requires
        reads_below(i, m),
        m <= m2,
    ensures
        reads_below(i, m2),
{
    match i {
        IRInstructionView::Load { .. } => {},
        IRInstructionView::Store { src, .. } => lemma_operand_below_mono(src, m, m2),
        IRInstructionView::Add { left, right, .. } => {
            lemma_operand_below_mono(left, m, m2);
            lemma_operand_below_mono(right, m, m2);
        },
        IRInstructionView::Sub { left, right, .. } => {
            lemma_operand_below_mono(left, m, m2);
            lemma_operand_below_mono(right, m, m2);
        },
        IRInstructionView::Mul { left, right, .. } => {
            lemma_operand_below_mono(left, m, m2);
            lemma_operand_below_mono(right, m, m2);
        },
        IRInstructionView::Div { left, right, .. } => {
            lemma_operand_below_mono(left, m, m2);
            lemma_operand_below_mono(right, m, m2);
        },
        IRInstructionView::Call { arguments, .. } => {
            assert forall|k: int| 0 <= k < arguments.len() implies operand_below(#[trigger] arguments[k], m2) by {
                lemma_operand_below_mono(arguments[k], m, m2);
            }
        },
        IRInstructionView::Return(r) => lemma_operand_below_mono(r, m, m2),
    }
}

/// Two lists of instructions one after the other, the second lowered with
/// the counter where the first left it.
proof fn lemma_reads_in_order_concat(a: Seq<IRInstructionView>, b: Seq<IRInstructionView>, n: nat)
    requires
        reads_in_order(a, n),
        reads_in_order(b, n + destinations(a).len()),
    ensures
        reads_in_order(a + b, n),
{
    assert forall|k: int| 0 <= k < (a + b).len() implies reads_below(
        #[trigger] (a + b)[k],
        n + destinations((a + b).subrange(0, k)).len(),
    ) by {
        if k < a.len() {
            assert((a + b).subrange(0, k) =~= a.subrange(0, k));
            assert((a + b)[k] == a[k]);
        } else {
            let k2 = k - a.len();
            assert((a + b).subrange(0, k) =~= a + b.subrange(0, k2));
            assert((a + b)[k] == b[k2]);
            lemma_destinations_concat(a, b.subrange(0, k2));
            assert(reads_below(b[k2], n + destinations(a).len() + destinations(b.subrange(0, k2)).len()));
        }
    }
}

/// A single instruction whose operands are below the counter.
proof fn lemma_reads_in_order_single(i: IRInstructionView, n: nat)
    requires
        reads_below(i, n),
    ensures
        reads_in_order(seq![i], n),
{
    assert forall|k: int| 0 <= k < seq![i].len() implies reads_below(
        #[trigger] seq![i][k],
        n + destinations(seq![i].subrange(0, k)).len(),
    ) by {
        assert(seq![i].subrange(0, k) =~= Seq::<IRInstructionView>::empty());
        assert(destinations(Seq::<IRInstructionView>::empty()) == Seq::<Seq<char>>::empty());
    }
}

/// No instruction reads in an empty list.
proof fn lemma_reads_in_order_empty(n: nat)
    ensures
        reads_in_order(Seq::<IRInstructionView>::empty(), n),
{
}

/// An expression's lowering reads only temporaries written before, and
/// leaves its value in a literal or a temporary below the counter after.
pub proof fn lemma_expression_reads(e: ExprView, n: nat)
    ensures
        reads_in_order(expression_ir(e, n).1, n),
        operand_below(expression_ir(e, n).0, expression_ir(e, n).2),
    decreases e,
{
    lemma_expression_destinations(e, n);
    match e.kind {
        ExprKindView::Value(_) => {
            assert(expression_ir(e, n).1 =~= Seq::<IRInstructionView>::empty());
        },
        ExprKindView::Variable(name) => {
            let i = IRInstructionView::Load { dst: temp_name(n), variable: name };
            lemma_reads_in_order_single(i, n);
            assert(n < n + 1 && temp_name(n) == temp_name(n));
        },
        ExprKindView::Operation(op) => {
            let (l, il, n1) = expression_ir(*op.left, n);
            let (r, ir, n2) = expression_ir(*op.right, n1);
            lemma_expression_reads(*op.left, n);
            lemma_expression_reads(*op.right, n1);
            lemma_expression_destinations(*op.left, n);
            lemma_expression_destinations(*op.right, n1);
            lemma_reads_in_order_concat(il, ir, n);
            lemma_destinations_concat(il, ir);
            lemma_operand_below_mono(l, n1, n2);
            let last = operation_instruction(op.operator, temp_name(n2), l, r);
            lemma_reads_in_order_single(last, n2);
            lemma_reads_in_order_concat(il + ir, seq![last], n);
            assert(temp_name(n2) == temp_name(n2) && n2 < n2 + 1);
        },
        ExprKindView::FunctionCall(call) => {
            let (vals, is, n1) = arguments_ir(call.arguments, n);
            lemma_arguments_reads(call.arguments, n);
            lemma_arguments_destinations(call.arguments, n);
            let last = IRInstructionView::Call { dst: temp_name(n1), function: call.name, arguments: vals };
            lemma_reads_in_order_single(last, n1);
            lemma_reads_in_order_concat(is, seq![last], n);
            assert(temp_name(n1) == temp_name(n1) && n1 < n1 + 1);
        },
    }
}

/// The arguments' lowering reads only temporaries written before, and each
/// argument's value is a literal or a temporary below the counter after.
pub proof fn lemma_arguments_reads(args: Seq<ExprView>, n: nat)
    ensures
        reads_in_order(arguments_ir(args, n).1, n),
        arguments_ir(args, n).0.len() == args.len(),
        forall|k: int| 0 <= k < args.len() ==> operand_below(#[trigger] arguments_ir(args, n).0[k], arguments_ir(args, n).2),
    decreases args,
{
    lemma_arguments_destinations(args, n);
    if args.len() == 0 {
        assert(arguments_ir(args, n).1 =~= Seq::<IRInstructionView>::empty());
    } else {
        let (vals, is, n1) = arguments_ir(args.drop_last(), n);
        let (v, i2, n2) = expression_ir(args.last(), n1);
        lemma_arguments_reads(args.drop_last(), n);
        lemma_arguments_destinations(args.drop_last(), n);
        lemma_expression_reads(args.last(), n1);
        lemma_expression_destinations(args.last(), n1);
        lemma_reads_in_order_concat(is, i2, n);
        assert forall|k: int| 0 <= k < args.len() implies operand_below(#[trigger] arguments_ir(args, n).0[k], n2) by {
            if k < args.len() - 1 {
                assert(arguments_ir(args, n).0[k] == vals[k]);
                lemma_operand_below_mono(vals[k], n1, n2);
            }
        }
    }
}

/// A statement's lowering reads only temporaries written before.
pub proof fn lemma_statement_reads(st: StatementView, n: nat)
    ensures
        reads_in_order(statement_ir(st, n).0, n),
{
    match st {
        StatementView::VariableDeclaration(v) => match v.value {
            Some(e) => {
                let (val, is, n1) = expression_ir(e, n);
                lemma_expression_reads(e, n);
                lemma_expression_destinations(e, n);
                let last = IRInstructionView::Store { variable: v.name, src: val };
                lemma_reads_in_order_single(last, n1);
                lemma_reads_in_order_concat(is, seq![last], n);
            },
            None => {
                assert(statement_ir(st, n).0 =~= Seq::<IRInstructionView>::empty());
            },
        },
        StatementView::Return(r) => match r.value {
            Some(e) => {
                let (val, is, n1) = expression_ir(e, n);
                lemma_expression_reads(e, n);
                lemma_expression_destinations(e, n);
                let last = IRInstructionView::Return(val);
                lemma_reads_in_order_single(last, n1);
                lemma_reads_in_order_concat(is, seq![last], n);
            },
            None => {
                assert(statement_ir(st, n).0 =~= Seq::<IRInstructionView>::empty());
            },
        },
        StatementView::Expression(e) => {
            lemma_expression_reads(e, n);
        },
    }
}

/// A body's lowering reads only temporaries written before.
pub proof fn lemma_statements_reads(body: Seq<StatementView>, n: nat)
    ensures
        reads_in_order(statements_ir(body, n).0, n),
    decreases body.len(),
{
    if body.len() == 0 {
        assert(statements_ir(body, n).0 =~= Seq::<IRInstructionView>::empty());
    } else {
        let (is, n1) = statements_ir(body.drop_last(), n);
        lemma_statements_reads(body.drop_last(), n);
        lemma_statements_destinations(body.drop_last(), n);
        lemma_statement_reads(body.last(), n1);
        lemma_reads_in_order_concat(is, statement_ir(body.last(), n1).0, n);
    }
}

/// Each temporary written in a list comes from one of its instructions.
proof fn lemma_destination_source(s: Seq<IRInstructionView>, j: int)
    requires
        0 <= j < destinations(s).len(),
    ensures
        exists|i: int| 0 <= i < s.len() && #[trigger] destination(s[i]) == Some(destinations(s)[j]),
    decreases s.len(),
{
    let init = s.drop_last();
    match destination(s.last()) {
        Some(d) => {
            if j < destinations(init).len() {
                lemma_destination_source(init, j);
                let i = choose|i: int| 0 <= i < init.len() && #[trigger] destination(init[i]) == Some(destinations(init)[j]);
                assert(s[i] == init[i]);
            } else {
                assert(destination(s[s.len() - 1]) == Some(destinations(s)[j]));
            }
        },
        None => {
            lemma_destination_source(init, j);
            let i = choose|i: int| 0 <= i < init.len() && #[trigger] destination(init[i]) == Some(destinations(init)[j]);
            assert(s[i] == init[i]);
        },
    }
}

/// The lowering of a function reads every temporary only after an earlier
/// instruction wrote it.
pub proof fn lemma_function_reads_after_writes(f: FunctionView)
    ensures
        reads_after_writes(function_ir(f).instructions),
{
    let is = function_ir(f).instructions;
    let total = function_temps(f);
    lemma_statements_reads(f.body, 0);
    lemma_statements_destinations(f.body, 0);
    assert forall|k: int, t: Seq<char>|
        0 <= k < is.len() && #[trigger] reads_temp(is[k], t) implies exists|j: int|
            0 <= j < k && #[trigger] destination(is[j]) == Some(t) by {
        let c = destinations(is.subrange(0, k)).len();
        lemma_read_temp_below(is[k], t, c);
        let m = choose|m: nat| m < c && t == #[trigger] temp_name(m);
        lemma_written_before(is, total, k, m);
    }
}

/// A temporary read by an instruction whose operands are below `c` is
/// numbered below `c`.
proof fn lemma_read_temp_below(i: IRInstructionView, t: Seq<char>, c: nat)
    requires
        reads_temp(i, t),
        reads_below(i, c),
    ensures
        exists|m: nat| m < c && t == #[trigger] temp_name(m),
{
    assert(operand_below(IRValueView::Temp(t), c)) by {
        match i {
            IRInstructionView::Call { arguments, .. } => {
                let a = choose|a: int| 0 <= a < arguments.len() && arguments[a] == IRValueView::Temp(t);
                assert(operand_below(arguments[a], c));
            },
            _ => {},
        }
    }
}

/// Where a list writes the temporaries `t0`, `t1`, ... in order, temporary
/// number `m` below the count written before position `k` is written by an
/// instruction before `k`.
proof fn lemma_written_before(is: Seq<IRInstructionView>, total: nat, k: int, m: nat)
    requires
        destinations(is) == temps_between(0, total),
        0 <= k <= is.len(),
        m < destinations(is.subrange(0, k)).len(),
    ensures
        exists|j: int| 0 <= j < k && #[trigger] destination(is[j]) == Some(temp_name(m)),
{
    let pre = is.subrange(0, k);
    let post = is.subrange(k, is.len() as int);
    assert(is =~= pre + post);
    lemma_destinations_concat(pre, post);
    assert(destinations(pre)[m as int] == destinations(is)[m as int]);
    assert(destinations(is).len() == destinations(pre).len() + destinations(post).len());
    assert(temps_between(0, total).len() == total);
    assert(m < total);
    assert(temps_between(0, total)[m as int] == temp_name(m));
    lemma_destination_source(pre, m as int);
    let i = choose|i: int| 0 <= i < pre.len() && #[trigger] destination(pre[i]) == Some(destinations(pre)[m as int]);
    assert(is[i] == pre[i]);
}

/// In every function of a lowered program, every temporary is written
/// before it is read.
pub proof fn lemma_program_reads_after_writes(files: Seq<SourceFileView>)
    ensures
        forall|k: int| 0 <= k < program_ir(files).len() ==> reads_after_writes(#[trigger] program_ir(files)[k].instructions),
    decreases files.len(),
{
    if files.len() > 0 {
        lemma_program_reads_after_writes(files.drop_last());
        lemma_items_reads_after_writes(files.last().items);
        let a = program_ir(files.drop_last());
        let b = items_ir(files.last().items);
        assert forall|k: int| 0 <= k < program_ir(files).len() implies reads_after_writes(#[trigger] program_ir(files)[k].instructions) by {
            if k < a.len() {
                assert(program_ir(files)[k] == a[k]);
            } else {
                assert(program_ir(files)[k] == b[k - a.len()]);
            }
        }
    }
}

/// In every function lowered from the items, every temporary is written
/// before it is read.
proof fn lemma_items_reads_after_writes(items: Seq<FileItemView>)
    ensures
        forall|k: int| 0 <= k < items_ir(items).len() ==> reads_after_writes(#[trigger] items_ir(items)[k].instructions),
    decreases items.len(),
{
    if items.len() > 0 {
        lemma_items_reads_after_writes(items.drop_last());
        let a = items_ir(items.drop_last());
        match items.last() {
            FileItemView::Function(f) => {
                lemma_function_reads_after_writes(f);
                assert forall|k: int| 0 <= k < items_ir(items).len() implies reads_after_writes(#[trigger] items_ir(items)[k].instructions) by {
                    if k < a.len() {
                        assert(items_ir(items)[k] == a[k]);
                    }
                }
            },
            FileItemView::Variable(_) => {},
        }
    }
}

// ---------------------------------------------------------------------------
// Operations keep their operands in place.
/// The destination and the two operands of an arithmetic instruction.
pub open spec fn arithmetic_parts(i: IRInstructionView) -> Option<(Seq<char>, IRValueView, IRValueView)> {
    match i {
        IRInstructionView::Add { dst, left, right } => Some((dst, left, right)),
        IRInstructionView::Sub { dst, left, right } => Some((dst, left, right)),
        IRInstructionView::Mul { dst, left, right } => Some((dst, left, right)),
        IRInstructionView::Div { dst, left, right } => Some((dst, left, right)),
        _ => None,
    }
}

/// The operator an arithmetic instruction carries out.
pub open spec fn arithmetic_operator(i: IRInstructionView) -> Option<TokenOperation> {
    match i {
        IRInstructionView::Add { .. } => Some(TokenOperation::Add),
        IRInstructionView::Sub { .. } => Some(TokenOperation::Subtract),
        IRInstructionView::Mul { .. } => Some(TokenOperation::Multiply),
        IRInstructionView::Div { .. } => Some(TokenOperation::Divide),
        _ => None,
    }
}

/// An operation `left op right` is lowered to the instructions of its left
/// operand, then those of its right operand, then one instruction of the
/// same operator whose left operand holds the left value and whose right
/// operand holds the right value, whatever they are, written to a new
/// temporary that holds the operation's value.
pub proof fn lemma_operation_operands_in_place(e: ExprView, n: nat)
    requires
        e.kind is Operation,
    ensures
        ({
            let op = e.kind->Operation_0;
            let (l, il, n1) = expression_ir(*op.left, n);
            let (r, ir, n2) = expression_ir(*op.right, n1);
            let (v, is, n3) = expression_ir(e, n);
            &&& is.len() == il.len() + ir.len() + 1
            &&& is.subrange(0, il.len() as int) == il
            &&& is.subrange(il.len() as int, (il.len() + ir.len()) as int) == ir
            &&& arithmetic_operator(is.last()) == Some(op.operator)
            &&& arithmetic_parts(is.last()) == Some((temp_name(n2), l, r))
            &&& v == IRValueView::Temp(temp_name(n2))
            &&& n3 == n2 + 1
        }),
{
    let op = e.kind->Operation_0;
    let (l, il, n1) = expression_ir(*op.left, n);
    let (r, ir, n2) = expression_ir(*op.right, n1);
    let is = expression_ir(e, n).1;
    let last = operation_instruction(op.operator, temp_name(n2), l, r);
    assert(is == il + ir + seq![last]);
    assert(is.subrange(0, il.len() as int) =~= il);
    assert(is.subrange(il.len() as int, (il.len() + ir.len()) as int) =~= ir);
}

} // verus!
