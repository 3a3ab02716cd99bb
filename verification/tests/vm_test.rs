use lib::bytecode::OpCode;
use lib::format::{BinaryProgram, Constant, FunctionInfo};
use lib::vm::{Fault, StepOutcome, VMValue, VM};

fn operand(v: i64) -> Vec<u8> {
    v.to_le_bytes().to_vec()
}

fn machine(code: Vec<u8>, constants: Vec<Constant>, functions: Vec<FunctionInfo>) -> VM {
    VM::new(BinaryProgram { constants, functions, code, entry_function: 0 })
}

fn run(vm: &mut VM) -> StepOutcome {
    loop {
        match vm.step() {
            StepOutcome::Continue => {}
            other => return other,
        }
    }
}

#[test]
fn opcode_bytes() {
    assert_eq!(OpCode::LoadConst.byte(), 1);
    assert_eq!(OpCode::Call.byte(), 10);
    assert_eq!(OpCode::Less.byte(), 17);
    assert_eq!(OpCode::Halt.byte(), 255);
}

#[test]
fn arithmetic_program() {
    let mut code = vec![1];
    code.extend(operand(0));
    code.push(1);
    code.extend(operand(1));
    code.push(8); // 6 * 7
    code.push(1);
    code.extend(operand(2));
    code.push(7); // 42 - 2
    code.push(1);
    code.extend(operand(3));
    code.push(9); // 40 / -3
    code.push(0xFF);
    let mut vm = machine(code, vec![Constant::Int(6), Constant::Int(7), Constant::Int(2), Constant::Int(-3)], vec![]);
    assert_eq!(run(&mut vm), StepOutcome::Halt);
    assert_eq!(vm.stack.len(), 1);
    assert!(matches!(vm.stack[0], VMValue::Int(-13)));
}

#[test]
fn call_and_return() {
    // main: push 5, call f, halt; f (at 20): load local 0, load local 0, add, return
    let mut code = vec![1];
    code.extend(operand(0));
    code.push(0x0A);
    code.extend(operand(0));
    code.push(0xFF);
    assert_eq!(code.len(), 19);
    code.push(0); // padding, never run
    code.push(2);
    code.extend(operand(0));
    code.push(2);
    code.extend(operand(0));
    code.push(6);
    code.push(0x0B);
    let f = FunctionInfo { parameter_count: 1, local_count: 1, stack_size: 2, code_offset: 20, code_size: 20 };
    let mut vm = machine(code, vec![Constant::Int(5)], vec![f]);
    assert_eq!(vm.step(), StepOutcome::Continue);
    assert_eq!(vm.step(), StepOutcome::Continue);
    assert_eq!(vm.frames.len(), 1);
    assert_eq!(vm.ip, 20);
    assert_eq!(vm.frames[0].return_ip, 18);
    assert!(vm.stack.is_empty());
    assert_eq!(run(&mut vm), StepOutcome::Halt);
    assert!(vm.frames.is_empty());
    assert!(matches!(vm.stack[0], VMValue::Int(10)));
}

#[test]
fn store_then_load_local() {
    // a frame is needed: call a function of no parameter at 10
    let mut code = vec![0x0A];
    code.extend(operand(0));
    code.push(0xFF);
    code.push(1);
    code.extend(operand(0));
    code.push(3);
    code.extend(operand(4));
    code.push(2);
    code.extend(operand(4));
    code.push(0x0B);
    let f = FunctionInfo { parameter_count: 0, local_count: 1, stack_size: 1, code_offset: 10, code_size: 28 };
    let mut vm = machine(code, vec![Constant::String("s".to_string())], vec![f]);
    assert_eq!(run(&mut vm), StepOutcome::Halt);
    assert!(matches!(&vm.stack[0], VMValue::String(s) if s == "s"));
}

#[test]
fn float_addition_is_handed_out() {
    let mut code = vec![1];
    code.extend(operand(0));
    code.push(1);
    code.extend(operand(0));
    code.push(6);
    let mut vm = machine(code, vec![Constant::Float(1.5f64.to_bits())], vec![]);
    assert_eq!(run(&mut vm), StepOutcome::FloatAdd(1.5f64.to_bits(), 1.5f64.to_bits()));
    assert!(vm.stack.is_empty());
}

#[test]
fn faults() {
    let mut vm = machine(vec![6], vec![], vec![]);
    assert_eq!(vm.step(), StepOutcome::Fault(Fault::StackUnderflow));
    let mut vm = machine(vec![0x42], vec![], vec![]);
    assert_eq!(vm.step(), StepOutcome::Fault(Fault::UnknownOpcode(0x42)));
    let mut vm = machine(vec![], vec![], vec![]);
    assert_eq!(vm.step(), StepOutcome::Fault(Fault::CodeOutOfRange));
    let mut vm = machine(vec![1, 0, 0], vec![], vec![]);
    assert_eq!(vm.step(), StepOutcome::Fault(Fault::CodeOutOfRange));
    let mut code = vec![1];
    code.extend(operand(1));
    let mut vm = machine(code, vec![Constant::Int(1)], vec![]);
    assert_eq!(vm.step(), StepOutcome::Fault(Fault::ConstantOutOfRange));
    let mut code = vec![2];
    code.extend(operand(0));
    let mut vm = machine(code, vec![], vec![]);
    assert_eq!(vm.step(), StepOutcome::Fault(Fault::NoFrame));
    let mut code = vec![0x0A];
    code.extend(operand(3));
    let mut vm = machine(code, vec![], vec![]);
    assert_eq!(vm.step(), StepOutcome::Fault(Fault::FunctionOutOfRange));
    let mut code = vec![1];
    code.extend(operand(0));
    code.push(1);
    code.extend(operand(1));
    code.push(6);
    let mut vm = machine(code, vec![Constant::Int(1), Constant::String("x".to_string())], vec![]);
    assert_eq!(run(&mut vm), StepOutcome::Fault(Fault::InvalidAddTypes));
    let mut code = vec![1];
    code.extend(operand(0));
    code.push(1);
    code.extend(operand(1));
    code.push(9);
    let mut vm = machine(code.clone(), vec![Constant::Int(1), Constant::Int(0)], vec![]);
    assert_eq!(run(&mut vm), StepOutcome::Fault(Fault::DivisionByZero));
    code[18] = 6;
    let mut vm = machine(code, vec![Constant::Int(i64::MAX), Constant::Int(1)], vec![]);
    assert_eq!(run(&mut vm), StepOutcome::Fault(Fault::ArithmeticOverflow));
}

#[test]
fn non_integer_subtraction_drops_operands() {
    let mut code = vec![1];
    code.extend(operand(0));
    code.push(1);
    code.extend(operand(1));
    code.push(7);
    code.push(0xFF);
    let mut vm = machine(code, vec![Constant::Int(1), Constant::String("x".to_string())], vec![]);
    assert_eq!(run(&mut vm), StepOutcome::Halt);
    assert!(vm.stack.is_empty());
}
