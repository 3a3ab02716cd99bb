use lib::ast::parse_all_tokens;
use lib::ir::{IRGenerator, IRInstruction, IRProgram, IRValue};
use lib::lexer::tokenize_lines;
use lib::semantic::SemanticAnalyzer;

// A sample program in the language, standing in for `tests/TestFile1.fst`,
// whose text is not at hand.
const TEST_FILE_1: &[&str] = &[
    "fonction add(entier a, entier b) entier {",
    "    retourner a + b;",
    "}",
    "",
    "fonction general() entier {",
    "    entier x = add(1, 2);",
    "    retourner x;",
    "}",
];

// A source with a character that starts no token.
const INVALID_FILE: &[&str] = &["fonction f() entier {", "    retourner 1 $ 2;", "}"];

fn compile_source(path: &str, lines: &[&str]) -> Option<IRProgram> {
    let lines: Vec<String> = lines.iter().map(|l| l.to_string()).collect();
    let tokens = match tokenize_lines(&lines, path) {
        Ok(t) => t,
        Err(e) => {
            println!("Lexer error: {:?}", e);
            return None;
        }
    };
    let content = lines.join("\n");
    let program = match parse_all_tokens(tokens, path.to_string(), content) {
        Ok(p) => p,
        Err(e) => {
            println!("Parser error: {:?}", e);
            return None;
        }
    };
    let mut analyzer = SemanticAnalyzer::new();
    if let Err(e) = analyzer.analyze(&program) {
        println!("Semantic error: {:?}", e);
        return None;
    }
    let mut ir_gen = IRGenerator::new();
    Some(ir_gen.generate(&program))
}

#[test]
fn compile() {
    let ir_program = match compile_source("tests/TestFile1.fst", TEST_FILE_1) {
        Some(p) => p,
        None => return,
    };
    println!("{:#?}", ir_program);
}

#[test]
fn test_simple_function() {
    let ir = compile_source("tests/TestFile1.fst", TEST_FILE_1);
    assert!(ir.is_some());
    let ir = ir.unwrap();
    assert!(!ir.functions.is_empty());
    println!("{:#?}", ir);
}

#[test]
fn test_general_function_exists() {
    let ir = compile_source("tests/TestFile1.fst", TEST_FILE_1).expect("Compilation failed");
    let func = ir.functions.iter().find(|f| f.name == "general");
    assert!(func.is_some());
}

#[test]
fn test_function_call() {
    let ir = compile_source("tests/TestFile1.fst", TEST_FILE_1).expect("Compilation failed");
    let has_call = ir
        .functions
        .iter()
        .any(|func| func.instructions.iter().any(|ins| matches!(ins, IRInstruction::Call { .. })));
    assert!(has_call);
}

#[test]
fn test_invalid_file_should_fail() {
    let result = compile_source("tests/invalid_file.fst", INVALID_FILE);
    assert!(result.is_none());
}

// ---------------------------------------------------------------------------

#[test]
fn ir_of_test_file_is_exact() {
    let ir = compile_source("f.fst", TEST_FILE_1).unwrap();
    assert_eq!(ir.functions.len(), 2);
    let add = &ir.functions[0];
    assert_eq!(add.name, "add");
    assert_eq!(add.instructions.len(), 4);
    match &add.instructions[0] {
        IRInstruction::Load { dst, variable } => {
            assert_eq!(dst, "t0");
            assert_eq!(variable, "a");
        }
        other => panic!("unexpected {:?}", other),
    }
    match &add.instructions[1] {
        IRInstruction::Load { dst, variable } => {
            assert_eq!(dst, "t1");
            assert_eq!(variable, "b");
        }
        other => panic!("unexpected {:?}", other),
    }
    match &add.instructions[2] {
        IRInstruction::Add { dst, left, right } => {
            assert_eq!(dst, "t2");
            assert!(matches!(left, IRValue::Temp(s) if s == "t0"));
            assert!(matches!(right, IRValue::Temp(s) if s == "t1"));
        }
        other => panic!("unexpected {:?}", other),
    }
    assert!(matches!(&add.instructions[3], IRInstruction::Return(IRValue::Temp(s)) if s == "t2"));

    let general = &ir.functions[1];
    assert_eq!(general.name, "general");
    assert_eq!(general.instructions.len(), 4);
    match &general.instructions[0] {
        IRInstruction::Call { dst, function, arguments } => {
            assert_eq!(dst, "t0");
            assert_eq!(function, "add");
            assert_eq!(arguments.len(), 2);
            assert!(matches!(arguments[0], IRValue::Int(1)));
            assert!(matches!(arguments[1], IRValue::Int(2)));
        }
        other => panic!("unexpected {:?}", other),
    }
    match &general.instructions[1] {
        IRInstruction::Store { variable, src } => {
            assert_eq!(variable, "x");
            assert!(matches!(src, IRValue::Temp(s) if s == "t0"));
        }
        other => panic!("unexpected {:?}", other),
    }
    match &general.instructions[2] {
        IRInstruction::Load { dst, variable } => {
            assert_eq!(dst, "t1");
            assert_eq!(variable, "x");
        }
        other => panic!("unexpected {:?}", other),
    }
    assert!(matches!(&general.instructions[3], IRInstruction::Return(IRValue::Temp(s)) if s == "t1"));
}

#[test]
fn temporaries_count_past_ten() {
    let lines = [
        "fonction f(entier a) entier {",
        "    retourner a + a + a + a + a + a + a + a + a + a + a;",
        "}",
    ];
    let ir = compile_source("f.fst", &lines).unwrap();
    let f = &ir.functions[0];
    // eleven loads and ten additions
    assert_eq!(f.instructions.len(), 22);
    match &f.instructions[20] {
        IRInstruction::Add { dst, .. } => assert_eq!(dst, "t20"),
        other => panic!("unexpected {:?}", other),
    }
}

#[test]
fn text_literal_and_subtraction() {
    let lines = [
        "fonction f() Texte {",
        "    Texte s = \"abc\";",
        "    entier n = 5 - 3;",
        "    retourner s;",
        "}",
    ];
    let ir = compile_source("f.fst", &lines).unwrap();
    let f = &ir.functions[0];
    assert!(matches!(&f.instructions[0], IRInstruction::Store { variable, src: IRValue::String(s) } if variable == "s" && s == "abc"));
    match &f.instructions[1] {
        IRInstruction::Sub { dst, left, right } => {
            assert_eq!(dst, "t0");
            assert!(matches!(left, IRValue::Int(5)));
            assert!(matches!(right, IRValue::Int(3)));
        }
        other => panic!("unexpected {:?}", other),
    }
}

#[test]
fn generator_counter_restarts_per_function() {
    let ir = compile_source("f.fst", TEST_FILE_1).unwrap();
    for f in &ir.functions {
        match &f.instructions[0] {
            IRInstruction::Load { dst, .. } | IRInstruction::Call { dst, .. } => assert_eq!(dst, "t0"),
            other => panic!("unexpected {:?}", other),
        }
    }
}

#[test]
fn each_temporary_written_once_in_order() {
    let lines = [
        "fonction g(entier a, entier b) entier {",
        "    retourner a - b;",
        "}",
        "fonction f(entier a) entier {",
        "    entier x = g(a + 1, a) - a;",
        "    retourner g(x, x - 2);",
        "}",
    ];
    let ir = compile_source("f.fst", &lines).unwrap();
    for f in &ir.functions {
        let mut written: Vec<String> = Vec::new();
        for ins in &f.instructions {
            match ins {
                IRInstruction::Load { dst, .. }
                | IRInstruction::Add { dst, .. }
                | IRInstruction::Sub { dst, .. }
                | IRInstruction::Mul { dst, .. }
                | IRInstruction::Div { dst, .. }
                | IRInstruction::Call { dst, .. } => written.push(dst.clone()),
                IRInstruction::Store { .. } | IRInstruction::Return(_) => {}
            }
        }
        let expected: Vec<String> = (0..written.len()).map(|i| format!("t{}", i)).collect();
        assert_eq!(written, expected);
    }
    assert_eq!(ir.functions[1].instructions.len(), 12);
}

#[test]
fn temporaries_read_after_written() {
    let lines = [
        "fonction g(entier a, entier b) entier {",
        "    retourner a - b;",
        "}",
        "fonction f(entier a) entier {",
        "    entier x = g(a + 1, a) - a;",
        "    g(x, 3);",
        "    retourner g(x, x - 2) + x;",
        "}",
    ];
    let ir = compile_source("f.fst", &lines).unwrap();
    for f in &ir.functions {
        let mut written: Vec<String> = Vec::new();
        let mut reads = 0;
        for ins in &f.instructions {
            let (operands, dst): (Vec<&IRValue>, Option<&String>) = match ins {
                IRInstruction::Load { dst, .. } => (vec![], Some(dst)),
                IRInstruction::Store { src, .. } => (vec![src], None),
                IRInstruction::Add { dst, left, right }
                | IRInstruction::Sub { dst, left, right }
                | IRInstruction::Mul { dst, left, right }
                | IRInstruction::Div { dst, left, right } => (vec![left, right], Some(dst)),
                IRInstruction::Call { dst, arguments, .. } => (arguments.iter().collect(), Some(dst)),
                IRInstruction::Return(v) => (vec![v], None),
            };
            for v in operands {
                if let IRValue::Temp(t) = v {
                    assert!(written.contains(t), "{} read before it is written", t);
                    reads += 1;
                }
            }
            if let Some(d) = dst {
                written.push(d.clone());
            }
        }
        assert!(reads > 0);
    }
}
