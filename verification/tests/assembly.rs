use mwpb_compiler::assembly::{
    can_generate, generate_function, generate_function_name, generate_instructions,
    generate_operand, generate_programme, print_function_definition, print_instruction,
    print_operand, print_programme, Function, Instruction, Move, Operand, Programme,
};
use mwpb_compiler::ast;
use mwpb_compiler::ast::{Expression, Identifier, Statement, Unary, UnaryOperator};

fn returning(name: &str, expression: Expression) -> ast::Programme {
    ast::Programme {
        function: ast::Function {
            name: Identifier::Var(name.to_string()),
            body: Statement::Return(expression),
        },
    }
}

fn move_into_register(value: i32) -> Instruction {
    Instruction::Mov(Move { src: Operand::Imm(value), dst: Operand::Register })
}

#[test]
fn generate_then_print_return_five() {
    let assembly = generate_programme(returning("main", Expression::Constant(5)));
    assert_eq!(
        print_programme(assembly),
        "    .globl _main\n_main:\n    mov    w0, #5\n    ret\n"
    );
}

#[test]
fn generate_programme_lowers_return() {
    let assembly = generate_programme(returning("main", Expression::Constant(5)));
    assert_eq!(
        assembly,
        Programme {
            function_definition: Function {
                name: "main".to_string(),
                instructions: vec![move_into_register(5), Instruction::Ret],
            },
        }
    );
}

#[test]
fn generate_parts() {
    assert_eq!(generate_operand(Expression::Constant(-3)), Operand::Imm(-3));
    assert_eq!(
        generate_instructions(Statement::Return(Expression::Constant(7))),
        vec![move_into_register(7), Instruction::Ret]
    );
    assert_eq!(generate_function_name(Identifier::Var("start".to_string())), "start");
    assert_eq!(
        generate_function(returning("f", Expression::Constant(1)).function),
        Function { name: "f".to_string(), instructions: vec![move_into_register(1), Instruction::Ret] }
    );
}

#[test]
fn can_generate_only_constants() {
    assert!(can_generate(&returning("main", Expression::Constant(5))));
    let negated = Expression::Unary(Box::new(Unary {
        operator: UnaryOperator::Negate,
        expression: Expression::Constant(5),
    }));
    assert!(!can_generate(&returning("main", negated)));
    let complemented = Expression::Unary(Box::new(Unary {
        operator: UnaryOperator::Complement,
        expression: Expression::Constant(5),
    }));
    assert!(!can_generate(&returning("main", complemented)));
}

#[test]
fn print_operands() {
    assert_eq!(print_operand(Operand::Imm(5)), "#5");
    assert_eq!(print_operand(Operand::Imm(0)), "#0");
    assert_eq!(print_operand(Operand::Imm(-12)), "#-12");
    assert_eq!(print_operand(Operand::Imm(i32::MIN)), "#-2147483648");
    assert_eq!(print_operand(Operand::Register), "w0");
}

#[test]
fn print_instructions() {
    assert_eq!(print_instruction(Instruction::Ret), "ret");
    assert_eq!(print_instruction(move_into_register(42)), "mov    w0, #42");
    assert_eq!(
        print_instruction(Instruction::Mov(Move { src: Operand::Register, dst: Operand::Register })),
        "mov    w0, w0"
    );
    assert_eq!(
        print_instruction(Instruction::Mov(Move { src: Operand::Register, dst: Operand::Imm(1) })),
        "mov    #1, w0"
    );
}

#[test]
fn print_function_without_instructions() {
    let function = Function { name: "empty".to_string(), instructions: vec![] };
    assert_eq!(print_function_definition(function), "    .globl _empty\n_empty:\n");
}

#[test]
fn print_function_keeps_instruction_order() {
    let function = Function {
        name: "f".to_string(),
        instructions: vec![Instruction::Ret, move_into_register(1), move_into_register(2)],
    };
    assert_eq!(
        print_function_definition(function),
        "    .globl _f\n_f:\n    ret\n    mov    w0, #1\n    mov    w0, #2\n"
    );
}

#[test]
fn print_has_four_lines() {
    let text = print_programme(generate_programme(returning("main", Expression::Constant(5))));
    let lines: Vec<&str> = text.lines().collect();
    assert_eq!(lines, vec!["    .globl _main", "_main:", "    mov    w0, #5", "    ret"]);
    assert!(text.ends_with('\n'));
}

#[test]
fn print_twice_gives_same_text() {
    let assembly = generate_programme(returning("main", Expression::Constant(123)));
    let copy = assembly.clone();
    assert_eq!(copy, assembly);
    let first = print_programme(assembly);
    let second = print_programme(copy.clone());
    let third = print_programme(copy);
    assert_eq!(first, second);
    assert_eq!(second, third);
    assert_eq!(first.as_bytes(), third.as_bytes());
}
