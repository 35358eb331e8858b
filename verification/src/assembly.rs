//! Code generation and printing: a syntax tree to instructions, and
//! instructions to assembly text.

use crate::ast;
use crate::ast::{Expression, Identifier, Statement};
use crate::decimal::{integer_text, integer_to_text};
use vstd::prelude::*;
use vstd::string::StringExecFns;

verus! {

/// An operand of an instruction.
#[derive(Debug, Clone, Copy, PartialEq, Eq, Structural)]
pub enum Operand {
    /// An integer constant.
    Imm(i32),
    /// The register that holds a function's return value.
    Register,
}

/// A move of a value into a place.
#[derive(Debug, Clone, Copy, PartialEq, Eq, Structural)]
pub struct Move {
    pub src: Operand,
    pub dst: Operand,
}

/// An instruction of the target machine.
#[derive(Debug, Clone, Copy, PartialEq, Eq, Structural)]
pub enum Instruction {
    Ret,
    Mov(Move),
}

/// A function as a label and the instructions under it.
#[derive(Debug, PartialEq, Eq)]
pub struct Function {
    pub name: String,
    pub instructions: Vec<Instruction>,
}

/// A function with its name as a sequence of characters and its
/// instructions as a sequence.
pub struct FunctionView {
    pub name: Seq<char>,
    pub instructions: Seq<Instruction>,
}

impl View for Function {
    type V = FunctionView;

    open spec fn view(&self) -> FunctionView {
        FunctionView { name: self.name@, instructions: self.instructions@ }
    }
}

impl Clone for Function {
    fn clone(&self) -> (copy: Function)
        ensures
            copy@ == self@,
    {
        let mut instructions: Vec<Instruction> = Vec::new();
        let mut i: usize = 0;
        while i < self.instructions.len()
            invariant
                i <= self.instructions.len(),
                instructions@ == self.instructions@.take(i as int),
            decreases self.instructions.len() - i,
        {
            instructions.push(self.instructions[i]);
            assert(instructions@ =~= self.instructions@.take(i + 1));
            i += 1;
        }
        assert(instructions@ =~= self.instructions@);
        Function { name: self.name.clone(), instructions }
    }
}

/// A whole program in assembly: exactly one function.
#[derive(Debug, PartialEq, Eq)]
pub struct Programme {
    pub function_definition: Function,
}

/// A program over the view of its function.
pub struct ProgrammeView {
    pub function_definition: FunctionView,
}

impl View for Programme {
    type V = ProgrammeView;

    open spec fn view(&self) -> ProgrammeView {
        ProgrammeView { function_definition: self.function_definition@ }
    }
}

impl Clone for Programme {
    fn clone(&self) -> (copy: Programme)
        ensures
            copy@ == self@,
    {
        Programme { function_definition: self.function_definition.clone() }
    }
}

/// Whether an expression can be lowered: only a constant can, for no
/// instruction sequence has been chosen for the unary operators.
pub open spec fn lowerable_expression(expression: Expression) -> bool {
    expression is Constant
}

/// Whether a statement can be lowered.
pub open spec fn lowerable_statement(statement: Statement) -> bool {
    match statement {
        Statement::Return(expression) => lowerable_expression(expression),
    }
}

/// Whether a program can be lowered.
pub open spec fn lowerable(programme: ast::ProgrammeView) -> bool {
    lowerable_statement(programme.function.body)
}

/// The operand that stands for a constant expression.
pub open spec fn lowered_operand(expression: Expression) -> Operand
    recommends
        lowerable_expression(expression),
{
    Operand::Imm(expression->Constant_0)
}

/// The instructions of a statement: the returned value is moved into the
/// return register, then the function returns.
pub open spec fn lowered_instructions(statement: Statement) -> Seq<Instruction>
    recommends
        lowerable_statement(statement),
{
    match statement {
        Statement::Return(expression) => seq![
            Instruction::Mov(Move { src: lowered_operand(expression), dst: Operand::Register }),
            Instruction::Ret,
        ],
    }
}

/// The assembly function of a function definition: its name and the
/// instructions of its body.
pub open spec fn lowered_function(function: ast::FunctionView) -> FunctionView
    recommends
        lowerable_statement(function.body),
{
    FunctionView { name: function.name, instructions: lowered_instructions(function.body) }
}

/// The assembly program of a program.
pub open spec fn lowered_programme(programme: ast::ProgrammeView) -> ProgrammeView
    recommends
        lowerable(programme),
{
    ProgrammeView { function_definition: lowered_function(programme.function) }
}

/// Says whether a program can be lowered.
pub fn can_generate(programme: &ast::Programme) -> (possible: bool)
    ensures
        possible == lowerable(programme@),
{
    match &programme.function.body {
        Statement::Return(expression) => match expression {
            Expression::Constant(_) => true,
            Expression::Unary(_) => false,
        },
    }
}

/// Lowers a constant expression to an operand.
pub fn generate_operand(expression: Expression) -> (operand: Operand)
    requires
        lowerable_expression(expression),
    ensures
        operand == lowered_operand(expression),
{
    match expression {
        Expression::Constant(value) => Operand::Imm(value),
        Expression::Unary(_) => unreached(),
    }
}

/// Lowers a statement to its instructions.
pub fn generate_instructions(statement: Statement) -> (instructions: Vec<Instruction>)
    requires
        lowerable_statement(statement),
    ensures
        instructions@ == lowered_instructions(statement),
{
    match statement {
        Statement::Return(expression) => {
            let instructions = vec![
                Instruction::Mov(Move { src: generate_operand(expression), dst: Operand::Register }),
                Instruction::Ret,
            ];
            assert(instructions@ =~= lowered_instructions(statement));
            instructions
        },
    }
}

/// The label of a function: its name as it stands.
pub fn generate_function_name(identifier: Identifier) -> (name: String)
    ensures
        name@ == identifier@,
{
    match identifier {
        Identifier::Var(name) => name,
    }
}

/// Lowers a function definition.
pub fn generate_function(function: ast::Function) -> (lowered: Function)
    requires
        lowerable_statement(function.body),
    ensures
        lowered@ == lowered_function(function@),
{
    Function {
        name: generate_function_name(function.name),
        instructions: generate_instructions(function.body),
    }
}

/// Lowers a program.
pub fn generate_programme(programme: ast::Programme) -> (lowered: Programme)
    requires
        lowerable(programme@),
    ensures
        lowered@ == lowered_programme(programme@),
{
    Programme { function_definition: generate_function(programme.function) }
}

/// The text of an operand: `#` before a constant, and the name of the
/// return register.
pub open spec fn operand_text(operand: Operand) -> Seq<char> {
    match operand {
        Operand::Imm(value) => "#"@ + integer_text(value as int),
        Operand::Register => "w0"@,
    }
}

/// The text of an instruction; a move names its destination first.
pub open spec fn instruction_text(instruction: Instruction) -> Seq<char> {
    match instruction {
        Instruction::Ret => "ret"@,
        Instruction::Mov(mov) => "mov    "@ + operand_text(mov.dst) + ", "@ + operand_text(
            mov.src,
        ),
    }
}

/// The lines of a run of instructions: each indented, each ended by a
/// newline, in order.
pub open spec fn instruction_lines(instructions: Seq<Instruction>) -> Seq<char>
    decreases instructions.len(),
{
    if instructions.len() == 0 {
        Seq::empty()
    } else {
        instruction_lines(instructions.drop_last()) + "    "@ + instruction_text(
            instructions.last(),
        ) + "\n"@
    }
}

/// The text of a function: the declaration of its symbol as global, its
/// label, and its instructions. The symbol is the name after an underscore.
pub open spec fn function_text(function: FunctionView) -> Seq<char> {
    "    .globl _"@ + function.name + "\n_"@ + function.name + ":\n"@ + instruction_lines(
        function.instructions,
    )
}

/// The text of a program: that of its one function.
pub open spec fn programme_text(programme: ProgrammeView) -> Seq<char> {
    function_text(programme.function_definition)
}

/// Writes an operand.
pub fn print_operand(operand: Operand) -> (text: String)
    ensures
        text@ == operand_text(operand),
{
    match operand {
        Operand::Imm(value) => {
            let mut text = String::from_str("#");
            text.append(integer_to_text(value).as_str());
            text
        },
        Operand::Register => String::from_str("w0"),
    }
}

/// Writes an instruction.
pub fn print_instruction(instruction: Instruction) -> (text: String)
    ensures
        text@ == instruction_text(instruction),
{
    match instruction {
        Instruction::Ret => String::from_str("ret"),
        Instruction::Mov(mov) => {
            let mut text = String::from_str("mov    ");
            text.append(print_operand(mov.dst).as_str());
            text.append(", ");
            text.append(print_operand(mov.src).as_str());
            text
        },
    }
}

/// Writes a function.
pub fn print_function_definition(function: Function) -> (text: String)
    ensures
        text@ == function_text(function@),
{
    let name = function.name;
    let mut output = String::from_str("    .globl _");
    output.append(name.as_str());
    output.append("\n_");
    output.append(name.as_str());
    output.append(":\n");
    let ghost header = output@;
    assert(function.instructions@.take(0) =~= Seq::<Instruction>::empty());
    let mut i: usize = 0;
    while i < function.instructions.len()
        invariant
            i <= function.instructions.len(),
            output@ == header + instruction_lines(function.instructions@.take(i as int)),
        decreases function.instructions.len() - i,
    {
        let instruction_text = print_instruction(function.instructions[i]);
        proof {
            let longer = function.instructions@.take(i + 1);
            assert(longer.drop_last() =~= function.instructions@.take(i as int));
            assert(longer.last() == function.instructions@[i as int]);
        }
        output.append("    ");
        output.append(instruction_text.as_str());
        output.append("\n");
        i += 1;
    }
    assert(function.instructions@.take(i as int) =~= function.instructions@);
    output
}

/// Writes a program as assembly text.
pub fn print_programme(programme: Programme) -> (text: String)
    ensures
        text@ == programme_text(programme@),
{
    print_function_definition(programme.function_definition)
}

/// Printing is a function of what is printed: two programs with the same
/// view have the same text, character for character.
pub proof fn lemma_print_is_deterministic(first: Programme, second: Programme)
    requires
        first@ == second@,
    ensures
        programme_text(first@) == programme_text(second@),
{
}

} // verus!
