//! Compiler for a small schema definition language: lexer, recursive-descent
//! parser, name validation, type resolution, cycle detection, and the binary
//! wire-format encoder for values of the described types.
use vstd::prelude::*;

mod ast;
mod codegen;
mod compiler;
mod cycles;
mod encoding;
mod error;
mod ir;
mod lexer;
mod options;
mod parser;
mod resolver;
mod text;
mod token;

pub use ast::{ASTType, DefaultValue, Field, Literal, Program, Resource};
pub use codegen::{CodeGenerator, GeneratedCode};
pub use compiler::{CompiledOutput, Compiler};
pub use cycles::CycleDetector;
pub use encoding::{BinaryEncoder, FieldValue, Value};
pub use error::CompileError;
pub use ir::{IRField, IRProgram, IRResource, IRType};
pub use lexer::Lexer;
pub use options::CliOptions;
pub use parser::Parser;
pub use resolver::TypeResolver;
pub use token::Token;

verus! {

/// The i-th field of an IR resource carries index i.
pub open spec fn spec_ir_fields_indexed(r: IRResource) -> bool {
    forall|i: int| 0 <= i < r.fields@.len() ==> (#[trigger] r.fields@[i]).index as int == i
}

/// Parse one schema text into a syntax tree.
///
/// On success the program is exactly what the text spells (`spec_parses_to`);
/// in particular every resource has its fields indexed 0, 1, 2, ... in
/// declaration order, a name starting with an uppercase letter, and only the
/// three known primitive type names in its field types. On failure no token
/// list of the text spells a program.
pub fn parse_schema(input: &str) -> (r: Result<Program, String>)
    ensures
        r is Ok ==> forall|i: int|
            0 <= i < r->Ok_0.resources@.len() ==> ast::spec_fields_indexed(
                #[trigger] r->Ok_0.resources@[i],
            ) && ast::spec_pascal_name(r->Ok_0.resources@[i].name@)
                && parser::spec_resource_prims_ok(r->Ok_0.resources@[i]),
        r is Ok ==> parser::spec_parses_to(input@, r->Ok_0),
        r is Err ==> exists|toks: Seq<Token>|
            #[trigger] parser::spec_lexes_to(input@, 0, toks) && !(exists|
                rs: Seq<Resource>,
                jj: int,
            |
                parser::spec_program_at(toks, 0, rs, jj)),
{
    let mut parser = Parser::new(input);
    let ghost toks = parser.spec_tokens();
    let r = parser.parse();
    proof {
        if r is Ok {
            assert(parser::spec_program_at(toks, 0, r->Ok_0.resources@, parser.spec_position()));
        }
    }
    r
}

/// Compile one schema text: parse, validate, resolve, reject cycles, and
/// render code. On success the output IR is the resolved form of the
/// program the input text spells, that program passes both uniqueness
/// gates, and the IR itself has unique uppercase names, fields indexed
/// 0, 1, 2, ..., only valid resource references, and an acyclic
/// resource-reference graph.
pub fn compile_schema(input: &str) -> (r: Result<CompiledOutput, String>)
    ensures
        r is Ok ==> ({
            let ir = r->Ok_0.ir;
            &&& forall|i: int, j: int|
                0 <= i < j < ir.resources@.len() ==> (#[trigger] ir.resources@[i]).name@ != (
                #[trigger] ir.resources@[j]).name@
            &&& forall|i: int|
                0 <= i < ir.resources@.len() ==> spec_ir_fields_indexed(
                    #[trigger] ir.resources@[i],
                ) && ast::spec_pascal_name(ir.resources@[i].name@)
            &&& cycles::spec_ir_refs_ok(ir)
            &&& !cycles::spec_has_cycle(compiler::spec_ir_graph(ir))
        }),
        r is Ok ==> exists|p: Program|
            #[trigger] parser::spec_parses_to(input@, p) && ast::spec_resource_names_unique(p)
                && ast::spec_all_field_names_unique(p) && ir::spec_resolved_program(
                p,
                r->Ok_0.ir,
                ast::spec_resource_names(p),
            ),
        r is Err ==> (exists|toks: Seq<Token>|
            #[trigger] parser::spec_lexes_to(input@, 0, toks) && !(exists|
                rs: Seq<Resource>,
                jj: int,
            |
                parser::spec_program_at(toks, 0, rs, jj))) || (exists|p: Program|
            #[trigger] parser::spec_parses_to(input@, p) && (!ast::spec_resource_names_unique(p)
                || !ast::spec_all_field_names_unique(p) || !ir::spec_program_resolvable(
                p,
                ast::spec_resource_names(p),
            ) || (exists|ir0: IRProgram|
                ir::spec_resolved_program(p, ir0, ast::spec_resource_names(p))
                    && cycles::spec_has_cycle(compiler::spec_ir_graph(ir0))))),
{
    let program = match parse_schema(input) {
        Ok(p) => p,
        Err(e) => {
            return Err(e);
        },
    };
    let ghost parsed = program;
    let compiler = match Compiler::new(program) {
        Ok(c) => c,
        Err(e) => {
            proof {
                assert(parser::spec_parses_to(input@, parsed));
            }
            return Err(e);
        },
    };
    let ghost p = compiler.spec_program();
    let result = compiler.compile();
    proof {
        if result is Ok {
            compiler::lemma_resolved_program_props(
                p,
                result->Ok_0.ir,
                ast::spec_resource_names(p),
            );
            assert(parser::spec_parses_to(input@, p));
            assert(ir::spec_resolved_program(p, result->Ok_0.ir, ast::spec_resource_names(p)));
        } else {
            assert(parser::spec_parses_to(input@, p));
        }
    }
    result
}

} // verus!
