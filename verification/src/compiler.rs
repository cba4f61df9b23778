//! The validator and the compilation pipeline: uniqueness checks at
//! construction, then resolution, cycle detection and code generation.
use vstd::prelude::*;
use vstd::string::StringExecFns;

use crate::ast::{
    spec_all_field_names_unique, spec_resource_names, spec_resource_names_unique, ASTType, Program,
};
use crate::codegen::{CodeGenerator, GeneratedCode};
use crate::cycles::{
    spec_has_cycle, spec_ir_refs_ok, spec_resource_refs, spec_type_refs_ok, CycleDetector,
};
use crate::ir::{spec_program_resolvable, spec_resolved_program, spec_resolves_to, IRProgram,
    IRResource, IRType};
use crate::resolver::TypeResolver;
use crate::text::str_eq;

verus! {

/// The dependency graph of an IR program: one node per resource, edges in
/// field-declaration order.
pub open spec fn spec_ir_graph(ir: IRProgram) -> Seq<Seq<int>> {
    ir.resources@.map(|i: int, r: IRResource| spec_resource_refs(r))
}

/// Compiled output: the IR together with the rendered artifacts.
#[derive(Debug)]
pub struct CompiledOutput {
    pub ir: IRProgram,
    pub generated_code: GeneratedCode,
}

impl CompiledOutput {
    pub fn new() -> (r: Self)
        ensures
            r.ir.resources@.len() == 0,
            r.generated_code.typescript_client@.len() == 0,
            r.generated_code.rust_server@.len() == 0,
    {
        CompiledOutput {
            ir: IRProgram { resources: Vec::new() },
            generated_code: GeneratedCode {
                typescript_client: String::new(),
                rust_server: String::new(),
            },
        }
    }
}

/// The duplicate-resource error names the repeated name.
pub open spec fn spec_dup_resource_message(name: Seq<char>) -> Seq<char> {
    "Duplicate resource name: "@ + name
}

/// The duplicate-field error names the resource and the repeated field.
pub open spec fn spec_dup_field_message(resource: Seq<char>, field: Seq<char>) -> Seq<char> {
    "Duplicate field name in "@ + resource + ": "@ + field
}

/// What the validator's error says: the message names the first duplicate
/// found — the first resource whose name repeats an earlier one, or, when
/// all resource names are unique, the first repeated field name of the
/// first resource that has one. The resource-name check reports before the
/// field-name check.
#[verifier::opaque]
pub open spec fn spec_validation_error(program: Program, msg: Seq<char>) -> bool {
    ||| exists|i: int, k: int|
        0 <= k < i < program.resources@.len() && (#[trigger] program.resources@[i]).name@ == (
        #[trigger] program.resources@[k]).name@ && (forall|a: int, b: int|
            0 <= a < b < i ==> program.resources@[a].name@ != program.resources@[b].name@) && msg
            == spec_dup_resource_message(program.resources@[i].name@)
    ||| (spec_resource_names_unique(program) && exists|i: int, j: int, k: int|
        0 <= i < program.resources@.len() && 0 <= k < j < program.resources@[i].fields@.len() && (
        #[trigger] program.resources@[i].fields@[j]).name@ == (
        #[trigger] program.resources@[i].fields@[k]).name@ && (forall|a: int|
            0 <= a < i ==> crate::ast::spec_field_names_unique(#[trigger] program.resources@[a]))
            && (forall|a: int, b: int|
            0 <= a < b < j ==> program.resources@[i].fields@[a].name@
                != program.resources@[i].fields@[b].name@) && msg == spec_dup_field_message(
            program.resources@[i].name@,
            program.resources@[i].fields@[j].name@,
        ))
}

/// Introduction of `spec_validation_error` for a repeated resource name.
proof fn lemma_validation_error_resource(program: Program, msg: Seq<char>, i: int, k: int)
    requires
        0 <= k < i < program.resources@.len(),
        program.resources@[i].name@ == program.resources@[k].name@,
        forall|a: int, b: int|
            0 <= a < b < i ==> (#[trigger] program.resources@[a]).name@ != (
            #[trigger] program.resources@[b]).name@,
        msg == spec_dup_resource_message(program.resources@[i].name@),
    ensures
        spec_validation_error(program, msg),
{
    reveal(spec_validation_error);
    assert((#[trigger] program.resources@[i]).name@ == (#[trigger] program.resources@[k]).name@);
}

/// Introduction of `spec_validation_error` for a repeated field name.
proof fn lemma_validation_error_field(
    program: Program,
    msg: Seq<char>,
    i: int,
    j: int,
    k: int,
)
    requires
        spec_resource_names_unique(program),
        0 <= i < program.resources@.len(),
        0 <= k < j < program.resources@[i].fields@.len(),
        program.resources@[i].fields@[j].name@ == program.resources@[i].fields@[k].name@,
        forall|a: int|
            0 <= a < i ==> crate::ast::spec_field_names_unique(#[trigger] program.resources@[a]),
        forall|a: int, b: int|
            0 <= a < b < j ==> (#[trigger] program.resources@[i].fields@[a]).name@ != (
            #[trigger] program.resources@[i].fields@[b]).name@,
        msg == spec_dup_field_message(
            program.resources@[i].name@,
            program.resources@[i].fields@[j].name@,
        ),
    ensures
        spec_validation_error(program, msg),
{
    reveal(spec_validation_error);
    assert((#[trigger] program.resources@[i].fields@[j]).name@ == (
    #[trigger] program.resources@[i].fields@[k]).name@);
}

#[derive(Debug)]
pub struct Compiler {
    program: Program,
}

impl Compiler {
    /// The validated program the compiler was built over.
    pub closed spec fn spec_program(&self) -> Program {
        self.program
    }

    /// Validation gate: succeeds exactly when no two resources share a name
    /// and, within each resource, no two fields share a name. On failure the
    /// error names the first duplicate found, with the resource-name check
    /// reporting before the field-name check.
    pub fn new(program: Program) -> (r: Result<Self, String>)
        ensures
            r is Ok <==> spec_resource_names_unique(program) && spec_all_field_names_unique(
                program,
            ),
            r is Ok ==> r->Ok_0.spec_program() == program,
            r is Err ==> spec_validation_error(program, r->Err_0@),
    {
        // Resource-name uniqueness across the whole program.
        let mut i: usize = 0;
        while i < program.resources.len()
            invariant
                0 <= i <= program.resources@.len(),
                forall|a: int, b: int|
                    0 <= a < b < i ==> (#[trigger] program.resources@[a]).name@ != (
                    #[trigger] program.resources@[b]).name@,
            decreases program.resources@.len() - i,
        {
            let mut k: usize = 0;
            while k < i
                invariant
                    0 <= k <= i < program.resources@.len(),
                    forall|a: int, b: int|
                        0 <= a < b < i ==> (#[trigger] program.resources@[a]).name@ != (
                        #[trigger] program.resources@[b]).name@,
                    forall|m: int|
                        0 <= m < k ==> (#[trigger] program.resources@[m]).name@
                            != program.resources@[i as int].name@,
                decreases i - k,
            {
                if str_eq(program.resources[k].name.as_str(), program.resources[i].name.as_str()) {
                    let mut msg = "Duplicate resource name: ".to_owned();
                    msg.append(program.resources[i].name.as_str());
                    proof {
                        lemma_validation_error_resource(program, msg@, i as int, k as int);
                    }
                    return Err(msg);
                }
                k = k + 1;
            }
            i = i + 1;
        }

        // Field-name uniqueness within each resource.
        let mut r: usize = 0;
        while r < program.resources.len()
            invariant
                0 <= r <= program.resources@.len(),
                spec_resource_names_unique(program),
                forall|a: int|
                    0 <= a < r ==> crate::ast::spec_field_names_unique(
                        #[trigger] program.resources@[a],
                    ),
            decreases program.resources@.len() - r,
        {
            let resource = &program.resources[r];
            let mut j: usize = 0;
            while j < resource.fields.len()
                invariant
                    0 <= r < program.resources@.len(),
                    *resource == program.resources@[r as int],
                    0 <= j <= resource.fields@.len(),
                    spec_resource_names_unique(program),
                    forall|a: int|
                        0 <= a < r ==> crate::ast::spec_field_names_unique(
                            #[trigger] program.resources@[a],
                        ),
                    forall|a: int, b: int|
                        0 <= a < b < j ==> (#[trigger] resource.fields@[a]).name@ != (
                        #[trigger] resource.fields@[b]).name@,
                decreases resource.fields@.len() - j,
            {
                let mut k: usize = 0;
                while k < j
                    invariant
                        0 <= r < program.resources@.len(),
                        *resource == program.resources@[r as int],
                        0 <= k <= j < resource.fields@.len(),
                        spec_resource_names_unique(program),
                        forall|a: int|
                            0 <= a < r ==> crate::ast::spec_field_names_unique(
                                #[trigger] program.resources@[a],
                            ),
                        forall|a: int, b: int|
                            0 <= a < b < j ==> (#[trigger] resource.fields@[a]).name@ != (
                            #[trigger] resource.fields@[b]).name@,
                        forall|m: int|
                            0 <= m < k ==> (#[trigger] resource.fields@[m]).name@
                                != resource.fields@[j as int].name@,
                    decreases j - k,
                {
                    if str_eq(resource.fields[k].name.as_str(), resource.fields[j].name.as_str()) {
                        let mut msg = "Duplicate field name in ".to_owned();
                        msg.append(resource.name.as_str());
                        msg.append(": ");
                        msg.append(resource.fields[j].name.as_str());
                        proof {
                            lemma_validation_error_field(program, msg@, r as int, j as int, k as int);
                        }
                        return Err(msg);
                    }
                    k = k + 1;
                }
                j = j + 1;
            }
            r = r + 1;
        }

        Ok(Compiler { program })
    }

    /// Run the pipeline over the validated program: resolution, cycle
    /// detection, code generation. Succeeds exactly when every field type
    /// resolves and the resolved reference graph is acyclic; the output IR
    /// then mirrors the program with every named type turned into an index.
    pub fn compile(&self) -> (r: Result<CompiledOutput, String>)
        ensures
            r is Ok ==> spec_resolved_program(
                self.spec_program(),
                r->Ok_0.ir,
                spec_resource_names(self.spec_program()),
            ) && !spec_has_cycle(spec_ir_graph(r->Ok_0.ir)),
            !spec_resource_names_unique(self.spec_program()) ==> r is Err,
            spec_resource_names_unique(self.spec_program()) && !spec_program_resolvable(
                self.spec_program(),
                spec_resource_names(self.spec_program()),
            ) ==> r is Err,
            r is Err ==> !spec_resource_names_unique(self.spec_program())
                || !spec_program_resolvable(
                self.spec_program(),
                spec_resource_names(self.spec_program()),
            ) || exists|ir0: IRProgram|
                spec_resolved_program(
                    self.spec_program(),
                    ir0,
                    spec_resource_names(self.spec_program()),
                ) && spec_has_cycle(spec_ir_graph(ir0)),
    {
        let resolver = match TypeResolver::new(&self.program) {
            Ok(resolver) => resolver,
            Err(e) => {
                return Err(e);
            },
        };
        let ir = match resolver.resolve(&self.program) {
            Ok(ir) => ir,
            Err(e) => {
                return Err(e);
            },
        };
        proof {
            lemma_resolved_refs_ok(self.program, ir, spec_resource_names(self.program));
        }
        let cycle_detector = match CycleDetector::build(&ir) {
            Ok(d) => d,
            Err(e) => {
                return Err(e);
            },
        };
        proof {
            assert(cycle_detector.spec_graph() =~= spec_ir_graph(ir));
        }
        match cycle_detector.detect() {
            Ok(()) => {},
            Err(e) => {
                proof {
                    assert(spec_resolved_program(
                        self.spec_program(),
                        ir,
                        spec_resource_names(self.spec_program()),
                    ) && spec_has_cycle(spec_ir_graph(ir)));
                }
                return Err(e);
            },
        }
        let ir_copy = ir.clone();
        proof {
            assert forall|i: int, j: int|
                0 <= i < ir_copy.resources@.len() && 0 <= j
                    < ir_copy.resources@[i].fields@.len() implies spec_type_refs_ok(
                (#[trigger] ir_copy.resources@[i].fields@[j]).field_type,
                ir_copy.resources@.len() as int,
            ) by {
                assert(crate::ir::spec_ir_resource_eqv(ir_copy.resources@[i], ir.resources@[i]));
                assert(ir_copy.resources@[i].fields@[j] == ir.resources@[i].fields@[j]);
            }
        }
        let code_generator = CodeGenerator::new(ir_copy);
        let generated_code = code_generator.generate();
        Ok(CompiledOutput { ir, generated_code })
    }
}

/// Every type resolution produces only valid resource indices.
proof fn lemma_resolves_refs_ok(t: ASTType, rt: IRType, names: Seq<Seq<char>>)
    requires
        spec_resolves_to(t, rt, names),
    ensures
        spec_type_refs_ok(rt, names.len() as int),
    decreases t,
{
    match t {
        ASTType::Primitive(_) => {},
        ASTType::Named(_) => {},
        ASTType::List(inner) => {
            lemma_resolves_refs_ok(*inner, *rt->List_0, names);
        },
    }
}

/// What a resolved program inherits from its source: names equal position
/// for position (so uniqueness and casing carry over), field indices equal,
/// and every reference a valid index.
pub proof fn lemma_resolved_program_props(p: Program, ir: IRProgram, names: Seq<Seq<char>>)
    requires
        spec_resolved_program(p, ir, names),
        spec_resource_names_unique(p),
        forall|i: int|
            0 <= i < p.resources@.len() ==> crate::ast::spec_fields_indexed(
                #[trigger] p.resources@[i],
            ) && crate::ast::spec_pascal_name(p.resources@[i].name@),
        names.len() == p.resources@.len(),
    ensures
        forall|i: int, j: int|
            0 <= i < j < ir.resources@.len() ==> (#[trigger] ir.resources@[i]).name@ != (
            #[trigger] ir.resources@[j]).name@,
        forall|i: int|
            0 <= i < ir.resources@.len() ==> crate::spec_ir_fields_indexed(
                #[trigger] ir.resources@[i],
            ) && crate::ast::spec_pascal_name(ir.resources@[i].name@),
        spec_ir_refs_ok(ir),
{
    lemma_resolved_refs_ok(p, ir, names);
    assert forall|i: int, j: int|
        0 <= i < j < ir.resources@.len() implies (#[trigger] ir.resources@[i]).name@ != (
    #[trigger] ir.resources@[j]).name@ by {
        assert(ir.resources@[i].name@ == p.resources@[i].name@);
        assert(ir.resources@[j].name@ == p.resources@[j].name@);
    }
    assert forall|i: int| 0 <= i < ir.resources@.len() implies crate::spec_ir_fields_indexed(
        #[trigger] ir.resources@[i],
    ) && crate::ast::spec_pascal_name(ir.resources@[i].name@) by {
        assert(ir.resources@[i].name@ == p.resources@[i].name@);
        assert(crate::ast::spec_fields_indexed(p.resources@[i]));
        assert forall|j: int|
            0 <= j < ir.resources@[i].fields@.len() implies (
        #[trigger] ir.resources@[i].fields@[j]).index as int == j by {
            assert(crate::ir::spec_resolved_field(
                p.resources@[i].fields@[j],
                ir.resources@[i].fields@[j],
                names,
            ));
            assert(p.resources@[i].fields@[j].index as int == j);
        }
    }
}

/// The resolver's guarantee, lifted to the whole IR: every resource
/// reference anywhere in a resolved program is a valid index.
proof fn lemma_resolved_refs_ok(p: Program, ir: IRProgram, names: Seq<Seq<char>>)
    requires
        spec_resolved_program(p, ir, names),
        names.len() == p.resources@.len(),
    ensures
        spec_ir_refs_ok(ir),
{
    assert forall|i: int, j: int|
        0 <= i < ir.resources@.len() && 0 <= j < ir.resources@[i].fields@.len()
            implies spec_type_refs_ok(
        (#[trigger] ir.resources@[i].fields@[j]).field_type,
        ir.resources@.len() as int,
    ) by {
        assert(crate::ir::spec_resolved_field(
            p.resources@[i].fields@[j],
            ir.resources@[i].fields@[j],
            names,
        ));
        lemma_resolves_refs_ok(
            p.resources@[i].fields@[j].field_type,
            ir.resources@[i].fields@[j].field_type,
            names,
        );
    }
}

} // verus!
