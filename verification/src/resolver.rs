//! The type resolver: one left-to-right pass builds the name-to-index map,
//! then every field type is resolved recursively. Forward references are
//! legal; a name that is declared nowhere fails with an "Undefined type"
//! error.
use vstd::prelude::*;
use vstd::string::StringExecFns;

use crate::ast::{ASTType, Program};
use crate::compiler::spec_dup_resource_message;
use crate::ir::{
    spec_program_resolvable, spec_resolvable, spec_resolved_field, spec_resolved_program,
    spec_resolved_resource, spec_resolves_to, IRField, IRProgram, IRResource, IRType,
};
use crate::text::str_eq;

verus! {

/// The error a failing type resolution reports: the type's base is either
/// an undeclared name or an unknown primitive, and the message names it.
pub open spec fn spec_resolve_error(t: ASTType) -> Seq<char>
    decreases t,
{
    match t {
        ASTType::Primitive(p) => "Invalid primitive type: "@ + p@,
        ASTType::Named(n) => "Undefined type: "@ + n@,
        ASTType::List(inner) => spec_resolve_error(*inner),
    }
}

/// What a failing `resolve` reports: the error of the first unresolvable
/// field type, in declaration order (resources left to right, fields top to
/// bottom).
#[verifier::opaque]
pub open spec fn spec_resolution_error(p: Program, names: Seq<Seq<char>>, msg: Seq<char>) -> bool {
    exists|i: int, j: int|
        0 <= i < p.resources@.len() && 0 <= j < p.resources@[i].fields@.len() && !spec_resolvable(
            (#[trigger] p.resources@[i].fields@[j]).field_type,
            names,
        ) && (forall|a: int, b: int|
            0 <= a < i && 0 <= b < p.resources@[a].fields@.len() ==> spec_resolvable(
                (#[trigger] p.resources@[a].fields@[b]).field_type,
                names,
            )) && (forall|b: int|
            0 <= b < j ==> spec_resolvable(
                (#[trigger] p.resources@[i].fields@[b]).field_type,
                names,
            )) && msg == spec_resolve_error(p.resources@[i].fields@[j].field_type)
}

/// Introduction of `spec_resolution_error` with the failing field given.
proof fn lemma_resolution_error(
    p: Program,
    names: Seq<Seq<char>>,
    msg: Seq<char>,
    i: int,
    j: int,
)
    requires
        0 <= i < p.resources@.len(),
        0 <= j < p.resources@[i].fields@.len(),
        !spec_resolvable(p.resources@[i].fields@[j].field_type, names),
        forall|a: int, b: int|
            0 <= a < i && 0 <= b < p.resources@[a].fields@.len() ==> spec_resolvable(
                (#[trigger] p.resources@[a].fields@[b]).field_type,
                names,
            ),
        forall|b: int|
            0 <= b < j ==> spec_resolvable(
                (#[trigger] p.resources@[i].fields@[b]).field_type,
                names,
            ),
        msg == spec_resolve_error(p.resources@[i].fields@[j].field_type),
    ensures
        spec_resolution_error(p, names, msg),
{
    reveal(spec_resolution_error);
    assert(!spec_resolvable((#[trigger] p.resources@[i].fields@[j]).field_type, names));
}

#[derive(Debug)]
pub struct TypeResolver {
    resource_map: Vec<String>,
}

impl TypeResolver {
    /// The resource names the resolver was built over, in declaration order.
    /// The map from names to indices is exactly: a name maps to the position
    /// where it first occurs in this sequence.
    pub closed spec fn spec_names(&self) -> Seq<Seq<char>> {
        self.resource_map@.map(|i: int, s: String| s@)
    }

    /// Build a type resolver from a syntax-tree program.
    ///
    /// Records each resource name with its index; fails if and only if two
    /// resources share a name.
    pub fn new(program: &Program) -> (r: Result<TypeResolver, String>)
        ensures
            r is Ok <==> crate::ast::spec_resource_names_unique(*program),
            r is Ok ==> r->Ok_0.spec_names() == crate::ast::spec_resource_names(*program),
            r is Err ==> exists|i: int, k: int|
                0 <= k < i < program.resources@.len() && (#[trigger] program.resources@[i]).name@
                    == (#[trigger] program.resources@[k]).name@ && (forall|a: int, b: int|
                    0 <= a < b < i ==> program.resources@[a].name@ != program.resources@[b].name@)
                    && r->Err_0@ == spec_dup_resource_message(program.resources@[i].name@),
    {
        let mut resource_map: Vec<String> = Vec::new();
        let mut i: usize = 0;
        while i < program.resources.len()
            invariant
                0 <= i <= program.resources@.len(),
                resource_map@.len() == i,
                forall|k: int|
                    0 <= k < i ==> (#[trigger] resource_map@[k])@ == program.resources@[k].name@,
                forall|a: int, b: int|
                    0 <= a < b < i ==> (#[trigger] program.resources@[a]).name@ != (
                    #[trigger] program.resources@[b]).name@,
            decreases program.resources@.len() - i,
        {
            let name = &program.resources[i].name;
            let mut k: usize = 0;
            while k < i
                invariant
                    0 <= k <= i < program.resources@.len(),
                    resource_map@.len() == i,
                    forall|m: int|
                        0 <= m < i ==> (#[trigger] resource_map@[m])@
                            == program.resources@[m].name@,
                    forall|a: int, b: int|
                        0 <= a < b < i ==> (#[trigger] program.resources@[a]).name@ != (
                        #[trigger] program.resources@[b]).name@,
                    *name == program.resources@[i as int].name,
                    forall|m: int|
                        0 <= m < k ==> (#[trigger] program.resources@[m]).name@ != name@,
                decreases i - k,
            {
                if str_eq(resource_map[k].as_str(), name.as_str()) {
                    let mut msg = "Duplicate resource name: ".to_owned();
                    msg.append(name.as_str());
                    proof {
                        assert(msg@ == spec_dup_resource_message(
                            program.resources@[i as int].name@,
                        ));
                        assert((#[trigger] program.resources@[i as int]).name@ == (
                        #[trigger] program.resources@[k as int]).name@);
                    }
                    return Err(msg);
                }
                k = k + 1;
            }
            resource_map.push(name.clone());
            i = i + 1;
        }
        proof {
            assert(resource_map@.map(|i: int, s: String| s@) =~= crate::ast::spec_resource_names(
                *program,
            ));
        }
        Ok(TypeResolver { resource_map })
    }

    /// Look a resource name up in the map: the index of the first resource
    /// of that name, if any.
    pub fn lookup(&self, name: &str) -> (r: Option<usize>)
        ensures
            match r {
                Some(i) => 0 <= i < self.spec_names().len() && self.spec_names()[i as int]
                    == name@ && forall|k: int| 0 <= k < i ==> self.spec_names()[k] != name@,
                None => forall|k: int|
                    0 <= k < self.spec_names().len() ==> self.spec_names()[k] != name@,
            },
    {
        let mut k: usize = 0;
        while k < self.resource_map.len()
            invariant
                0 <= k <= self.resource_map@.len(),
                forall|m: int| 0 <= m < k ==> self.spec_names()[m] != name@,
            decreases self.resource_map@.len() - k,
        {
            if str_eq(self.resource_map[k].as_str(), name) {
                proof {
                    assert(self.spec_names()[k as int] == name@);
                }
                return Some(k);
            }
            k = k + 1;
        }
        None
    }

    /// Resolve one syntax-tree type against the map.
    ///
    /// Succeeds exactly when every primitive named in the type is one of the
    /// three the language has and every named type is declared; a named type
    /// becomes the index of the first resource of that name.
    fn resolve_type(&self, ast_type: &ASTType) -> (r: Result<IRType, String>)
        ensures
            r is Ok <==> spec_resolvable(*ast_type, self.spec_names()),
            r is Ok ==> spec_resolves_to(*ast_type, r->Ok_0, self.spec_names()),
            r is Err ==> r->Err_0@ == spec_resolve_error(*ast_type),
        decreases *ast_type,
    {
        match ast_type {
            ASTType::Primitive(name) => {
                if str_eq(name.as_str(), "string") || str_eq(name.as_str(), "number") || str_eq(
                    name.as_str(),
                    "bool",
                ) {
                    Ok(IRType::Primitive(name.clone()))
                } else {
                    let mut msg = "Invalid primitive type: ".to_owned();
                    msg.append(name.as_str());
                    Err(msg)
                }
            },
            ASTType::Named(name) => {
                let mut k: usize = 0;
                while k < self.resource_map.len()
                    invariant
                        0 <= k <= self.resource_map@.len(),
                        *ast_type is Named && ast_type->Named_0 == *name,
                        forall|m: int| 0 <= m < k ==> self.spec_names()[m] != name@,
                    decreases self.resource_map@.len() - k,
                {
                    if str_eq(self.resource_map[k].as_str(), name.as_str()) {
                        proof {
                            assert(self.spec_names()[k as int] == name@);
                        }
                        return Ok(IRType::ResourceRef(k));
                    }
                    k = k + 1;
                }
                let mut msg = "Undefined type: ".to_owned();
                msg.append(name.as_str());
                Err(msg)
            },
            ASTType::List(inner) => {
                match self.resolve_type(inner) {
                    Ok(resolved_inner) => Ok(IRType::List(Box::new(resolved_inner))),
                    Err(e) => Err(e),
                }
            },
        }
    }

    /// Transform a whole syntax-tree program into IR.
    ///
    /// Succeeds exactly when every field type of the program resolves; the
    /// result mirrors the program resource for resource and field for field,
    /// with every attribute passed through unchanged.
    pub fn resolve(&self, program: &Program) -> (r: Result<IRProgram, String>)
        ensures
            r is Ok <==> spec_program_resolvable(*program, self.spec_names()),
            r is Ok ==> spec_resolved_program(*program, r->Ok_0, self.spec_names()),
            r is Err ==> spec_resolution_error(*program, self.spec_names(), r->Err_0@),
    {
        let mut ir_resources: Vec<IRResource> = Vec::new();
        let mut i: usize = 0;
        while i < program.resources.len()
            invariant
                0 <= i <= program.resources@.len(),
                ir_resources@.len() == i,
                forall|a: int|
                    0 <= a < i ==> spec_resolved_resource(
                        program.resources@[a],
                        #[trigger] ir_resources@[a],
                        self.spec_names(),
                    ),
                forall|a: int, b: int|
                    0 <= a < i && 0 <= b < program.resources@[a].fields@.len() ==> spec_resolvable(
                        (#[trigger] program.resources@[a].fields@[b]).field_type,
                        self.spec_names(),
                    ),
            decreases program.resources@.len() - i,
        {
            let ast_resource = &program.resources[i];
            let mut ir_fields: Vec<IRField> = Vec::new();
            let mut j: usize = 0;
            while j < ast_resource.fields.len()
                invariant
                    0 <= i < program.resources@.len(),
                    *ast_resource == program.resources@[i as int],
                    0 <= j <= ast_resource.fields@.len(),
                    ir_fields@.len() == j,
                    forall|a: int, b: int|
                        0 <= a < i && 0 <= b < program.resources@[a].fields@.len()
                            ==> spec_resolvable(
                            (#[trigger] program.resources@[a].fields@[b]).field_type,
                            self.spec_names(),
                        ),
                    forall|b: int|
                        0 <= b < j ==> spec_resolved_field(
                            ast_resource.fields@[b],
                            #[trigger] ir_fields@[b],
                            self.spec_names(),
                        ),
                    forall|b: int|
                        0 <= b < j ==> spec_resolvable(
                            (#[trigger] ast_resource.fields@[b]).field_type,
                            self.spec_names(),
                        ),
                decreases ast_resource.fields@.len() - j,
            {
                let ast_field = &ast_resource.fields[j];
                match self.resolve_type(&ast_field.field_type) {
                    Ok(resolved_type) => {
                        ir_fields.push(
                            IRField {
                                name: ast_field.name.clone(),
                                field_type: resolved_type,
                                nullable: ast_field.nullable,
                                optional: ast_field.optional,
                                default: match &ast_field.default {
                                    Some(d) => Some(d.clone()),
                                    None => None,
                                },
                                index: ast_field.index,
                            },
                        );
                    },
                    Err(e) => {
                        proof {
                            lemma_resolution_error(
                                *program,
                                self.spec_names(),
                                e@,
                                i as int,
                                j as int,
                            );
                        }
                        return Err(e);
                    },
                }
                j = j + 1;
            }
            ir_resources.push(IRResource { name: ast_resource.name.clone(), fields: ir_fields });
            i = i + 1;
        }
        Ok(IRProgram { resources: ir_resources })
    }
}

} // verus!
