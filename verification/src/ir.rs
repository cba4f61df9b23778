//! The resolved intermediate representation: named type references have
//! become integer indices into the program's resource list.
use vstd::prelude::*;

use crate::ast::{ASTType, DefaultValue, Field, Program, Resource};
use crate::text::str_eq;

verus! {

#[derive(Debug, PartialEq)]
pub enum IRType {
    /// Primitive type: "string", "number", "bool"
    Primitive(String),
    /// Reference to a resource by index in `IRProgram::resources`
    ResourceRef(usize),
    /// List of zero or more items of the inner type
    List(Box<IRType>),
}

#[derive(Debug)]
pub struct IRField {
    pub name: String,
    pub field_type: IRType,
    pub nullable: bool,
    pub optional: bool,
    pub default: Option<DefaultValue>,
    pub index: usize,
}

#[derive(Debug)]
pub struct IRResource {
    pub name: String,
    pub fields: Vec<IRField>,
}

#[derive(Debug)]
pub struct IRProgram {
    pub resources: Vec<IRResource>,
}

impl Clone for IRType {
    fn clone(&self) -> (res: Self)
        ensures
            res == *self,
        decreases *self,
    {
        match self {
            IRType::Primitive(s) => IRType::Primitive(s.clone()),
            IRType::ResourceRef(i) => IRType::ResourceRef(*i),
            IRType::List(inner) => IRType::List(Box::new((**inner).clone())),
        }
    }
}

impl Clone for IRField {
    fn clone(&self) -> (res: Self)
        ensures
            res == *self,
    {
        IRField {
            name: self.name.clone(),
            field_type: self.field_type.clone(),
            nullable: self.nullable,
            optional: self.optional,
            default: match &self.default {
                Some(d) => Some(d.clone()),
                None => None,
            },
            index: self.index,
        }
    }
}

/// Two IR resources with the same name and, field for field, the same
/// contents.
pub open spec fn spec_ir_resource_eqv(a: IRResource, b: IRResource) -> bool {
    a.name == b.name && a.fields@ == b.fields@
}

impl Clone for IRResource {
    fn clone(&self) -> (res: Self)
        ensures
            spec_ir_resource_eqv(res, *self),
    {
        let mut fields: Vec<IRField> = Vec::new();
        let mut i: usize = 0;
        while i < self.fields.len()
            invariant
                0 <= i <= self.fields.len(),
                fields@ =~= self.fields@.subrange(0, i as int),
            decreases self.fields.len() - i,
        {
            fields.push(self.fields[i].clone());
            i = i + 1;
        }
        proof {
            assert(fields@ =~= self.fields@);
        }
        IRResource { name: self.name.clone(), fields }
    }
}

impl Clone for IRProgram {
    fn clone(&self) -> (res: Self)
        ensures
            res.resources@.len() == self.resources@.len(),
            forall|i: int|
                0 <= i < self.resources@.len() ==> spec_ir_resource_eqv(
                    #[trigger] res.resources@[i],
                    self.resources@[i],
                ),
    {
        let mut resources: Vec<IRResource> = Vec::new();
        let mut i: usize = 0;
        while i < self.resources.len()
            invariant
                0 <= i <= self.resources.len(),
                resources@.len() == i,
                forall|k: int|
                    0 <= k < i ==> spec_ir_resource_eqv(
                        #[trigger] resources@[k],
                        self.resources@[k],
                    ),
            decreases self.resources.len() - i,
        {
            resources.push(self.resources[i].clone());
            i = i + 1;
        }
        IRProgram { resources }
    }
}

impl IRProgram {
    /// Find a resource by name, returning the index of the first resource of
    /// that name; `None` if there is none.
    pub fn get_resource_index(&self, name: &str) -> (r: Option<usize>)
        ensures
            match r {
                Some(i) => 0 <= i < self.resources@.len() && self.resources@[i as int].name@
                    == name@ && forall|k: int|
                    0 <= k < i ==> (#[trigger] self.resources@[k]).name@ != name@,
                None => forall|k: int|
                    0 <= k < self.resources@.len() ==> (#[trigger] self.resources@[k]).name@
                        != name@,
            },
    {
        let mut i: usize = 0;
        while i < self.resources.len()
            invariant
                0 <= i <= self.resources.len(),
                forall|k: int| 0 <= k < i ==> (#[trigger] self.resources@[k]).name@ != name@,
            decreases self.resources.len() - i,
        {
            if str_eq(self.resources[i].name.as_str(), name) {
                return Some(i);
            }
            i = i + 1;
        }
        None
    }

    /// Find a resource by name: the first resource of that name, if any.
    pub fn get_resource(&self, name: &str) -> (r: Option<&IRResource>)
        ensures
            match r {
                Some(res) => exists|i: int|
                    0 <= i < self.resources@.len() && *res == #[trigger] self.resources@[i]
                        && self.resources@[i].name@ == name@ && (forall|k: int|
                        0 <= k < i ==> (#[trigger] self.resources@[k]).name@ != name@),
                None => forall|k: int|
                    0 <= k < self.resources@.len() ==> (#[trigger] self.resources@[k]).name@
                        != name@,
            },
    {
        let mut i: usize = 0;
        while i < self.resources.len()
            invariant
                0 <= i <= self.resources.len(),
                forall|k: int| 0 <= k < i ==> (#[trigger] self.resources@[k]).name@ != name@,
            decreases self.resources.len() - i,
        {
            if str_eq(self.resources[i].name.as_str(), name) {
                return Some(&self.resources[i]);
            }
            i = i + 1;
        }
        None
    }
}

/// Relation between a syntax-tree type and its resolved form, against the
/// list of resource names in declaration order. A named type resolves to the
/// index of the first resource bearing that name.
pub open spec fn spec_resolves_to(t: ASTType, rt: IRType, names: Seq<Seq<char>>) -> bool
    decreases t,
{
    match t {
        ASTType::Primitive(p) => rt is Primitive && rt->Primitive_0@ == p@ && (p@ == "string"@
            || p@ == "number"@ || p@ == "bool"@),
        ASTType::Named(n) => rt is ResourceRef && 0 <= rt->ResourceRef_0 < names.len()
            && names[rt->ResourceRef_0 as int] == n@ && (forall|k: int|
            0 <= k < rt->ResourceRef_0 ==> names[k] != n@),
        ASTType::List(inner) => rt is List && spec_resolves_to(*inner, *rt->List_0, names),
    }
}

/// Whether a syntax-tree type can be resolved at all against the given
/// resource names: primitives must be among the three known ones, and every
/// named type must be declared somewhere in the program.
pub open spec fn spec_resolvable(t: ASTType, names: Seq<Seq<char>>) -> bool
    decreases t,
{
    match t {
        ASTType::Primitive(p) => p@ == "string"@ || p@ == "number"@ || p@ == "bool"@,
        ASTType::Named(n) => exists|k: int| 0 <= k < names.len() && names[k] == n@,
        ASTType::List(inner) => spec_resolvable(*inner, names),
    }
}

/// Field-for-field correspondence between a syntax-tree field and its
/// resolved form: everything but the type passes through unchanged.
pub open spec fn spec_resolved_field(f: Field, irf: IRField, names: Seq<Seq<char>>) -> bool {
    irf.name == f.name && irf.nullable == f.nullable && irf.optional == f.optional && irf.default
        == f.default && irf.index == f.index && spec_resolves_to(f.field_type, irf.field_type, names)
}

/// Correspondence between a syntax-tree resource and its resolved form.
pub open spec fn spec_resolved_resource(r: Resource, irr: IRResource, names: Seq<Seq<char>>) -> bool {
    irr.name == r.name && irr.fields@.len() == r.fields@.len() && forall|j: int|
        0 <= j < r.fields@.len() ==> spec_resolved_field(
            r.fields@[j],
            #[trigger] irr.fields@[j],
            names,
        )
}

/// Correspondence between a whole program and its resolved form.
pub open spec fn spec_resolved_program(p: Program, ir: IRProgram, names: Seq<Seq<char>>) -> bool {
    ir.resources@.len() == p.resources@.len() && forall|i: int|
        0 <= i < p.resources@.len() ==> spec_resolved_resource(
            p.resources@[i],
            #[trigger] ir.resources@[i],
            names,
        )
}

/// Whether every field type of the program resolves against the names.
pub open spec fn spec_program_resolvable(p: Program, names: Seq<Seq<char>>) -> bool {
    forall|i: int, j: int|
        0 <= i < p.resources@.len() && 0 <= j < p.resources@[i].fields@.len()
            ==> spec_resolvable((#[trigger] p.resources@[i].fields@[j]).field_type, names)
}

} // verus!
