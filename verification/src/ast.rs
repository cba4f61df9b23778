//! Syntax tree produced by the parser: programs, resources, fields, types and
//! the literals that may appear in `default(...)` attributes.
use vstd::prelude::*;

use crate::text::spec_is_upper;

verus! {

#[derive(Debug, PartialEq)]
pub enum ASTType {
    Primitive(String),
    Named(String),
    List(Box<ASTType>),
}

#[derive(Debug, PartialEq)]
pub enum Literal {
    String(std::string::String),
    Number(i64),
    Bool(bool),
}

#[derive(Debug, PartialEq)]
pub struct DefaultValue {
    pub value: Literal,
}

#[derive(Debug)]
pub struct Field {
    pub name: String,
    pub field_type: ASTType,
    pub nullable: bool,
    pub optional: bool,
    pub default: Option<DefaultValue>,
    pub index: usize,
}

#[derive(Debug)]
pub struct Resource {
    pub name: String,
    pub fields: Vec<Field>,
}

#[derive(Debug)]
pub struct Program {
    pub resources: Vec<Resource>,
}

impl Clone for ASTType {
    fn clone(&self) -> (res: Self)
        ensures
            res == *self,
        decreases *self,
    {
        match self {
            ASTType::Primitive(s) => ASTType::Primitive(s.clone()),
            ASTType::Named(s) => ASTType::Named(s.clone()),
            ASTType::List(inner) => ASTType::List(Box::new((**inner).clone())),
        }
    }
}

impl Clone for Literal {
    fn clone(&self) -> (res: Self)
        ensures
            res == *self,
    {
        match self {
            Literal::String(s) => Literal::String(s.clone()),
            Literal::Number(n) => Literal::Number(*n),
            Literal::Bool(b) => Literal::Bool(*b),
        }
    }
}

impl Clone for DefaultValue {
    fn clone(&self) -> (res: Self)
        ensures
            res == *self,
    {
        DefaultValue { value: self.value.clone() }
    }
}

impl Clone for Field {
    fn clone(&self) -> (res: Self)
        ensures
            res == *self,
    {
        Field {
            name: self.name.clone(),
            field_type: self.field_type.clone(),
            nullable: self.nullable,
            optional: self.optional,
            default: match &self.default {
                Some(d) => Some(d.clone()),
                None => None,
            },
            index: self.index,
        }
    }
}

/// Two resources with the same name and, field for field, the same contents.
pub open spec fn spec_resource_eqv(a: Resource, b: Resource) -> bool {
    a.name == b.name && a.fields@ == b.fields@
}

impl Clone for Resource {
    fn clone(&self) -> (res: Self)
        ensures
            spec_resource_eqv(res, *self),
    {
        let mut fields: Vec<Field> = Vec::new();
        let mut i: usize = 0;
        while i < self.fields.len()
            invariant
                0 <= i <= self.fields.len(),
                fields@ =~= self.fields@.subrange(0, i as int),
            decreases self.fields.len() - i,
        {
            fields.push(self.fields[i].clone());
            i = i + 1;
        }
        proof {
            assert(fields@ =~= self.fields@);
        }
        Resource { name: self.name.clone(), fields }
    }
}

impl Clone for Program {
    fn clone(&self) -> (res: Self)
        ensures
            res.resources@.len() == self.resources@.len(),
            forall|i: int|
                0 <= i < self.resources@.len() ==> spec_resource_eqv(
                    #[trigger] res.resources@[i],
                    self.resources@[i],
                ),
    {
        let mut resources: Vec<Resource> = Vec::new();
        let mut i: usize = 0;
        while i < self.resources.len()
            invariant
                0 <= i <= self.resources.len(),
                resources@.len() == i,
                forall|k: int|
                    0 <= k < i ==> spec_resource_eqv(
                        #[trigger] resources@[k],
                        self.resources@[k],
                    ),
            decreases self.resources.len() - i,
        {
            resources.push(self.resources[i].clone());
            i = i + 1;
        }
        Program { resources }
    }
}

/// A name admissible for a resource: nonempty and starting with an uppercase
/// letter.
pub open spec fn spec_pascal_name(n: Seq<char>) -> bool {
    n.len() > 0 && spec_is_upper(n[0])
}

/// The i-th field of a resource carries index i, fixed at parse time.
pub open spec fn spec_fields_indexed(r: Resource) -> bool {
    forall|i: int| 0 <= i < r.fields@.len() ==> (#[trigger] r.fields@[i]).index as int == i
}

/// The names of a program's resources, in declaration order.
pub open spec fn spec_resource_names(p: Program) -> Seq<Seq<char>> {
    p.resources@.map(|i: int, r: Resource| r.name@)
}

/// No two resources of the program share a name.
pub open spec fn spec_resource_names_unique(p: Program) -> bool {
    forall|i: int, j: int|
        0 <= i < j < p.resources@.len() ==> (#[trigger] p.resources@[i]).name@ != (
        #[trigger] p.resources@[j]).name@
}

/// No two fields of the resource share a name.
pub open spec fn spec_field_names_unique(r: Resource) -> bool {
    forall|i: int, j: int|
        0 <= i < j < r.fields@.len() ==> (#[trigger] r.fields@[i]).name@ != (
        #[trigger] r.fields@[j]).name@
}

/// Every resource of the program has pairwise distinct field names.
pub open spec fn spec_all_field_names_unique(p: Program) -> bool {
    forall|i: int| 0 <= i < p.resources@.len() ==> spec_field_names_unique(#[trigger] p.resources@[i])
}

} // verus!
