//! The binary wire format: a runtime value model and the encoder that
//! serializes values against IR type descriptors.
//!
//! Layout, fixed and unversioned:
//! - string:   4-byte little-endian length, then the UTF-8 bytes
//! - number:   8-byte little-endian signed integer
//! - bool:     one byte, 0x00 false / 0x01 true
//! - list:     4-byte little-endian count, then each item in order
//! - resource: its fields' encodings concatenated in declaration order
//! - optional: one byte, 0x00 absent (nothing follows) / 0x01 present
//! - nullable: one byte, 0x00 null (nothing follows) / 0x01 present
use vstd::prelude::*;
use vstd::string::{StrSliceExecFns, StringExecFns};
use vstd::utf8::encode_utf8;

use crate::ir::{IRField, IRProgram, IRResource, IRType};
use crate::text::{i64_to_string, spec_decimal, spec_decimal_i64, str_eq, usize_to_string};

verus! {

/// Runtime value representation for encoding.
#[derive(Debug, PartialEq)]
pub enum Value {
    String(std::string::String),
    Number(i64),
    Bool(bool),
    List(Vec<Value>),
    Resource(Vec<FieldValue>),
    Null,
    Absent,
}

/// Field value with optional/nullable handling.
#[derive(Debug, PartialEq)]
pub struct FieldValue {
    pub name: String,
    pub value: Value,
    pub is_optional: bool,
    pub is_nullable: bool,
}

/// Four little-endian bytes of a nonnegative integer taken modulo 2^32.
pub open spec fn spec_len_prefix(n: int) -> Seq<u8> {
    let v = n % 0x1_0000_0000;
    seq![
        (v % 256) as u8,
        ((v / 256) % 256) as u8,
        ((v / 65536) % 256) as u8,
        ((v / 16777216) % 256) as u8,
    ]
}

/// Eight little-endian bytes of a signed 64-bit integer, two's complement.
pub open spec fn spec_le8(n: i64) -> Seq<u8> {
    let u = if n >= 0 {
        n as int
    } else {
        n + 0x1_0000_0000_0000_0000
    };
    seq![
        (u % 256) as u8,
        ((u / 256) % 256) as u8,
        ((u / 65536) % 256) as u8,
        ((u / 16777216) % 256) as u8,
        ((u / 0x1_0000_0000) % 256) as u8,
        ((u / 0x100_0000_0000) % 256) as u8,
        ((u / 0x1_0000_0000_0000) % 256) as u8,
        ((u / 0x100_0000_0000_0000) % 256) as u8,
    ]
}

/// The wire bytes of a string: length prefix, then UTF-8 bytes.
pub open spec fn spec_string_bytes(s: Seq<char>) -> Seq<u8> {
    spec_len_prefix(encode_utf8(s).len() as int) + encode_utf8(s)
}

/// The wire bytes of a value against a type, or `None` where the pairing is
/// not encodable: a value/type mismatch, a `Null` or `Absent` outside its
/// wrapper, a dangling resource index, or a field-count mismatch.
pub open spec fn spec_encode_value(v: Value, t: IRType, rs: Seq<IRResource>) -> Option<Seq<u8>>
    decreases v, 1int,
{
    match v {
        Value::String(s) => if t is Primitive && t->Primitive_0@ == "string"@ {
            Some(spec_string_bytes(s@))
        } else {
            None
        },
        Value::Number(n) => if t is Primitive && t->Primitive_0@ == "number"@ {
            Some(spec_le8(n))
        } else {
            None
        },
        Value::Bool(b) => if t is Primitive && t->Primitive_0@ == "bool"@ {
            Some(
                seq![
                    if b {
                        1u8
                    } else {
                        0u8
                    },
                ],
            )
        } else {
            None
        },
        Value::List(items) => if t is List {
            match spec_encode_items(items@, *t->List_0, rs, 0) {
                Some(body) => Some(spec_len_prefix(items@.len() as int) + body),
                None => None,
            }
        } else {
            None
        },
        Value::Resource(fields) => if t is ResourceRef {
            let idx = t->ResourceRef_0;
            if idx < rs.len() && fields@.len() == rs[idx as int].fields@.len() {
                spec_encode_fields(fields@, rs[idx as int].fields@, rs, 0)
            } else {
                None
            }
        } else {
            None
        },
        Value::Null => None,
        Value::Absent => None,
    }
}

/// The concatenated wire bytes of the items from position `i` on.
pub open spec fn spec_encode_items(
    items: Seq<Value>,
    t: IRType,
    rs: Seq<IRResource>,
    i: int,
) -> Option<Seq<u8>>
    decreases items, (items.len() - i),
{
    if i < 0 || i >= items.len() {
        Some(Seq::empty())
    } else {
        match spec_encode_value(items[i], t, rs) {
            None => None,
            Some(b) => match spec_encode_items(items, t, rs, i + 1) {
                None => None,
                Some(rest) => Some(b + rest),
            },
        }
    }
}

/// The concatenated wire bytes of the field values from position `i` on,
/// against the same-length field descriptor list.
pub open spec fn spec_encode_fields(
    fvs: Seq<FieldValue>,
    flds: Seq<IRField>,
    rs: Seq<IRResource>,
    i: int,
) -> Option<Seq<u8>>
    decreases fvs, (fvs.len() - i),
{
    if fvs.len() != flds.len() {
        None
    } else if i < 0 || i >= fvs.len() {
        Some(Seq::empty())
    } else {
        match spec_encode_field(fvs[i], flds[i], rs) {
            None => None,
            Some(b) => match spec_encode_fields(fvs, flds, rs, i + 1) {
                None => None,
                Some(rest) => Some(b + rest),
            },
        }
    }
}

/// The wire bytes of one field value: the optional wrapper byte first, the
/// nullable wrapper byte second, then the bare value unless it was consumed
/// by a wrapper.
pub open spec fn spec_encode_field(fv: FieldValue, f: IRField, rs: Seq<IRResource>) -> Option<
    Seq<u8>,
>
    decreases fv, 0int,
{
    if f.optional && fv.value is Absent {
        Some(seq![0u8])
    } else {
        let pre1: Seq<u8> = if f.optional {
            seq![1u8]
        } else {
            Seq::empty()
        };
        if f.nullable && fv.value is Null {
            Some(pre1 + seq![0u8])
        } else {
            let pre2: Seq<u8> = if f.nullable {
                seq![1u8]
            } else {
                Seq::empty()
            };
            match spec_encode_value(fv.value, f.field_type, rs) {
                None => None,
                Some(b) => Some(pre1 + pre2 + b),
            }
        }
    }
}

/// A short description of a value, for the type-mismatch error: its kind,
/// and for the primitives also the value itself.
pub open spec fn spec_value_desc(v: Value) -> Seq<char> {
    match v {
        Value::String(s) => "string \""@ + s@ + "\""@,
        Value::Number(n) => "number "@ + spec_decimal_i64(n),
        Value::Bool(b) => if b {
            "bool true"@
        } else {
            "bool false"@
        },
        Value::List(_) => "list"@,
        Value::Resource(_) => "resource"@,
        Value::Null => "null"@,
        Value::Absent => "absent"@,
    }
}

/// A rendering of an IR type, for the type-mismatch error.
pub open spec fn spec_type_desc(t: IRType) -> Seq<char>
    decreases t,
{
    match t {
        IRType::Primitive(p) => p@,
        IRType::ResourceRef(i) => "resource "@ + spec_decimal(i as int),
        IRType::List(inner) => "list "@ + spec_type_desc(*inner),
    }
}

/// The pairing of value kind and type kind is not one of the five the wire
/// format defines. `Null` and `Absent` are kept apart: they carry their own
/// errors.
pub open spec fn spec_kind_mismatch(v: Value, t: IRType) -> bool {
    match v {
        Value::String(_) => !(t is Primitive && t->Primitive_0@ == "string"@),
        Value::Number(_) => !(t is Primitive && t->Primitive_0@ == "number"@),
        Value::Bool(_) => !(t is Primitive && t->Primitive_0@ == "bool"@),
        Value::List(_) => !(t is List),
        Value::Resource(_) => !(t is ResourceRef),
        Value::Null => false,
        Value::Absent => false,
    }
}

/// The type-mismatch error carries the offending value and the expected
/// type.
pub open spec fn spec_mismatch_message(v: Value, t: IRType) -> Seq<char> {
    "Type mismatch: value "@ + spec_value_desc(v) + " does not match type "@ + spec_type_desc(t)
}

/// The error for a resource reference pointing outside the program.
pub open spec fn spec_index_message(idx: int) -> Seq<char> {
    "Invalid resource index: "@ + spec_decimal(idx)
}

/// The field-count error names the resource, the expected count and the
/// actual count.
pub open spec fn spec_count_mismatch_message(name: Seq<char>, expected: int, got: int) -> Seq<
    char,
> {
    "Field count mismatch: expected "@ + spec_decimal(expected) + " fields for resource '"@ + name
        + "', got "@ + spec_decimal(got)
}

/// The error message an unencodable pairing produces: a function of the
/// value, the type and the program alone. For a list or resource it is the
/// first failing element's error, found left to right.
pub open spec fn spec_encode_err(v: Value, t: IRType, rs: Seq<IRResource>) -> Seq<char>
    decreases v, 1int,
{
    if v is Null {
        "Cannot encode null value without nullable wrapper"@
    } else if v is Absent {
        "Cannot encode absent value without optional wrapper"@
    } else if spec_kind_mismatch(v, t) {
        spec_mismatch_message(v, t)
    } else {
        match v {
            Value::List(items) => spec_items_err(items@, *t->List_0, rs, 0),
            Value::Resource(fvs) => {
                let idx = t->ResourceRef_0;
                if idx >= rs.len() {
                    spec_index_message(idx as int)
                } else if fvs@.len() != rs[idx as int].fields@.len() {
                    spec_count_mismatch_message(
                        rs[idx as int].name@,
                        rs[idx as int].fields@.len() as int,
                        fvs@.len() as int,
                    )
                } else {
                    spec_fields_err(fvs@, rs[idx as int].fields@, rs, 0)
                }
            },
            _ => Seq::empty(),
        }
    }
}

/// The first failing item's error, from position `i` on.
pub open spec fn spec_items_err(items: Seq<Value>, t: IRType, rs: Seq<IRResource>, i: int) -> Seq<
    char,
>
    decreases items, (items.len() - i),
{
    if i < 0 || i >= items.len() {
        Seq::empty()
    } else if spec_encode_value(items[i], t, rs) is Some {
        spec_items_err(items, t, rs, i + 1)
    } else {
        spec_encode_err(items[i], t, rs)
    }
}

/// The error of one field value: the wrappers never fail, so it is the
/// inner value's error.
pub open spec fn spec_field_err(fv: FieldValue, f: IRField, rs: Seq<IRResource>) -> Seq<char>
    decreases fv, 0int,
{
    spec_encode_err(fv.value, f.field_type, rs)
}

/// The first failing field's error, from position `i` on.
pub open spec fn spec_fields_err(
    fvs: Seq<FieldValue>,
    flds: Seq<IRField>,
    rs: Seq<IRResource>,
    i: int,
) -> Seq<char>
    decreases fvs, (fvs.len() - i),
{
    if i < 0 || i >= fvs.len() || flds.len() != fvs.len() {
        Seq::empty()
    } else if spec_encode_field(fvs[i], flds[i], rs) is Some {
        spec_fields_err(fvs, flds, rs, i + 1)
    } else {
        spec_field_err(fvs[i], flds[i], rs)
    }
}

/// Binary encoder: appends encodings to one growable byte buffer.
pub struct BinaryEncoder {
    buffer: Vec<u8>,
}

impl BinaryEncoder {
    pub closed spec fn spec_buffer(&self) -> Seq<u8> {
        self.buffer@
    }

    pub fn new() -> (r: Self)
        ensures
            r.spec_buffer() == Seq::<u8>::empty(),
    {
        BinaryEncoder { buffer: Vec::new() }
    }

    /// Get the encoded bytes.
    pub fn finish(self) -> (r: Vec<u8>)
        ensures
            r@ == self.spec_buffer(),
    {
        self.buffer
    }

    /// Appends the 4-byte little-endian length prefix.
    fn write_len_prefix(&mut self, n: usize)
        ensures
            final(self).spec_buffer() == old(self).spec_buffer() + spec_len_prefix(n as int),
    {
        let v: u64 = (n as u64) % 0x1_0000_0000;
        self.buffer.push((v % 256) as u8);
        self.buffer.push(((v / 256) % 256) as u8);
        self.buffer.push(((v / 65536) % 256) as u8);
        self.buffer.push(((v / 16777216) % 256) as u8);
        proof {
            assert(self.spec_buffer() =~= old(self).spec_buffer() + spec_len_prefix(n as int));
        }
    }

    /// Encode a string: length prefix, then the UTF-8 bytes.
    pub fn encode_string(&mut self, s: &str)
        ensures
            final(self).spec_buffer() == old(self).spec_buffer() + spec_string_bytes(s@),
    {
        let bytes = s.as_bytes_vec();
        self.write_len_prefix(bytes.len());
        let ghost mid = self.spec_buffer();
        let mut i: usize = 0;
        while i < bytes.len()
            invariant
                0 <= i <= bytes@.len(),
                bytes@ == encode_utf8(s@),
                self.spec_buffer() == mid + bytes@.subrange(0, i as int),
                mid == old(self).spec_buffer() + spec_len_prefix(encode_utf8(s@).len() as int),
            decreases bytes@.len() - i,
        {
            let ghost pre = self.spec_buffer();
            self.buffer.push(bytes[i]);
            proof {
                assert(pre + seq![bytes@[i as int]] =~= mid + bytes@.subrange(0, i + 1));
            }
            i = i + 1;
        }
        proof {
            assert(bytes@.subrange(0, bytes@.len() as int) =~= bytes@);
            assert(mid + bytes@ =~= old(self).spec_buffer() + spec_string_bytes(s@));
        }
    }

    /// Encode a number: eight little-endian bytes, two's complement.
    pub fn encode_number(&mut self, n: i64)
        ensures
            final(self).spec_buffer() == old(self).spec_buffer() + spec_le8(n),
    {
        let u: u64 = if n >= 0 {
            n as u64
        } else {
            u64::MAX - ((-(n + 1)) as u64)
        };
        self.buffer.push((u % 256) as u8);
        self.buffer.push(((u / 256) % 256) as u8);
        self.buffer.push(((u / 65536) % 256) as u8);
        self.buffer.push(((u / 16777216) % 256) as u8);
        self.buffer.push(((u / 0x1_0000_0000) % 256) as u8);
        self.buffer.push(((u / 0x100_0000_0000) % 256) as u8);
        self.buffer.push(((u / 0x1_0000_0000_0000) % 256) as u8);
        self.buffer.push(((u / 0x100_0000_0000_0000) % 256) as u8);
        proof {
            assert(self.spec_buffer() =~= old(self).spec_buffer() + spec_le8(n));
        }
    }

    /// Encode a bool: one byte, 0x00 false / 0x01 true.
    pub fn encode_bool(&mut self, b: bool)
        ensures
            final(self).spec_buffer() == old(self).spec_buffer() + seq![
                if b {
                    1u8
                } else {
                    0u8
                },
            ],
    {
        self.buffer.push(if b {
            0x01
        } else {
            0x00
        });
        proof {
            assert(self.spec_buffer() =~= old(self).spec_buffer() + seq![
                if b {
                    1u8
                } else {
                    0u8
                },
            ]);
        }
    }

    /// Encode a value against its type. On success the buffer has grown by
    /// exactly the value's wire bytes. On failure the error text is
    /// `spec_encode_err`, a function of the value, the type and the program
    /// alone; the buffer is untouched when the failure is immediate (a bare
    /// `Null` or `Absent`, a kind mismatch, a dangling index or a field
    /// count mismatch), and otherwise keeps what stood in it as a prefix.
    pub fn encode_value(&mut self, value: &Value, ir_type: &IRType, ir_program: &IRProgram) -> (r:
        Result<(), String>)
        ensures
            match spec_encode_value(*value, *ir_type, ir_program.resources@) {
                Some(bytes) => r is Ok && final(self).spec_buffer() == old(self).spec_buffer()
                    + bytes,
                None => r is Err && r->Err_0@ == spec_encode_err(
                    *value,
                    *ir_type,
                    ir_program.resources@,
                ),
            },
            old(self).spec_buffer().is_prefix_of(final(self).spec_buffer()),
            ((*value is Null) || (*value is Absent) || spec_kind_mismatch(*value, *ir_type))
                ==> final(self).spec_buffer() == old(self).spec_buffer(),
            ((*value is Resource) && (*ir_type is ResourceRef) && (ir_type->ResourceRef_0
                >= ir_program.resources@.len() || value->Resource_0@.len()
                != ir_program.resources@[ir_type->ResourceRef_0 as int].fields@.len()))
                ==> final(self).spec_buffer() == old(self).spec_buffer(),
        decreases *value, 1int,
    {
        match (value, ir_type) {
            (Value::String(s), IRType::Primitive(p)) => {
                if str_eq(p.as_str(), "string") {
                    self.encode_string(s.as_str());
                    Ok(())
                } else {
                    Err(mismatch_message(value, ir_type))
                }
            },
            (Value::Number(n), IRType::Primitive(p)) => {
                if str_eq(p.as_str(), "number") {
                    self.encode_number(*n);
                    Ok(())
                } else {
                    Err(mismatch_message(value, ir_type))
                }
            },
            (Value::Bool(b), IRType::Primitive(p)) => {
                if str_eq(p.as_str(), "bool") {
                    self.encode_bool(*b);
                    Ok(())
                } else {
                    Err(mismatch_message(value, ir_type))
                }
            },
            (Value::List(items), IRType::List(inner_type)) => {
                self.encode_list(items, inner_type, ir_program)
            },
            (Value::Resource(fields), IRType::ResourceRef(idx)) => {
                self.encode_resource(fields, *idx, ir_program)
            },
            (Value::Null, _) => {
                Err("Cannot encode null value without nullable wrapper".to_owned())
            },
            (Value::Absent, _) => {
                Err("Cannot encode absent value without optional wrapper".to_owned())
            },
            _ => Err(mismatch_message(value, ir_type)),
        }
    }

    /// Encode one field value, applying the optional wrapper first and the
    /// nullable wrapper second.
    pub fn encode_field(
        &mut self,
        field_value: &FieldValue,
        ir_field: &IRField,
        ir_program: &IRProgram,
    ) -> (r: Result<(), String>)
        ensures
            match spec_encode_field(*field_value, *ir_field, ir_program.resources@) {
                Some(bytes) => r is Ok && final(self).spec_buffer() == old(self).spec_buffer()
                    + bytes,
                None => r is Err && r->Err_0@ == spec_field_err(
                    *field_value,
                    *ir_field,
                    ir_program.resources@,
                ),
            },
            old(self).spec_buffer().is_prefix_of(final(self).spec_buffer()),
        decreases *field_value, 0int,
    {
        let ghost start = self.spec_buffer();
        if ir_field.optional {
            let absent = match &field_value.value {
                Value::Absent => true,
                _ => false,
            };
            if absent {
                self.buffer.push(0x00);
                proof {
                    assert(self.spec_buffer() =~= start + seq![0u8]);
                }
                return Ok(());
            }
            self.buffer.push(0x01);
            proof {
                assert(self.spec_buffer() =~= start + seq![1u8]);
            }
        }
        let ghost pre1: Seq<u8> = if ir_field.optional {
            seq![1u8]
        } else {
            Seq::empty()
        };
        proof {
            assert(self.spec_buffer() =~= start + pre1);
        }
        if ir_field.nullable {
            let is_null = match &field_value.value {
                Value::Null => true,
                _ => false,
            };
            if is_null {
                self.buffer.push(0x00);
                proof {
                    assert(self.spec_buffer() =~= start + (pre1 + seq![0u8]));
                }
                return Ok(());
            }
            self.buffer.push(0x01);
        }
        let ghost pre2: Seq<u8> = if ir_field.nullable {
            seq![1u8]
        } else {
            Seq::empty()
        };
        let ghost mid = self.spec_buffer();
        proof {
            assert(mid =~= start + pre1 + pre2);
        }
        let r = self.encode_value(&field_value.value, &ir_field.field_type, ir_program);
        proof {
            if spec_encode_value(field_value.value, ir_field.field_type, ir_program.resources@)
                is Some {
                let b = spec_encode_value(
                    field_value.value,
                    ir_field.field_type,
                    ir_program.resources@,
                )->0;
                assert(self.spec_buffer() =~= start + (pre1 + pre2 + b));
            }
        }
        r
    }

    /// Encode a list body: the count, then each item in order.
    fn encode_list(&mut self, items: &Vec<Value>, inner_type: &IRType, ir_program: &IRProgram) -> (
        r: Result<(), String>)
        ensures
            match (match spec_encode_items(items@, *inner_type, ir_program.resources@, 0) {
                Some(body) => Some(spec_len_prefix(items@.len() as int) + body),
                None => None::<Seq<u8>>,
            }) {
                Some(bytes) => r is Ok && final(self).spec_buffer() == old(self).spec_buffer()
                    + bytes,
                None => r is Err && r->Err_0@ == spec_items_err(
                    items@,
                    *inner_type,
                    ir_program.resources@,
                    0,
                ),
            },
            old(self).spec_buffer().is_prefix_of(final(self).spec_buffer()),
        decreases *items, 2int,
    {
        let ghost rs = ir_program.resources@;
        let ghost t = *inner_type;
        self.write_len_prefix(items.len());
        let ghost start = old(self).spec_buffer();
        let ghost acc0 = spec_len_prefix(items@.len() as int);
        let ghost full = spec_encode_items(items@, t, rs, 0);
        let mut i: usize = 0;
        let ghost mut acc: Seq<u8> = Seq::empty();
        while i < items.len()
            invariant
                0 <= i <= items@.len(),
                t == *inner_type,
                rs == ir_program.resources@,
                full == spec_encode_items(items@, t, rs, 0),
                start == old(self).spec_buffer(),
                acc0 == spec_len_prefix(items@.len() as int),
                self.spec_buffer() == start + acc0 + acc,
                match spec_encode_items(items@, t, rs, i as int) {
                    Some(rest) => full == Some(acc + rest),
                    None => full is None,
                },
                spec_items_err(items@, t, rs, 0) == spec_items_err(items@, t, rs, i as int),
            decreases items@.len() - i,
        {
            let ghost pre = self.spec_buffer();
            match self.encode_value(&items[i], inner_type, ir_program) {
                Ok(()) => {
                    proof {
                        let b = spec_encode_value(items@[i as int], t, rs)->0;
                        let old_acc = acc;
                        acc = acc + b;
                        assert(self.spec_buffer() =~= start + acc0 + acc);
                        if spec_encode_items(items@, t, rs, i + 1) is Some {
                            let rest = spec_encode_items(items@, t, rs, i + 1)->0;
                            assert(spec_encode_items(items@, t, rs, i as int) == Some(b + rest));
                            assert(old_acc + (b + rest) =~= acc + rest);
                        }
                    }
                },
                Err(e) => {
                    return Err(e);
                },
            }
            i = i + 1;
        }
        proof {
            assert(spec_encode_items(items@, t, rs, items@.len() as int) == Some(
                Seq::<u8>::empty(),
            ));
            assert(acc + Seq::<u8>::empty() =~= acc);
            assert(start + acc0 + acc =~= start + (acc0 + acc));
        }
        Ok(())
    }

    /// Encode a resource body: the fields' encodings in declaration order,
    /// after checking strict positional correspondence of the field counts.
    fn encode_resource(
        &mut self,
        fields: &Vec<FieldValue>,
        resource_idx: usize,
        ir_program: &IRProgram,
    ) -> (r: Result<(), String>)
        ensures
            match (if resource_idx < ir_program.resources@.len() && fields@.len()
                == ir_program.resources@[resource_idx as int].fields@.len() {
                spec_encode_fields(
                    fields@,
                    ir_program.resources@[resource_idx as int].fields@,
                    ir_program.resources@,
                    0,
                )
            } else {
                None::<Seq<u8>>
            }) {
                Some(bytes) => r is Ok && final(self).spec_buffer() == old(self).spec_buffer()
                    + bytes,
                None => r is Err,
            },
            old(self).spec_buffer().is_prefix_of(final(self).spec_buffer()),
            resource_idx >= ir_program.resources@.len() ==> r is Err && r->Err_0@
                == spec_index_message(resource_idx as int) && final(self).spec_buffer() == old(
                self,
            ).spec_buffer(),
            (resource_idx < ir_program.resources@.len() && fields@.len()
                != ir_program.resources@[resource_idx as int].fields@.len()) ==> r is Err
                && r->Err_0@ == spec_count_mismatch_message(
                ir_program.resources@[resource_idx as int].name@,
                ir_program.resources@[resource_idx as int].fields@.len() as int,
                fields@.len() as int,
            ) && final(self).spec_buffer() == old(self).spec_buffer(),
            (resource_idx < ir_program.resources@.len() && fields@.len()
                == ir_program.resources@[resource_idx as int].fields@.len() && spec_encode_fields(
                fields@,
                ir_program.resources@[resource_idx as int].fields@,
                ir_program.resources@,
                0,
            ) is None) ==> r is Err && r->Err_0@ == spec_fields_err(
                fields@,
                ir_program.resources@[resource_idx as int].fields@,
                ir_program.resources@,
                0,
            ),
        decreases *fields, 2int,
    {
        if resource_idx >= ir_program.resources.len() {
            let mut msg = "Invalid resource index: ".to_owned();
            let num = usize_to_string(resource_idx);
            msg.append(num.as_str());
            return Err(msg);
        }
        let ir_resource = &ir_program.resources[resource_idx];
        if fields.len() != ir_resource.fields.len() {
            let mut msg = "Field count mismatch: expected ".to_owned();
            let expected = usize_to_string(ir_resource.fields.len());
            msg.append(expected.as_str());
            msg.append(" fields for resource '");
            msg.append(ir_resource.name.as_str());
            msg.append("', got ");
            let got = usize_to_string(fields.len());
            msg.append(got.as_str());
            return Err(msg);
        }
        let ghost rs = ir_program.resources@;
        let ghost flds = ir_resource.fields@;
        let ghost start = old(self).spec_buffer();
        let ghost full = spec_encode_fields(fields@, flds, rs, 0);
        let mut i: usize = 0;
        let ghost mut acc: Seq<u8> = Seq::empty();
        while i < fields.len()
            invariant
                0 <= i <= fields@.len(),
                rs == ir_program.resources@,
                resource_idx < ir_program.resources@.len(),
                flds == ir_program.resources@[resource_idx as int].fields@,
                fields@.len() == flds.len(),
                full == spec_encode_fields(fields@, flds, rs, 0),
                start == old(self).spec_buffer(),
                self.spec_buffer() == start + acc,
                match spec_encode_fields(fields@, flds, rs, i as int) {
                    Some(rest) => full == Some(acc + rest),
                    None => full is None,
                },
                spec_fields_err(fields@, flds, rs, 0) == spec_fields_err(fields@, flds, rs, i as int),
            decreases fields@.len() - i,
        {
            match self.encode_field(&fields[i], &ir_program.resources[resource_idx].fields[i],
                ir_program) {
                Ok(()) => {
                    proof {
                        let b = spec_encode_field(fields@[i as int], flds[i as int], rs)->0;
                        let old_acc = acc;
                        acc = acc + b;
                        assert(self.spec_buffer() =~= start + acc);
                        if spec_encode_fields(fields@, flds, rs, i + 1) is Some {
                            let rest = spec_encode_fields(fields@, flds, rs, i + 1)->0;
                            assert(spec_encode_fields(fields@, flds, rs, i as int) == Some(
                                b + rest,
                            ));
                            assert(old_acc + (b + rest) =~= acc + rest);
                        }
                    }
                },
                Err(e) => {
                    return Err(e);
                },
            }
            i = i + 1;
        }
        proof {
            assert(spec_encode_fields(fields@, flds, rs, fields@.len() as int) == Some(
                Seq::<u8>::empty(),
            ));
            assert(acc + Seq::<u8>::empty() =~= acc);
        }
        Ok(())
    }
}

/// Renders the type-mismatch error, naming the offending value and the
/// expected type.
fn mismatch_message(value: &Value, ir_type: &IRType) -> (r: String)
    ensures
        r@ == spec_mismatch_message(*value, *ir_type),
{
    let mut msg = "Type mismatch: value ".to_owned();
    let vd = value_desc(value);
    msg.append(vd.as_str());
    msg.append(" does not match type ");
    let td = type_desc(ir_type);
    msg.append(td.as_str());
    msg
}

fn value_desc(value: &Value) -> (r: String)
    ensures
        r@ == spec_value_desc(*value),
{
    match value {
        Value::String(s) => {
            let mut d = "string \"".to_owned();
            d.append(s.as_str());
            d.append("\"");
            d
        },
        Value::Number(n) => {
            let mut d = "number ".to_owned();
            let num = i64_to_string(*n);
            d.append(num.as_str());
            d
        },
        Value::Bool(b) => {
            if *b {
                "bool true".to_owned()
            } else {
                "bool false".to_owned()
            }
        },
        Value::List(_) => "list".to_owned(),
        Value::Resource(_) => "resource".to_owned(),
        Value::Null => "null".to_owned(),
        Value::Absent => "absent".to_owned(),
    }
}

fn type_desc(ir_type: &IRType) -> (r: String)
    ensures
        r@ == spec_type_desc(*ir_type),
    decreases *ir_type,
{
    match ir_type {
        IRType::Primitive(p) => p.clone(),
        IRType::ResourceRef(i) => {
            let mut d = "resource ".to_owned();
            let num = usize_to_string(*i);
            d.append(num.as_str());
            d
        },
        IRType::List(inner) => {
            let mut d = "list ".to_owned();
            let inner_desc = type_desc(inner);
            d.append(inner_desc.as_str());
            d
        },
    }
}

} // verus!
