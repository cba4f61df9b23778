//! Renderers for the two downstream consumers: a decode-oriented TypeScript
//! client and an encode-oriented Rust server, both rendered from the IR.
//! The text they produce is an external artifact: the wire-format contract
//! lives in the encoder, not here, so these functions carry no promises
//! about the rendered text beyond not failing.
use vstd::prelude::*;
use vstd::string::{StrSliceExecFns, StringExecFns};

use crate::cycles::{spec_ir_refs_ok, spec_type_refs_ok};
use crate::ir::{IRField, IRProgram, IRResource, IRType};

verus! {

/// Generated code output containing client and server code.
#[derive(Debug)]
pub struct GeneratedCode {
    pub typescript_client: String,
    pub rust_server: String,
}

/// Code generator for the TypeScript client and the Rust server.
pub struct CodeGenerator {
    ir: IRProgram,
}

impl CodeGenerator {
    pub closed spec fn spec_ir(&self) -> IRProgram {
        self.ir
    }

    pub fn new(ir: IRProgram) -> (r: Self)
        ensures
            r.spec_ir() == ir,
    {
        CodeGenerator { ir }
    }

    /// Generate both client and server code. Requires the IR invariant that
    /// every resource reference is a valid index, which the resolver
    /// guarantees of any IR it produces.
    pub fn generate(&self) -> (r: GeneratedCode)
        requires
            spec_ir_refs_ok(self.spec_ir()),
    {
        GeneratedCode {
            typescript_client: self.generate_typescript_client(),
            rust_server: self.generate_rust_server(),
        }
    }

    fn generate_typescript_client(&self) -> String
        requires
            spec_ir_refs_ok(self.spec_ir()),
    {
        let mut code = String::new();
        code.append("// Generated by Previous Compiler\n");
        code.append("// DO NOT EDIT - This file is auto-generated\n\n");
        code.append(self.generate_binary_reader().as_str());
        code.append("\n");
        let mut i: usize = 0;
        while i < self.ir.resources.len()
            invariant
                spec_ir_refs_ok(self.spec_ir()),
                self.ir == self.spec_ir(),
            decreases self.ir.resources@.len() - i,
        {
            proof {
                assert(self.ir.resources@[i as int] == self.spec_ir().resources@[i as int]);
            }
            let piece = self.generate_ts_resource(&self.ir.resources[i]);
            code.append(piece.as_str());
            code.append("\n");
            i = i + 1;
        }
        code
    }

    fn generate_binary_reader(&self) -> String {
        let mut code = String::new();
        code.append("class BinaryReader {\n");
        code.append("  private buffer: Uint8Array;\n");
        code.append("  private offset: number;\n\n");
        code.append("  constructor(buffer: Uint8Array) {\n");
        code.append("    this.buffer = buffer;\n");
        code.append("    this.offset = 0;\n");
        code.append("  }\n\n");
        code.append("  readString(): string {\n");
        code.append("    const length = this.readU32();\n");
        code.append("    const bytes = this.buffer.slice(this.offset, this.offset + length);\n");
        code.append("    this.offset += length;\n");
        code.append("    return new TextDecoder().decode(bytes);\n");
        code.append("  }\n\n");
        code.append("  readNumber(): number {\n");
        code.append("    const view = new DataView(this.buffer.buffer, this.offset, 8);\n");
        code.append("    const value = view.getBigInt64(0, true); // little-endian\n");
        code.append("    this.offset += 8;\n");
        code.append("    return Number(value);\n");
        code.append("  }\n\n");
        code.append("  readBool(): boolean {\n");
        code.append("    const value = this.buffer[this.offset];\n");
        code.append("    this.offset += 1;\n");
        code.append("    return value === 1;\n");
        code.append("  }\n\n");
        code.append("  readU32(): number {\n");
        code.append("    const view = new DataView(this.buffer.buffer, this.offset, 4);\n");
        code.append("    const value = view.getUint32(0, true); // little-endian\n");
        code.append("    this.offset += 4;\n");
        code.append("    return value;\n");
        code.append("  }\n\n");
        code.append("  readByte(): number {\n");
        code.append("    const value = this.buffer[this.offset];\n");
        code.append("    this.offset += 1;\n");
        code.append("    return value;\n");
        code.append("  }\n");
        code.append("}\n");
        code
    }

    fn generate_ts_resource(&self, resource: &IRResource) -> String
        requires
            spec_ir_refs_ok(self.spec_ir()),
            forall|j: int|
                0 <= j < resource.fields@.len() ==> spec_type_refs_ok(
                    (#[trigger] resource.fields@[j]).field_type,
                    self.spec_ir().resources@.len() as int,
                ),
    {
        let mut code = String::new();

        // Interface for the resource
        code.append("export interface I");
        code.append(resource.name.as_str());
        code.append(" {\n");
        let mut i: usize = 0;
        while i < resource.fields.len()
            invariant
                spec_ir_refs_ok(self.spec_ir()),
                forall|j: int|
                0 <= j < resource.fields@.len() ==> spec_type_refs_ok(
                    (#[trigger] resource.fields@[j]).field_type,
                    self.spec_ir().resources@.len() as int,
                ),
            decreases resource.fields@.len() - i,
        {
            let field = &resource.fields[i];
            let ts_type = self.ir_type_to_typescript(&field.field_type);
            code.append("  ");
            code.append(field.name.as_str());
            if field.optional || field.nullable {
                code.append("?");
            }
            code.append(": ");
            code.append(ts_type.as_str());
            code.append(";\n");
            i = i + 1;
        }
        code.append("}\n\n");

        // Decoder class
        code.append("export class ");
        code.append(resource.name.as_str());
        code.append(" {\n");
        code.append("  private reader: BinaryReader;\n");
        code.append("  private data: I");
        code.append(resource.name.as_str());
        code.append(";\n\n");
        code.append("  constructor(buffer: Uint8Array) {\n");
        code.append("    this.reader = new BinaryReader(buffer);\n");
        code.append("    this.data = {} as I");
        code.append(resource.name.as_str());
        code.append(";\n");
        code.append("    this.decode();\n");
        code.append("  }\n\n");
        code.append("  private decode(): void {\n");
        let mut j: usize = 0;
        while j < resource.fields.len()
            invariant
                spec_ir_refs_ok(self.spec_ir()),
                forall|j: int|
                0 <= j < resource.fields@.len() ==> spec_type_refs_ok(
                    (#[trigger] resource.fields@[j]).field_type,
                    self.spec_ir().resources@.len() as int,
                ),
            decreases resource.fields@.len() - j,
        {
            let piece = self.generate_ts_field_decode(&resource.fields[j]);
            code.append(piece.as_str());
            j = j + 1;
        }
        code.append("  }\n\n");

        // Getter methods
        let mut m: usize = 0;
        while m < resource.fields.len()
            invariant
                spec_ir_refs_ok(self.spec_ir()),
                forall|j: int|
                0 <= j < resource.fields@.len() ==> spec_type_refs_ok(
                    (#[trigger] resource.fields@[j]).field_type,
                    self.spec_ir().resources@.len() as int,
                ),
            decreases resource.fields@.len() - m,
        {
            let field = &resource.fields[m];
            let ts_type = self.ir_type_to_typescript(&field.field_type);
            code.append("  get");
            let capitalized = capitalize_first(&field.name);
            code.append(capitalized.as_str());
            code.append("(): ");
            code.append(ts_type.as_str());
            if field.optional || field.nullable {
                code.append(" | null | undefined");
            }
            code.append(" {\n");
            code.append("    return this.data.");
            code.append(field.name.as_str());
            code.append(";\n");
            code.append("  }\n\n");
            m = m + 1;
        }

        // toJSON method
        code.append("  toJSON(): I");
        code.append(resource.name.as_str());
        code.append(" {\n");
        code.append("    return this.data;\n");
        code.append("  }\n");
        code.append("}\n");
        code
    }

    fn generate_ts_field_decode(&self, field: &IRField) -> String
        requires
            spec_ir_refs_ok(self.spec_ir()),
            spec_type_refs_ok(field.field_type, self.spec_ir().resources@.len() as int),
    {
        let mut code = String::new();
        if field.optional {
            code.append("    const isPresent = this.reader.readByte();\n");
            code.append("    if (isPresent === 0) {\n");
            code.append("      this.data.");
            code.append(field.name.as_str());
            code.append(" = undefined;\n");
            code.append("    } else {\n");
            code.append("      this.data.");
            code.append(field.name.as_str());
            code.append(" = ");
            let read = self.generate_ts_type_read(&field.field_type, "      ");
            code.append(read.as_str());
            code.append(";\n");
            code.append("    }\n");
            return code;
        }
        if field.nullable {
            code.append("    const isNull = this.reader.readByte();\n");
            code.append("    if (isNull === 0) {\n");
            code.append("      this.data.");
            code.append(field.name.as_str());
            code.append(" = null;\n");
            code.append("    } else {\n");
            code.append("      this.data.");
            code.append(field.name.as_str());
            code.append(" = ");
            let read = self.generate_ts_type_read(&field.field_type, "      ");
            code.append(read.as_str());
            code.append(";\n");
            code.append("    }\n");
            return code;
        }
        code.append("    this.data.");
        code.append(field.name.as_str());
        code.append(" = ");
        let read = self.generate_ts_type_read(&field.field_type, "    ");
        code.append(read.as_str());
        code.append(";\n");
        code
    }

    fn generate_ts_type_read(&self, ir_type: &IRType, indent: &str) -> String
        requires
            spec_ir_refs_ok(self.spec_ir()),
            spec_type_refs_ok(*ir_type, self.spec_ir().resources@.len() as int),
        decreases *ir_type,
    {
        match ir_type {
            IRType::Primitive(p) => {
                if crate::text::str_eq(p.as_str(), "string") {
                    "this.reader.readString()".to_owned()
                } else if crate::text::str_eq(p.as_str(), "number") {
                    "this.reader.readNumber()".to_owned()
                } else if crate::text::str_eq(p.as_str(), "bool") {
                    "this.reader.readBool()".to_owned()
                } else {
                    "null".to_owned()
                }
            },
            IRType::List(inner) => {
                let inner_read = self.generate_ts_type_read(inner, indent);
                let mut code = String::new();
                code.append("(() => {\n");
                code.append(indent);
                code.append("  const count = this.reader.readU32();\n");
                code.append(indent);
                code.append("  const items = [];\n");
                code.append(indent);
                code.append("  for (let i = 0; i < count; i++) {\n");
                code.append(indent);
                code.append("    items.push(");
                code.append(inner_read.as_str());
                code.append(");\n");
                code.append(indent);
                code.append("  }\n");
                code.append(indent);
                code.append("  return items;\n");
                code.append(indent);
                code.append("})()");
                code
            },
            IRType::ResourceRef(idx) => {
                let mut code = String::new();
                code.append("new ");
                code.append(self.ir.resources[*idx].name.as_str());
                code.append("(this.reader.buffer.slice(this.reader.offset))");
                code
            },
        }
    }

    fn ir_type_to_typescript(&self, ir_type: &IRType) -> String
        requires
            spec_ir_refs_ok(self.spec_ir()),
            spec_type_refs_ok(*ir_type, self.spec_ir().resources@.len() as int),
        decreases *ir_type,
    {
        match ir_type {
            IRType::Primitive(p) => {
                if crate::text::str_eq(p.as_str(), "string") {
                    "string".to_owned()
                } else if crate::text::str_eq(p.as_str(), "number") {
                    "number".to_owned()
                } else if crate::text::str_eq(p.as_str(), "bool") {
                    "boolean".to_owned()
                } else {
                    "any".to_owned()
                }
            },
            IRType::List(inner) => {
                let mut code = self.ir_type_to_typescript(inner);
                code.append("[]");
                code
            },
            IRType::ResourceRef(idx) => {
                let mut code = String::new();
                code.append("I");
                code.append(self.ir.resources[*idx].name.as_str());
                code
            },
        }
    }

    fn generate_rust_server(&self) -> String
        requires
            spec_ir_refs_ok(self.spec_ir()),
    {
        let mut code = String::new();
        code.append("// Generated by Previous Compiler\n");
        code.append("// DO NOT EDIT - This file is auto-generated\n\n");
        code.append("use previous::{Value, FieldValue, BinaryEncoder, IRType, IRProgram};\n\n");
        let mut i: usize = 0;
        while i < self.ir.resources.len()
            invariant
                spec_ir_refs_ok(self.spec_ir()),
                self.ir == self.spec_ir(),
            decreases self.ir.resources@.len() - i,
        {
            proof {
                assert(self.ir.resources@[i as int] == self.spec_ir().resources@[i as int]);
            }
            let piece = self.generate_rust_resource(&self.ir.resources[i]);
            code.append(piece.as_str());
            code.append("\n");
            i = i + 1;
        }
        code
    }

    fn generate_rust_resource(&self, resource: &IRResource) -> String
        requires
            spec_ir_refs_ok(self.spec_ir()),
            forall|j: int|
                0 <= j < resource.fields@.len() ==> spec_type_refs_ok(
                    (#[trigger] resource.fields@[j]).field_type,
                    self.spec_ir().resources@.len() as int,
                ),
    {
        let mut code = String::new();

        // Struct definition
        code.append("#[derive(Debug, Clone)]\n");
        code.append("pub struct ");
        code.append(resource.name.as_str());
        code.append(" {\n");
        let mut i: usize = 0;
        while i < resource.fields.len()
            invariant
                spec_ir_refs_ok(self.spec_ir()),
                forall|j: int|
                0 <= j < resource.fields@.len() ==> spec_type_refs_ok(
                    (#[trigger] resource.fields@[j]).field_type,
                    self.spec_ir().resources@.len() as int,
                ),
            decreases resource.fields@.len() - i,
        {
            let field = &resource.fields[i];
            let rust_type = self.ir_type_to_rust(&field.field_type);
            code.append("    pub ");
            code.append(field.name.as_str());
            code.append(": ");
            if field.optional || field.nullable {
                code.append("Option<");
                code.append(rust_type.as_str());
                code.append(">");
            } else {
                code.append(rust_type.as_str());
            }
            code.append(",\n");
            i = i + 1;
        }
        code.append("}\n\n");

        // Implementation
        code.append("impl ");
        code.append(resource.name.as_str());
        code.append(" {\n");

        // Constructor
        code.append("    pub fn new() -> Self {\n");
        code.append("        ");
        code.append(resource.name.as_str());
        code.append(" {\n");
        let mut j: usize = 0;
        while j < resource.fields.len()
            invariant
                spec_ir_refs_ok(self.spec_ir()),
                forall|j: int|
                0 <= j < resource.fields@.len() ==> spec_type_refs_ok(
                    (#[trigger] resource.fields@[j]).field_type,
                    self.spec_ir().resources@.len() as int,
                ),
            decreases resource.fields@.len() - j,
        {
            let field = &resource.fields[j];
            code.append("            ");
            code.append(field.name.as_str());
            code.append(": ");
            if field.optional || field.nullable {
                code.append("None");
            } else {
                let default = self.rust_default_value(&field.field_type);
                code.append(default.as_str());
            }
            code.append(",\n");
            j = j + 1;
        }
        code.append("        }\n");
        code.append("    }\n\n");

        // Setter methods (builder pattern)
        let mut m: usize = 0;
        while m < resource.fields.len()
            invariant
                spec_ir_refs_ok(self.spec_ir()),
                forall|j: int|
                0 <= j < resource.fields@.len() ==> spec_type_refs_ok(
                    (#[trigger] resource.fields@[j]).field_type,
                    self.spec_ir().resources@.len() as int,
                ),
            decreases resource.fields@.len() - m,
        {
            let field = &resource.fields[m];
            let rust_type = self.ir_type_to_rust(&field.field_type);
            code.append("    pub fn ");
            code.append(field.name.as_str());
            code.append("(mut self, value: ");
            if field.optional || field.nullable {
                code.append("Option<");
                code.append(rust_type.as_str());
                code.append(">");
            } else {
                code.append(rust_type.as_str());
            }
            code.append(") -> Self {\n");
            code.append("        self.");
            code.append(field.name.as_str());
            code.append(" = value;\n");
            code.append("        self\n");
            code.append("    }\n\n");
            m = m + 1;
        }

        // Encode method
        code.append("    pub fn encode(&self, ir_program: &IRProgram) -> Result<Vec<u8>, String> {\n");
        code.append("        let value = self.to_value();\n");
        code.append("        let mut encoder = BinaryEncoder::new();\n");
        code.append("        let resource_idx = ir_program.get_resource_index(\"");
        code.append(resource.name.as_str());
        code.append("\").unwrap();\n");
        code.append(
            "        encoder.encode_value(&value, &IRType::ResourceRef(resource_idx), ir_program)?;\n",
        );
        code.append("        Ok(encoder.finish())\n");
        code.append("    }\n\n");

        // to_value method
        code.append("    fn to_value(&self) -> Value {\n");
        code.append("        Value::Resource(vec![\n");
        let mut v: usize = 0;
        while v < resource.fields.len()
            invariant
                spec_ir_refs_ok(self.spec_ir()),
                forall|j: int|
                0 <= j < resource.fields@.len() ==> spec_type_refs_ok(
                    (#[trigger] resource.fields@[j]).field_type,
                    self.spec_ir().resources@.len() as int,
                ),
            decreases resource.fields@.len() - v,
        {
            let field = &resource.fields[v];
            code.append("            FieldValue {\n");
            code.append("                name: \"");
            code.append(field.name.as_str());
            code.append("\".to_string(),\n");
            code.append("                value: ");
            let conversion = self.generate_rust_value_conversion(field);
            code.append(conversion.as_str());
            code.append(",\n");
            code.append("                is_optional: ");
            code.append(if field.optional {
                "true"
            } else {
                "false"
            });
            code.append(",\n");
            code.append("                is_nullable: ");
            code.append(if field.nullable {
                "true"
            } else {
                "false"
            });
            code.append(",\n");
            code.append("            },\n");
            v = v + 1;
        }
        code.append("        ])\n");
        code.append("    }\n");
        code.append("}\n");
        code
    }

    fn generate_rust_value_conversion(&self, field: &IRField) -> String
        requires
            spec_ir_refs_ok(self.spec_ir()),
            spec_type_refs_ok(field.field_type, self.spec_ir().resources@.len() as int),
    {
        if field.optional || field.nullable {
            // The wrapped field reads from a borrowed `v` instead of the
            // struct field, and collapses `None` into the wrapper's marker.
            let mut code = String::new();
            code.append("self.");
            code.append(field.name.as_str());
            code.append(".as_ref().map(|v| ");
            let inner = self.wrapped_value_conversion(&field.field_type);
            code.append(inner.as_str());
            code.append(").unwrap_or(Value::");
            code.append(if field.optional {
                "Absent"
            } else {
                "Null"
            });
            code.append(")");
            code
        } else {
            self.plain_value_conversion(&field.field_type, field)
        }
    }

    /// Conversion of a bare field value read directly from `self`.
    fn plain_value_conversion(&self, t: &IRType, field: &IRField) -> String
        requires
            spec_ir_refs_ok(self.spec_ir()),
            spec_type_refs_ok(*t, self.spec_ir().resources@.len() as int),
    {
        match t {
            IRType::Primitive(p) => {
                let mut code = String::new();
                if crate::text::str_eq(p.as_str(), "string") {
                    code.append("Value::String(self.");
                    code.append(field.name.as_str());
                    code.append(".clone())");
                } else if crate::text::str_eq(p.as_str(), "number") {
                    code.append("Value::Number(self.");
                    code.append(field.name.as_str());
                    code.append(")");
                } else if crate::text::str_eq(p.as_str(), "bool") {
                    code.append("Value::Bool(self.");
                    code.append(field.name.as_str());
                    code.append(")");
                } else {
                    code.append("Value::Null");
                }
                code
            },
            IRType::List(inner) => {
                let mut code = String::new();
                code.append("Value::List(self.");
                code.append(field.name.as_str());
                code.append(".iter().map(|item| ");
                let item = self.generate_list_item_conversion(inner);
                code.append(item.as_str());
                code.append(").collect())");
                code
            },
            IRType::ResourceRef(_) => {
                let mut code = String::new();
                code.append("self.");
                code.append(field.name.as_str());
                code.append(".to_value()");
                code
            },
        }
    }

    /// Conversion of a wrapped (optional or nullable) field value, reading
    /// from the borrowed `v` inside `as_ref().map(...)`.
    fn wrapped_value_conversion(&self, t: &IRType) -> String
        requires
            spec_ir_refs_ok(self.spec_ir()),
            spec_type_refs_ok(*t, self.spec_ir().resources@.len() as int),
    {
        match t {
            IRType::Primitive(p) => {
                if crate::text::str_eq(p.as_str(), "string") {
                    "Value::String(v.clone())".to_owned()
                } else if crate::text::str_eq(p.as_str(), "number") {
                    "Value::Number(*v)".to_owned()
                } else if crate::text::str_eq(p.as_str(), "bool") {
                    "Value::Bool(*v)".to_owned()
                } else {
                    "Value::Null".to_owned()
                }
            },
            IRType::List(inner) => {
                let mut code = String::new();
                code.append("Value::List(v.iter().map(|item| ");
                let item = self.generate_list_item_conversion(inner);
                code.append(item.as_str());
                code.append(").collect())");
                code
            },
            IRType::ResourceRef(_) => "v.to_value()".to_owned(),
        }
    }

    fn generate_list_item_conversion(&self, ir_type: &IRType) -> String {
        match ir_type {
            IRType::Primitive(p) => {
                if crate::text::str_eq(p.as_str(), "string") {
                    "Value::String(item.clone())".to_owned()
                } else if crate::text::str_eq(p.as_str(), "number") {
                    "Value::Number(*item)".to_owned()
                } else if crate::text::str_eq(p.as_str(), "bool") {
                    "Value::Bool(*item)".to_owned()
                } else {
                    "Value::Null".to_owned()
                }
            },
            IRType::List(_) => "item.clone()".to_owned(),
            IRType::ResourceRef(_) => "item.to_value()".to_owned(),
        }
    }

    fn ir_type_to_rust(&self, ir_type: &IRType) -> String
        requires
            spec_ir_refs_ok(self.spec_ir()),
            spec_type_refs_ok(*ir_type, self.spec_ir().resources@.len() as int),
        decreases *ir_type,
    {
        match ir_type {
            IRType::Primitive(p) => {
                if crate::text::str_eq(p.as_str(), "string") {
                    "String".to_owned()
                } else if crate::text::str_eq(p.as_str(), "number") {
                    "i64".to_owned()
                } else if crate::text::str_eq(p.as_str(), "bool") {
                    "bool".to_owned()
                } else {
                    "()".to_owned()
                }
            },
            IRType::List(inner) => {
                let mut code = String::new();
                code.append("Vec<");
                let inner_rust = self.ir_type_to_rust(inner);
                code.append(inner_rust.as_str());
                code.append(">");
                code
            },
            IRType::ResourceRef(idx) => self.ir.resources[*idx].name.clone(),
        }
    }

    fn rust_default_value(&self, ir_type: &IRType) -> String
        requires
            spec_ir_refs_ok(self.spec_ir()),
            spec_type_refs_ok(*ir_type, self.spec_ir().resources@.len() as int),
    {
        match ir_type {
            IRType::Primitive(p) => {
                if crate::text::str_eq(p.as_str(), "string") {
                    "String::new()".to_owned()
                } else if crate::text::str_eq(p.as_str(), "number") {
                    "0".to_owned()
                } else if crate::text::str_eq(p.as_str(), "bool") {
                    "false".to_owned()
                } else {
                    "()".to_owned()
                }
            },
            IRType::List(_) => "Vec::new()".to_owned(),
            IRType::ResourceRef(idx) => {
                let mut code = self.ir.resources[*idx].name.clone();
                code.append("::new()");
                code
            },
        }
    }
}

/// The field name with its first letter raised to uppercase, for getter
/// names.
fn capitalize_first(s: &String) -> String {
    if s.as_str().unicode_len() == 0 {
        return String::new();
    }
    let first = s.as_str().get_char(0);
    let n: u32 = first as u32;
    let upper: char = if 97 <= n && n <= 122 {
        ((n - 32) as u8) as char
    } else {
        first
    };
    let mut out = String::new();
    crate::text::push_char(&mut out, upper);
    let mut i: usize = 1;
    let len = s.as_str().unicode_len();
    while i < len
        invariant
            len == s@.len(),
            1 <= i,
        decreases len - i,
    {
        crate::text::push_char(&mut out, s.as_str().get_char(i));
        i = i + 1;
    }
    out
}

} // verus!
