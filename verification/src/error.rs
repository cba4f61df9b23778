//! Error reporting with optional file and location context.
use vstd::prelude::*;
use vstd::string::StringExecFns;

use crate::text::{spec_decimal, usize_to_string};

verus! {

/// A compile error: a message, optionally tied to a file and a position.
#[derive(Debug)]
pub struct CompileError {
    pub message: String,
    pub file: Option<String>,
    pub line: Option<usize>,
    pub column: Option<usize>,
}

/// The rendered text of a compile error.
pub open spec fn spec_error_text(e: CompileError) -> Seq<char> {
    match e.file {
        Some(f) => {
            let head = "Error in "@ + f@;
            let with_loc = match (e.line, e.column) {
                (Some(l), Some(c)) => head + " at line "@ + spec_decimal(l as int) + ", column "@
                    + spec_decimal(c as int),
                (Some(l), None) => head + " at line "@ + spec_decimal(l as int),
                _ => head,
            };
            with_loc + ": "@ + e.message@
        },
        None => "Error: "@ + e.message@,
    }
}

impl CompileError {
    pub fn new(message: String) -> (r: Self)
        ensures
            r.message == message,
            r.file is None,
            r.line is None,
            r.column is None,
    {
        CompileError { message, file: None, line: None, column: None }
    }

    pub fn with_file(self, file: String) -> (r: Self)
        ensures
            r.message == self.message,
            r.file == Some(file),
            r.line == self.line,
            r.column == self.column,
    {
        CompileError { file: Some(file), ..self }
    }

    pub fn with_location(self, line: usize, column: usize) -> (r: Self)
        ensures
            r.message == self.message,
            r.file == self.file,
            r.line == Some(line),
            r.column == Some(column),
    {
        CompileError { line: Some(line), column: Some(column), ..self }
    }

    /// Render the error as one line of text.
    pub fn format(&self) -> (r: String)
        ensures
            r@ == spec_error_text(*self),
    {
        let mut msg = String::new();
        match &self.file {
            Some(file) => {
                msg.append("Error in ");
                msg.append(file.as_str());
                match (&self.line, &self.column) {
                    (Some(line), Some(col)) => {
                        msg.append(" at line ");
                        let l = usize_to_string(*line);
                        msg.append(l.as_str());
                        msg.append(", column ");
                        let c = usize_to_string(*col);
                        msg.append(c.as_str());
                    },
                    (Some(line), None) => {
                        msg.append(" at line ");
                        let l = usize_to_string(*line);
                        msg.append(l.as_str());
                    },
                    _ => {},
                }
                msg.append(": ");
            },
            None => {
                msg.append("Error: ");
            },
        }
        msg.append(self.message.as_str());
        msg
    }
}

impl Clone for CompileError {
    fn clone(&self) -> (res: Self)
        ensures
            res.message == self.message,
            res.file == self.file,
            res.line == self.line,
            res.column == self.column,
    {
        CompileError {
            message: self.message.clone(),
            file: match &self.file {
                Some(f) => Some(f.clone()),
                None => None,
            },
            line: self.line,
            column: self.column,
        }
    }
}

} // verus!
