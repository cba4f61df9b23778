//! Options the command-line front end hands to the compiler. Paths are kept
//! as plain strings here; the front end turns them into filesystem paths.
use vstd::prelude::*;

verus! {

#[derive(Debug)]
pub struct CliOptions {
    pub input_file: String,
    pub output_dir: String,
    pub verbose: bool,
}

impl Clone for CliOptions {
    fn clone(&self) -> (res: Self)
        ensures
            res.input_file == self.input_file,
            res.output_dir == self.output_dir,
            res.verbose == self.verbose,
    {
        CliOptions {
            input_file: self.input_file.clone(),
            output_dir: self.output_dir.clone(),
            verbose: self.verbose,
        }
    }
}

impl Default for CliOptions {
    fn default() -> (r: Self)
        ensures
            r.input_file@ == "schema.pr"@,
            r.output_dir@ == "./generated"@,
            !r.verbose,
    {
        CliOptions {
            input_file: "schema.pr".to_owned(),
            output_dir: "./generated".to_owned(),
            verbose: false,
        }
    }
}

} // verus!
