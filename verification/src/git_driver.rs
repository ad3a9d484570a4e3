//! Argument handling for running the tool as a version-control diff driver,
//! which calls it as: tool old-file old-hex old-mode new-file new-hex
//! new-mode.

use vstd::prelude::*;

verus! {

/// The seven positional arguments a version-control diff driver receives,
/// after the program name.
#[derive(Debug)]
pub struct GitDriverArgs {
    pub old_file: String,
    pub old_hex: String,
    pub old_mode: String,
    pub new_file: String,
    pub new_hex: String,
    pub new_mode: String,
}

impl GitDriverArgs {
    /// Reads the six driver arguments following the program name; fewer than
    /// seven arguments are rejected.
    pub fn parse(args: &[String]) -> (r: Option<GitDriverArgs>)
        ensures
            match r {
                Some(a) => args@.len() >= 7 && a.old_file@ == args@[1]@ && a.old_hex@ == args@[2]@
                    && a.old_mode@ == args@[3]@ && a.new_file@ == args@[4]@ && a.new_hex@
                    == args@[5]@ && a.new_mode@ == args@[6]@,
                None => args@.len() < 7,
            },
    {
        if args.len() < 7 {
            return None;
        }
        Some(
            GitDriverArgs {
                old_file: vstd::slice::slice_index_get(args, 1).clone(),
                old_hex: vstd::slice::slice_index_get(args, 2).clone(),
                old_mode: vstd::slice::slice_index_get(args, 3).clone(),
                new_file: vstd::slice::slice_index_get(args, 4).clone(),
                new_hex: vstd::slice::slice_index_get(args, 5).clone(),
                new_mode: vstd::slice::slice_index_get(args, 6).clone(),
            },
        )
    }
}

} // verus!
