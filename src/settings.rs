//! The command line's values, and the configuration of one scan made from
//! them.
use vstd::prelude::*;

use crate::error::ScanError;

verus! {

/// The values given on the command line.
#[derive(Debug)]
pub struct Args {
    /// Interactive mode.
    pub interactive: bool,
    /// Root of the NTFS path; required unless the mode is interactive.
    pub root_dir: Option<String>,
    /// Path of an output CSV file.
    pub output_file: Option<String>,
    /// Print the program's progress.
    pub verbose: bool,
    /// Stream names to leave out.
    pub exclude_list: Vec<String>,
}

/// The configuration of one scan; it does not change while the scan runs.
#[derive(Debug)]
pub struct ParserSettings {
    root_dir: String,
    exclude_list: Vec<String>,
    verbose: bool,
}

impl ParserSettings {
    pub closed spec fn spec_root_dir(&self) -> Seq<char> {
        self.root_dir@
    }

    pub closed spec fn spec_exclude_list(&self) -> Seq<String> {
        self.exclude_list@
    }

    pub closed spec fn spec_verbose(&self) -> bool {
        self.verbose
    }

    /// Takes the scan's configuration from the command line; the root
    /// directory must have been given.
    pub fn from_args(args: Args) -> (r: Result<ParserSettings, ScanError>)
        ensures
            r is Ok <==> args.root_dir is Some,
            r matches Ok(s) ==> s.spec_root_dir() == args.root_dir.unwrap()@
                && s.spec_exclude_list() == args.exclude_list@ && s.spec_verbose() == args.verbose,
            r matches Err(e) ==> e == ScanError::Config,
    {
        match args.root_dir {
            Some(root_dir) => Ok(
                ParserSettings { root_dir, exclude_list: args.exclude_list, verbose: args.verbose },
            ),
            None => Err(ScanError::Config),
        }
    }

    pub fn root_dir(&self) -> (r: &String)
        ensures
            r@ == self.spec_root_dir(),
    {
        &self.root_dir
    }

    pub fn exclude_list(&self) -> (r: &Vec<String>)
        ensures
            r@ == self.spec_exclude_list(),
    {
        &self.exclude_list
    }

    pub fn verbose(&self) -> (r: bool)
        ensures
            r == self.spec_verbose(),
    {
        self.verbose
    }
}

} // verus!
