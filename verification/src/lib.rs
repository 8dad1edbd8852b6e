//! A verified loader for ROM catalog metadata ("DAT" files): a streaming XML
//! parser that folds a flat event stream into an in-memory catalog, together
//! with the small pieces of decision logic around it (file selection,
//! directory validation, argument handling).

use vstd::prelude::*;

pub mod dat;
pub mod laws;
pub mod xml;

verus! {

/// The three directory paths the surrounding program works with.
#[derive(Debug)]
pub struct Config {
    pub dat_path: String,
    pub work_path: String,
    pub archive_path: String,
}

impl Config {
    /// Builds a configuration from the raw argument list: the program name
    /// followed by exactly three directory paths.
    pub fn build(args: &[String]) -> (r: Result<Config, &'static str>)
        ensures
            args@.len() == 4 ==> (r matches Ok(c)
                && c.dat_path@ == args@[1]@
                && c.work_path@ == args@[2]@
                && c.archive_path@ == args@[3]@),
            args@.len() != 4 ==> (r matches Err(m) && m@ == "invalid number of arguments"@),
    {
        if args.len() != 4 {
            return Err("invalid number of arguments");
        }
        let dat_path = args[1].clone();
        let work_path = args[2].clone();
        let archive_path = args[3].clone();
        Ok(Config { dat_path, work_path, archive_path })
    }
}

/// Why a directory path was rejected.
#[derive(Debug, PartialEq, Eq, Structural)]
pub enum DirError {
    /// The path does not exist.
    Missing,
    /// The path exists but is not a directory.
    NotADirectory,
}

/// Decides whether a path may be scanned, from the two facts the caller
/// observed about it: whether it exists and whether it is a directory.
pub fn validate_directory(exists: bool, is_dir: bool) -> (r: Result<(), DirError>)
    ensures
        !exists ==> r == Result::<(), DirError>::Err(DirError::Missing),
        exists && !is_dir ==> r == Result::<(), DirError>::Err(DirError::NotADirectory),
        exists && is_dir ==> r is Ok,
{
    if !exists {
        return Err(DirError::Missing);
    }
    if !is_dir {
        return Err(DirError::NotADirectory);
    }
    Ok(())
}

/// The suffix that marks a catalog file: the bytes of `.dat`.
pub open spec fn dat_suffix() -> Seq<u8> {
    seq![46u8, 100u8, 97u8, 116u8]
}

/// Whether a file name selects the file for scanning: it ends in the catalog
/// suffix and has a non-empty stem before it (so a bare `.dat` is not one).
pub open spec fn dat_file_name(s: Seq<u8>) -> bool {
    s.len() > 4 && s.subrange(s.len() - 4, s.len() as int) == dat_suffix()
}

/// Decides whether a file name (as bytes) names a catalog file.
pub fn is_dat_name(name: &[u8]) -> (r: bool)
    ensures
        r == dat_file_name(name@),
{
    let n: usize = name.len();
    if n < 5 {
        return false;
    }
    let r = name[n - 4] == 46 && name[n - 3] == 100 && name[n - 2] == 97 && name[n - 1] == 116;
    proof {
        let suf = name@.subrange(n - 4, n as int);
        assert(suf[0] == name@[n - 4] && suf[1] == name@[n - 3] && suf[2] == name@[n - 2]
            && suf[3] == name@[n - 1]);
        if r {
            assert(suf =~= dat_suffix());
        }
    }
    r
}

} // verus!
