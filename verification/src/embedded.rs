//! Where the bundled mprime and its libgmp land when they are unpacked into
//! a temporary directory.
use crate::text;
use vstd::prelude::*;

verus! {

/// `dir` joined with a relative `name`, as `Path::join` does on Unix: a
/// separator is added unless `dir` is empty or already ends in one.
pub open spec fn path_join(dir: Seq<char>, name: Seq<char>) -> Seq<char> {
    if dir.len() == 0 || dir.last() == '/' {
        dir + name
    } else {
        dir + seq!['/'] + name
    }
}

/// `Path::join` for a relative name.
pub fn join_path(dir: &str, name: &str) -> (p: String)
    ensures
        p@ == path_join(dir@, name@),
{
    let mut v = text::chars_of(dir);
    let n = v.len();
    if n > 0 && v[n - 1] != '/' {
        v.push('/');
    }
    text::push_str(&mut v, name);
    proof {
        if n > 0 && dir@.last() != '/' {
            assert(v@ =~= dir@ + seq!['/'] + name@);
        } else {
            assert(v@ =~= dir@ + name@);
        }
    }
    text::string_from_chars(&v)
}

/// The name of the temporary directory for one run: `core-probe-` and a
/// random suffix.
pub fn temp_dir_name(suffix: &str) -> (name: String)
    ensures
        name@ == "core-probe-"@ + suffix@,
{
    let mut v = text::lit("core-probe-");
    text::push_str(&mut v, suffix);
    text::string_from_chars(&v)
}

/// Paths to the unpacked binaries.
#[derive(Debug, Clone)]
pub struct ExtractedBinaries {
    /// The temporary directory that holds everything.
    pub temp_dir: String,
    /// The mprime executable.
    pub mprime_path: String,
    /// The directory of the libgmp shared libraries.
    pub lib_dir: String,
}

impl ExtractedBinaries {
    /// The layout inside `temp_dir`: `mprime` at its top, the libraries in
    /// `lib`.
    pub fn in_dir(temp_dir: String) -> (b: ExtractedBinaries)
        ensures
            b.temp_dir@ == temp_dir@,
            b.mprime_path@ == path_join(temp_dir@, "mprime"@),
            b.lib_dir@ == path_join(temp_dir@, "lib"@),
    {
        let mprime_path = join_path(temp_dir.as_str(), "mprime");
        let lib_dir = join_path(temp_dir.as_str(), "lib");
        ExtractedBinaries { temp_dir, mprime_path, lib_dir }
    }
}

} // verus!
