//! How the name of an input file tells whether the file is compressed.

use vstd::prelude::*;
use vstd::string::StrSliceExecFns;

verus! {

/// The ending of the names of compressed files: the three characters `.gz`.
pub open spec fn gzip_suffix() -> Seq<char> {
    seq!['.', 'g', 'z']
}

/// Whether a file of this name is to be read as gzip-compressed: its name
/// ends in `.gz`.
pub fn is_gzip_path(path: &str) -> (compressed: bool)
    ensures
        compressed == gzip_suffix().is_suffix_of(path@),
{
    let n = path.unicode_len();
    if n < 3 {
        return false;
    }
    let found = path.get_char(n - 3) == '.' && path.get_char(n - 2) == 'g' && path.get_char(n - 1)
        == 'z';
    proof {
        let end = path@.subrange(n - 3, n as int);
        if found {
            assert(end =~= gzip_suffix());
        } else {
            assert(end[0] == path@[n - 3] && end[1] == path@[n - 2] && end[2] == path@[n - 1]);
        }
    }
    found
}

} // verus!
