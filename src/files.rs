//! Which files of a searched folder are taken as acts.
use vstd::prelude::*;
use crate::text::{chars_of, seq_ends_with, vec_ends_with};

verus! {

/// A workbook worth reading: not an office lock file (those start with `~`), and
/// with the `.xlsm` extension.
pub open spec fn is_candidate_name(name: Seq<char>) -> bool {
    !(name.len() > 0 && name[0] == '~') && seq_ends_with(name, ".xlsm"@)
}

/// Whether a file name is that of a workbook to read.
pub fn is_candidate_file_name(name: &str) -> (r: bool)
    ensures
        r == is_candidate_name(name@),
{
    let cs = chars_of(name);
    if cs.len() > 0 && cs[0] == '~' {
        return false;
    }
    let ext = chars_of(".xlsm");
    vec_ends_with(&cs, &ext)
}

/// Whether a path, taken relative to the searched folder, is marked for exclusion:
/// a file or folder whose name holds `@` is left out.
pub fn is_excluded_path(relative_path: &str) -> (r: bool)
    ensures
        r == relative_path@.contains('@'),
{
    let cs = chars_of(relative_path);
    let mut i: usize = 0;
    while i < cs.len()
        invariant
            cs@ == relative_path@,
            i <= cs@.len(),
            forall|j: int| 0 <= j < i ==> cs@[j] != '@',
        decreases cs@.len() - i,
    {
        if cs[i] == '@' {
            return true;
        }
        i += 1;
    }
    false
}

} // verus!
