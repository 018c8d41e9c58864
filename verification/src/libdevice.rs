//! Picking the math library out of the toolchain's directory listing.

use vstd::prelude::*;
use vstd::string::*;

verus! {

/// The file name has the extension `bc`: it ends in `.bc`, and something
/// stands before the dot.
pub open spec fn is_bitcode_name(name: Seq<char>) -> bool {
    &&& name.len() > 3
    &&& name[name.len() - 3] == '.'
    &&& name[name.len() - 2] == 'b'
    &&& name[name.len() - 1] == 'c'
}

/// Whether a file of this name holds bitcode, going by its extension.
pub fn has_bitcode_extension(name: &str) -> (b: bool)
    ensures
        b == is_bitcode_name(name@),
{
    let len: usize = name.unicode_len();
    len > 3 && name.get_char(len - 3) == '.' && name.get_char(len - 2) == 'b' && name.get_char(
        len - 1,
    ) == 'c'
}

/// Finds the math library among the entries of the toolchain's library
/// directory: the position of the first name with the extension `bc`, in the
/// order in which the directory listed them; `None` when it holds none.
pub fn find_libdevice(names: &Vec<String>) -> (r: Option<usize>)
    ensures
        match r {
            Some(i) => i < names@.len() && is_bitcode_name(names@[i as int]@) && forall|j: int|
                0 <= j < i ==> !is_bitcode_name((#[trigger] names@[j])@),
            None => forall|j: int| 0 <= j < names@.len() ==> !is_bitcode_name((#[trigger] names@[j])@),
        },
{
    let mut i: usize = 0;
    while i < names.len()
        invariant
            i <= names.len(),
            forall|j: int| 0 <= j < i ==> !is_bitcode_name((#[trigger] names@[j])@),
        decreases names.len() - i,
    {
        if has_bitcode_extension(names[i].as_str()) {
            return Some(i);
        }
        i += 1;
    }
    None
}

} // verus!
