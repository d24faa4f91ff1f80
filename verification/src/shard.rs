//! The layout of the index: where the file of a package lies.
//!
//! | length of the name | path                          |
//! |--------------------|-------------------------------|
//! | 1                  | `1/<name>`                    |
//! | 2                  | `2/<name>`                    |
//! | 3                  | `3/<name[0]>/<name>`          |
//! | 4 and more         | `<name[0:2]>/<name[2:4]>/<name>` |

use vstd::prelude::*;
use vstd::slice::slice_subrange;
use crate::list::{digit_dir, dir_one, dir_three, dir_two};
use crate::path::{copy_name, path_view};

verus! {

/// The path of the file of the package `name`, from the root of the index.
pub open spec fn shard_path(name: Seq<u8>) -> Seq<Seq<u8>> {
    if name.len() <= 1 {
        seq![dir_one(), name]
    } else if name.len() == 2 {
        seq![dir_two(), name]
    } else if name.len() == 3 {
        seq![dir_three(), name.subrange(0, 1), name]
    } else {
        seq![name.subrange(0, 2), name.subrange(2, 4), name]
    }
}

/// The path of the file of the package `name`, and `None` for the empty
/// name, which no package has.
pub fn shard(name: &[u8]) -> (r: Option<Vec<Vec<u8>>>)
    ensures
        match r {
            Some(path) => name@.len() > 0 && path_view(path@) == shard_path(name@),
            None => name@.len() == 0,
        },
{
    let n: usize = name.len();
    if n == 0 {
        return None;
    }
    let mut path: Vec<Vec<u8>> = Vec::new();
    if n == 1 {
        path.push(digit_dir(0x31));
    } else if n == 2 {
        path.push(digit_dir(0x32));
    } else if n == 3 {
        path.push(digit_dir(0x33));
        path.push(copy_name(slice_subrange(name, 0, 1)));
    } else {
        path.push(copy_name(slice_subrange(name, 0, 2)));
        path.push(copy_name(slice_subrange(name, 2, 4)));
    }
    path.push(copy_name(name));
    assert(path_view(path@) =~= shard_path(name@));
    Some(path)
}

} // verus!
