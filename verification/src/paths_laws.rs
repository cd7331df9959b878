//! What holds of every path that is put together.

use vstd::prelude::*;

use crate::paths;

verus! {

/// A file in a directory is the directory, one slash between them and the file; a
/// directory that ends in a slash gets no second one, and none at all stands for where
/// one is.
pub proof fn one_slash_stands_between(directory: Seq<u8>, name: Seq<u8>)
    requires
        name.len() == 0 || name[0] != 47,
    ensures
        directory.len() > 0 && directory.last() != 47 ==> paths::joined_path(directory, name)
            == directory + seq![47u8] + name,
        directory.len() > 0 && directory.last() == 47 ==> paths::joined_path(directory, name)
            == directory + name,
        directory.len() == 0 ==> paths::joined_path(directory, name) == name,
        directory.is_prefix_of(paths::joined_path(directory, name)),
        paths::joined_path(directory, name).len() >= name.len() && paths::joined_path(
            directory,
            name,
        ).skip(paths::joined_path(directory, name).len() - name.len()) == name,
{
    let whole = paths::joined_path(directory, name);
    if directory.len() > 0 && directory.last() != 47 {
        assert(whole =~= directory + seq![47u8] + name);
    }
    assert(directory.len() == 0 ==> whole =~= name);
    assert(whole.subrange(0, directory.len() as int) =~= directory);
    assert(whole.skip(whole.len() - name.len()) =~= name);
}

/// A path that starts at the root stays what it is, whatever it is put under.
pub proof fn roots_stay_roots(directory: Seq<u8>, name: Seq<u8>)
    requires
        name.len() > 0,
        name[0] == 47,
    ensures
        paths::joined_path(directory, name) == name,
{
}

/// Two files of a directory have two paths.
pub proof fn files_have_their_own_paths(directory: Seq<u8>, one: Seq<u8>, other: Seq<u8>)
    requires
        one != other,
        one.len() == 0 || one[0] != 47,
        other.len() == 0 || other[0] != 47,
    ensures
        paths::joined_path(directory, one) != paths::joined_path(directory, other),
{
    one_slash_stands_between(directory, one);
    one_slash_stands_between(directory, other);
    let a = paths::joined_path(directory, one);
    let b = paths::joined_path(directory, other);
    if a == b {
        assert(a.len() - one.len() == b.len() - other.len());
        assert(one =~= other);
    }
}

} // verus!
