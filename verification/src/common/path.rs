//! File paths as text, with `/` between components.

use crate::common::text::{concat2, concat3};
use vstd::prelude::*;
use vstd::string::*;

verus! {

/// `name` in the directory `root`.
pub open spec fn joined(root: Seq<char>, name: Seq<char>) -> Seq<char> {
    if root.len() == 0 {
        name
    } else if root.last() == '/' {
        root + name
    } else {
        root + "/"@ + name
    }
}

/// `name`, a relative path, in the directory `root`.
pub fn join_path(root: &str, name: &str) -> (p: String)
    ensures
        p@ == joined(root@, name@),
{
    let n: usize = root.unicode_len();
    if n == 0 {
        name.to_owned()
    } else if root.get_char(n - 1) == '/' {
        concat2(root, name)
    } else {
        concat3(root, "/", name)
    }
}

/// A path in a directory is the directory, one slash, and the name: no slash is
/// added where the directory ends in one, and none before a name without a
/// directory.
pub proof fn path_has_one_slash_before_the_name(root: Seq<char>, name: Seq<char>)
    ensures
        root.len() == 0 ==> joined(root, name) == name,
        root.len() > 0 ==> {
            let dir = joined(root, name).take(joined(root, name).len() - name.len());
            &&& joined(root, name) == dir + name
            &&& dir.last() == '/'
            &&& dir == root || dir == root.push('/')
            &&& root.last() == '/' ==> dir == root
        },
{
    reveal_strlit("/");
    if root.len() > 0 {
        let path = joined(root, name);
        let dir = path.take(path.len() - name.len());
        assert(path =~= dir + name);
        if root.last() == '/' {
            assert(dir =~= root);
        } else {
            assert(dir =~= root.push('/'));
        }
    }
}

} // verus!
