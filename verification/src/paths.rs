//! Spellings of checkout paths.

use vstd::prelude::*;
use crate::text::{from_range, owned, to_chars};
use crate::words::{matches_at, occurs_at};

verus! {

/// The path without the extended-length prefix `\\?\`.
pub open spec fn without_extended_prefix(path: Seq<char>) -> Seq<char> {
    if occurs_at(path, "\\\\?\\"@, 0) {
        path.skip("\\\\?\\"@.len() as int)
    } else {
        path
    }
}

/// The path without the extended-length prefix `\\?\`, which a process does not
/// take as its working directory.
pub fn strip_extended_prefix<'a>(path: &'a str) -> (bare: &'a str)
    ensures
        bare@ == without_extended_prefix(path@),
{
    let chars = to_chars(path);
    let prefix = to_chars("\\\\?\\");
    if matches_at(&chars, &prefix, 0) {
        let bare = path.substring_char(prefix.len(), path.unicode_len());
        proof {
            assert(bare@ =~= path@.skip(prefix@.len() as int));
        }
        bare
    } else {
        path
    }
}

/// The one spelling of a checkout's path: without the extended-length prefix, and
/// with a share's path absolute.
pub open spec fn normalized_project(path: Seq<char>) -> Seq<char> {
    let bare = without_extended_prefix(path);
    if occurs_at(bare, "UNC\\"@, 0) {
        "\\\\"@ + bare.skip("UNC\\"@.len() as int)
    } else {
        bare
    }
}

/// The one spelling of a checkout's path: `\\?\C:\x` is `C:\x`, and
/// `\\?\UNC\server\share\x` is `\\server\share\x`.
pub fn normalize_project(path: &str) -> (project: String)
    ensures
        project@ == normalized_project(path@),
{
    let bare = strip_extended_prefix(path);
    let chars = to_chars(bare);
    let share = to_chars("UNC\\");
    if matches_at(&chars, &share, 0) {
        let mut project = owned("\\\\");
        let rest = from_range(&chars, share.len(), chars.len());
        proof {
            assert(rest@ =~= chars@.skip(share@.len() as int));
        }
        project.append(rest.as_str());
        project
    } else {
        owned(bare)
    }
}

/// A normalized path is its own normal spelling, unless the prefix stood twice.
pub proof fn law_normalizing_twice_changes_nothing(path: Seq<char>)
    requires
        !occurs_at(without_extended_prefix(path), "\\\\?\\"@, 0),
        !occurs_at(normalized_project(path), "\\\\?\\"@, 0),
    ensures
        normalized_project(normalized_project(path)) == normalized_project(path),
{
    reveal_strlit("UNC\\");
    reveal_strlit("\\\\");
    let once = normalized_project(path);
    let bare = without_extended_prefix(path);
    if occurs_at(bare, "UNC\\"@, 0) && occurs_at(once, "UNC\\"@, 0) {
        assert(once[0] == once.subrange(0, 4)[0]);
        assert(once[0] == "\\\\"@[0]);
    }
}

/// The normal spelling of a path behind the extended-length prefix is the path; that of a
/// share is absolute; any other path is its own normal spelling.
pub proof fn law_how_a_path_is_spelled(path: Seq<char>)
    ensures
        normalized_project("\\\\?\\UNC\\"@ + path) == "\\\\"@ + path,
        normalized_project("UNC\\"@ + path) == "\\\\"@ + path,
        !occurs_at(path, "UNC\\"@, 0) ==> normalized_project("\\\\?\\"@ + path) == path,
        !occurs_at(path, "UNC\\"@, 0) && !occurs_at(path, "\\\\?\\"@, 0) ==> normalized_project(
            path,
        ) == path,
{
    reveal_strlit("\\\\?\\UNC\\");
    reveal_strlit("\\\\?\\");
    reveal_strlit("UNC\\");
    let prefix = "\\\\?\\"@;
    let share = "UNC\\"@;
    let whole = "\\\\?\\UNC\\"@;
    assert(whole =~= prefix + share);
    let a = whole + path;
    assert(a.subrange(0, prefix.len() as int) =~= prefix);
    assert(a.skip(prefix.len() as int) =~= share + path);
    let b = share + path;
    assert(b.subrange(0, share.len() as int) =~= share);
    assert(b.skip(share.len() as int) =~= path);
    assert(b[0] == 'U');
    if occurs_at(b, prefix, 0) {
        assert(b.subrange(0, prefix.len() as int)[0] == b[0]);
    }
    let c = prefix + path;
    assert(c.subrange(0, prefix.len() as int) =~= prefix);
    assert(c.skip(prefix.len() as int) =~= path);
}

} // verus!
