//! Route groups that sit before the `/{hash}/{key}` streaming path.

use vstd::prelude::*;
use crate::text;

verus! {

/// The prefixes of the route groups, in the order in which they are tried.
pub open spec fn route_prefixes() -> Seq<Seq<char>> {
    seq!["/params"@, "/meta"@, "/stream"@, "/thumbnail"@]
}

/// `path` without the first of the route prefixes that it begins with.
pub open spec fn stripped(path: Seq<char>) -> Seq<char> {
    if text::begins_with(path, "/params"@) {
        path.skip("/params"@.len() as int)
    } else if text::begins_with(path, "/meta"@) {
        path.skip("/meta"@.len() as int)
    } else if text::begins_with(path, "/stream"@) {
        path.skip("/stream"@.len() as int)
    } else if text::begins_with(path, "/thumbnail"@) {
        path.skip("/thumbnail"@.len() as int)
    } else {
        path
    }
}

/// Strips the known route prefix from a URI path and returns the `/{hash}/{key}`
/// portion. Where no prefix matches, the path is returned unchanged: that is the
/// root route.
pub fn strip_route_prefix(path: &str) -> (rest: &str)
    ensures
        rest@ == stripped(path@),
{
    if text::starts_with(path, "/params") {
        proof {
            reveal_strlit("/params");
        }
        text::text_from(path, 7)
    } else if text::starts_with(path, "/meta") {
        proof {
            reveal_strlit("/meta");
        }
        text::text_from(path, 5)
    } else if text::starts_with(path, "/stream") {
        proof {
            reveal_strlit("/stream");
        }
        text::text_from(path, 7)
    } else if text::starts_with(path, "/thumbnail") {
        proof {
            reveal_strlit("/thumbnail");
        }
        text::text_from(path, 10)
    } else {
        path
    }
}

/// Whatever stands before the streaming path, stripping leaves the end of the path as
/// it was.
pub proof fn law_stripped_is_suffix(path: Seq<char>)
    ensures
        stripped(path).len() <= path.len(),
        stripped(path) == path.skip(path.len() - stripped(path).len()),
{
}

/// A path made of a route prefix and a rest is stripped to exactly that rest: no
/// prefix hides another.
pub proof fn law_each_prefix_is_stripped(prefix: Seq<char>, rest: Seq<char>)
    requires
        route_prefixes().contains(prefix),
    ensures
        stripped(prefix + rest) == rest,
{
    reveal_strlit("/params");
    reveal_strlit("/meta");
    reveal_strlit("/stream");
    reveal_strlit("/thumbnail");
    let path = prefix + rest;
    let i = choose|i: int| 0 <= i < 4 && route_prefixes()[i] == prefix;
    assert(path.take(prefix.len() as int) =~= prefix);
    assert(path.skip(prefix.len() as int) =~= rest);
    assert(path[1] == prefix[1]);
    if text::begins_with(path, "/params"@) {
        assert(path.take(7)[1] == 'p');
    } else if text::begins_with(path, "/meta"@) {
        assert(path.take(5)[1] == 'm');
    } else if text::begins_with(path, "/stream"@) {
        assert(path.take(7)[1] == 's');
    }
}

/// Each of the four prefixes is stripped, and a path that begins with none of them is left as
/// it is.
pub proof fn law_prefixes_and_no_others_are_stripped(rest: Seq<char>)
    ensures
        stripped("/params"@ + rest) == rest,
        stripped("/meta"@ + rest) == rest,
        stripped("/stream"@ + rest) == rest,
        stripped("/thumbnail"@ + rest) == rest,
        !text::begins_with(rest, "/params"@) && !text::begins_with(rest, "/meta"@)
            && !text::begins_with(rest, "/stream"@) && !text::begins_with(rest, "/thumbnail"@)
            ==> stripped(rest) == rest,
{
    assert(route_prefixes()[0] == "/params"@);
    assert(route_prefixes()[1] == "/meta"@);
    assert(route_prefixes()[2] == "/stream"@);
    assert(route_prefixes()[3] == "/thumbnail"@);
    law_each_prefix_is_stripped("/params"@, rest);
    law_each_prefix_is_stripped("/meta"@, rest);
    law_each_prefix_is_stripped("/stream"@, rest);
    law_each_prefix_is_stripped("/thumbnail"@, rest);
}

} // verus!
