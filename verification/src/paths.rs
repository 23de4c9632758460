//! File paths, with `/` between their parts.

use vstd::prelude::*;
use crate::text;

verus! {

/// `part` below `base`. An absolute part stands for itself.
pub open spec fn joined_path(base: Seq<char>, part: Seq<char>) -> Seq<char> {
    if base.len() == 0 || text::begins_with(part, "/"@) {
        part
    } else if base.last() == '/' {
        base + part
    } else {
        base.push('/') + part
    }
}

/// The path of `part` below `base`.
pub fn join_path(base: &str, part: &str) -> (s: String)
    ensures
        s@ == joined_path(base@, part@),
{
    let n: usize = base.unicode_len();
    if n == 0 || text::starts_with(part, "/") {
        part.to_string()
    } else if base.get_char(n - 1) == '/' {
        text::cat(base, part)
    } else {
        let mut s: String = base.to_string();
        text::push_char(&mut s, '/');
        s.append(part);
        s
    }
}

/// Below one directory, different relative parts have different paths.
pub proof fn lemma_joined_path_injective(base: Seq<char>, a: Seq<char>, b: Seq<char>)
    requires
        !text::begins_with(a, "/"@),
        !text::begins_with(b, "/"@),
        joined_path(base, a) == joined_path(base, b),
    ensures
        a == b,
{
    let (p, q) = (joined_path(base, a), joined_path(base, b));
    let n = p.len() - a.len();
    assert(p.skip(n) =~= a);
    assert(q.skip(n) =~= b);
}

/// A relative part stands below its base, behind one slash; an absolute part, and any part
/// below no base, stands for itself.
pub proof fn law_part_stands_below_its_base(base: Seq<char>, part: Seq<char>)
    ensures
        part.len() > 0 && part[0] == '/' ==> joined_path(base, part) == part,
        joined_path(Seq::empty(), part) == part,
        base.len() > 0 && base.last() != '/' && (part.len() == 0 || part[0] != '/')
            ==> joined_path(base, part) == base + seq!['/'] + part,
        base.len() > 0 && base.last() == '/' && (part.len() == 0 || part[0] != '/')
            ==> joined_path(base, part) == base + part,
{
    reveal_strlit("/");
    if part.len() > 0 {
        assert(part.take(1)[0] == part[0]);
        if part[0] == '/' {
            assert(part.take(1) =~= "/"@);
        }
    }
    assert(base.push('/') + part =~= base + seq!['/'] + part);
}

} // verus!
