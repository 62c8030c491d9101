//! File paths, with `/` between their components.
use vstd::prelude::*;
use vstd::string::*;

verus! {

/// `base` with `part` behind it. An absolute `part` stands for itself; a
/// separator comes between the two where `base` needs one.
pub open spec fn joined(base: Seq<char>, part: Seq<char>) -> Seq<char> {
    if part.len() > 0 && part[0] == '/' {
        part
    } else if base.len() == 0 || base.last() == '/' {
        base + part
    } else {
        base + "/"@ + part
    }
}

/// Appends a component to a path.
pub fn join(base: &str, part: &str) -> (r: String)
    ensures
        r@ == joined(base@, part@),
{
    let part_len: usize = part.unicode_len();
    if part_len > 0 && part.get_char(0) == '/' {
        return part.to_owned();
    }
    let base_len: usize = base.unicode_len();
    let mut r = base.to_owned();
    if base_len > 0 && base.get_char(base_len - 1) != '/' {
        r.append("/");
    }
    r.append(part);
    r
}

/// Two relative components under one base give different paths where they
/// differ.
pub proof fn joined_is_injective(base: Seq<char>, a: Seq<char>, b: Seq<char>)
    requires
        !(a.len() > 0 && a[0] == '/'),
        !(b.len() > 0 && b[0] == '/'),
        joined(base, a) == joined(base, b),
    ensures
        a == b,
{
    let front = if base.len() == 0 || base.last() == '/' {
        base
    } else {
        base + "/"@
    };
    assert(joined(base, a) =~= front + a);
    assert(joined(base, b) =~= front + b);
    assert(a =~= joined(base, a).skip(front.len() as int));
    assert(b =~= joined(base, b).skip(front.len() as int));
}

} // verus!
