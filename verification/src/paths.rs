//! Relative paths as plain strings, and the one joining rule the mirror
//! needs: a path component is appended after a separator, except under an
//! empty prefix, where it stands alone.

use vstd::prelude::*;

verus! {

/// `name` placed under `prefix`: the two joined by a separator, or `name`
/// itself when the prefix is empty.
pub open spec fn joined(prefix: Seq<char>, name: Seq<char>) -> Seq<char> {
    if prefix.len() == 0 {
        name
    } else {
        prefix + "/"@ + name
    }
}

/// Joins one path component under a prefix.
pub fn join_path(prefix: &str, name: &str) -> (r: String)
    ensures
        r@ == joined(prefix@, name@),
{
    if prefix.unicode_len() == 0 {
        name.to_owned()
    } else {
        let mut s = prefix.to_owned();
        s.append("/");
        s.append(name);
        proof {
            assert(s@ =~= joined(prefix@, name@));
        }
        s
    }
}

/// No character of `s` is the path separator.
pub open spec fn no_slash(s: Seq<char>) -> bool {
    forall|k: int| 0 <= k < s.len() ==> s[k] != '/'
}

/// `p` lies at or below `b` in a tree of paths: it is `b` itself, or it
/// continues `b` — after a separator, unless `b` is the empty root prefix.
pub open spec fn extends(p: Seq<char>, b: Seq<char>) -> bool {
    p == b || (p.len() > b.len() && p.subrange(0, b.len() as int) == b && (b.len() == 0 || p[b.len() as int] == '/'))
}

/// Where a component joined under `prefix` starts inside the joined path.
pub open spec fn name_off(prefix: Seq<char>) -> int {
    if prefix.len() == 0 {
        0
    } else {
        prefix.len() + 1int
    }
}

/// `p` carries the component `name` starting at `off`: the characters match
/// and the component ends there or at a separator.
pub open spec fn has_name_at(p: Seq<char>, off: int, name: Seq<char>) -> bool {
    &&& 0 <= off
    &&& p.len() >= off + name.len()
    &&& (forall|k: int| 0 <= k < name.len() ==> p[off + k] == name[k])
    &&& (p.len() == off + name.len() || p[off + name.len()] == '/')
}

/// A path below `b` agrees with `b` character by character.
proof fn lemma_extends_index(p: Seq<char>, b: Seq<char>)
    requires
        extends(p, b),
    ensures
        p.len() >= b.len(),
        forall|k: int| 0 <= k < b.len() ==> p[k] == b[k],
{
    if p != b {
        assert forall|k: int| 0 <= k < b.len() implies p[k] == b[k] by {
            assert(p.subrange(0, b.len() as int)[k] == p[k]);
        }
    }
}

/// The shape of a joined path: the prefix, a separator when the prefix is
/// not empty, then the component.
proof fn lemma_joined_shape(prefix: Seq<char>, name: Seq<char>)
    ensures
        joined(prefix, name).len() == name_off(prefix) + name.len(),
        forall|k: int| 0 <= k < prefix.len() ==> joined(prefix, name)[k] == prefix[k],
        prefix.len() > 0 ==> joined(prefix, name)[prefix.len() as int] == '/',
        forall|k: int| 0 <= k < name.len() ==> joined(prefix, name)[name_off(prefix) + k] == name[k],
{
    reveal_strlit("/");
    assert("/"@.len() == 1);
}

/// A path below a joined prefix is also below the bare prefix, and carries
/// the joined component at its place.
pub proof fn lemma_extends_join(p: Seq<char>, prefix: Seq<char>, name: Seq<char>)
    requires
        extends(p, joined(prefix, name)),
        name.len() > 0,
    ensures
        extends(p, prefix),
        has_name_at(p, name_off(prefix), name),
{
    let b = joined(prefix, name);
    lemma_joined_shape(prefix, name);
    lemma_extends_index(p, b);
    if prefix.len() == 0 {
        assert(p.subrange(0, 0) =~= prefix);
    } else {
        assert(p.subrange(0, prefix.len() as int) =~= prefix);
        assert(p[prefix.len() as int] == b[prefix.len() as int]);
    }
}

/// Paths that carry different separator-free components at the same place
/// differ.
pub proof fn lemma_distinct_names_distinct_paths(
    p: Seq<char>,
    q: Seq<char>,
    off: int,
    name_p: Seq<char>,
    name_q: Seq<char>,
)
    requires
        has_name_at(p, off, name_p),
        has_name_at(q, off, name_q),
        name_p != name_q,
        no_slash(name_p),
        no_slash(name_q),
    ensures
        p != q,
{
    let lp = name_p.len() as int;
    let lq = name_q.len() as int;
    let m = if lp <= lq {
        lp
    } else {
        lq
    };
    if exists|k: int| 0 <= k < m && name_p[k] != name_q[k] {
        let k = choose|k: int| 0 <= k < m && name_p[k] != name_q[k];
        if p == q {
            assert(p[off + k] == q[off + k]);
            assert(false);
        }
    } else {
        assert(forall|k: int| 0 <= k < m ==> name_p[k] == name_q[k]);
        if lp == lq {
            assert(name_p =~= name_q);
            assert(false);
        } else if lp < lq {
            assert(q[off + lp] == name_q[lp] && name_q[lp] != '/');
            if p == q {
                if p.len() == off + lp {
                    assert(q.len() >= off + lq);
                    assert(false);
                } else {
                    assert(p[off + lp] == '/');
                    assert(false);
                }
            }
        } else {
            assert(p[off + lq] == name_p[lq] && name_p[lq] != '/');
            if p == q {
                if q.len() == off + lq {
                    assert(p.len() >= off + lp);
                    assert(false);
                } else {
                    assert(q[off + lq] == '/');
                    assert(false);
                }
            }
        }
    }
}

} // verus!
