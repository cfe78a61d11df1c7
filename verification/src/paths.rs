//! Path reasoning: absoluteness, the parent directory of an entry path, and
//! the rejection of overlapping traversal roots.

use vstd::prelude::*;

verus! {

/// A path is absolute when it starts with the separator.
pub open spec fn path_is_absolute(p: Seq<char>) -> bool {
    p.len() > 0 && p[0] == '/'
}

/// Index of the last separator in `p`, or -1 when there is none.
pub open spec fn last_slash(p: Seq<char>) -> int
    decreases p.len(),
{
    if p.len() == 0 {
        -1
    } else if p.last() == '/' {
        p.len() - 1
    } else {
        last_slash(p.drop_last())
    }
}

/// The parent directory of an entry path: the text before the last
/// separator. A path with no separator has no parent (empty result); a
/// direct child of the filesystem root has parent `/`; the root itself has
/// the empty parent.
pub open spec fn parent_of(p: Seq<char>) -> Seq<char> {
    let k = last_slash(p);
    if k < 0 {
        Seq::<char>::empty()
    } else if k == 0 {
        if p.len() == 1 {
            Seq::<char>::empty()
        } else {
            seq!['/']
        }
    } else {
        p.subrange(0, k)
    }
}

/// Whether `s` is absolute.
pub fn is_absolute_path(s: &str) -> (r: bool)
    ensures
        r == path_is_absolute(s@),
{
    let n = s.unicode_len();
    n > 0 && s.get_char(0) == '/'
}

/// The parent directory of `path`, as `parent_of` defines it.
pub fn parent_dir(path: &str) -> (p: String)
    ensures
        p@ == parent_of(path@),
{
    let n = path.unicode_len();
    let mut i: usize = n;
    let mut found: bool = false;
    proof {
        assert(path@.take(n as int) =~= path@);
    }
    while i > 0 && !found
        invariant
            i <= n,
            n == path@.len(),
            !found ==> last_slash(path@) == last_slash(path@.take(i as int)),
            found ==> i > 0 && last_slash(path@) == i - 1,
        decreases i + (if found { 0int } else { 1int }),
    {
        let c = path.get_char(i - 1);
        if c == '/' {
            proof {
                assert(path@.take(i as int).last() == path@[i - 1]);
                assert(last_slash(path@.take(i as int)) == i - 1);
            }
            found = true;
        } else {
            proof {
                let t = path@.take(i as int);
                assert(t.last() == path@[i - 1]);
                assert(t.drop_last() =~= path@.take(i as int - 1));
            }
            i = i - 1;
        }
    }
    if !found {
        proof {
            assert(path@.take(0) =~= Seq::<char>::empty());
        }
        String::new()
    } else {
        let k = i - 1;
        if k == 0 {
            if n == 1 {
                String::new()
            } else {
                let r = "/";
                proof {
                    reveal_strlit("/");
                    assert(r@ =~= seq!['/']);
                }
                r.to_owned()
            }
        } else {
            path.substring_char(0, k).to_owned()
        }
    }
}

/// Whether `prefix`'s characters are an initial segment of `s`'s.
pub fn has_prefix(s: &str, prefix: &str) -> (r: bool)
    ensures
        r == prefix@.is_prefix_of(s@),
{
    let np = prefix.unicode_len();
    let ns = s.unicode_len();
    if np > ns {
        return false;
    }
    let mut i: usize = 0;
    while i < np
        invariant
            0 <= i <= np,
            np == prefix@.len(),
            ns == s@.len(),
            np <= ns,
            forall|j: int| 0 <= j < i ==> prefix@[j] == s@[j],
        decreases np - i,
    {
        if prefix.get_char(i) != s.get_char(i) {
            assert(!prefix@.is_prefix_of(s@));
            return false;
        }
        i = i + 1;
    }
    assert(prefix@ =~= s@.subrange(0, np as int));
    true
}

/// Two roots conflict when one is a proper textual prefix of the other:
/// traversing both would visit an overlapping subtree twice.
pub open spec fn roots_conflict(roots: Seq<String>) -> bool {
    exists|i: int, j: int|
        0 <= i < roots.len() && 0 <= j < roots.len() && roots[i]@ != roots[j]@
            && #[trigger] roots[j]@.is_prefix_of(#[trigger] roots[i]@)
}

/// Accepts a set of traversal roots only when no root is a textual prefix
/// of a distinct other, so that no subtree could be indexed twice in one
/// run. This check runs before any traversal starts.
pub fn validate_roots(roots: &Vec<String>) -> (ok: bool)
    ensures
        ok == !roots_conflict(roots@),
{
    let n = roots.len();
    let mut i: usize = 0;
    while i < n
        invariant
            0 <= i <= n,
            n == roots@.len(),
            forall|a: int, b: int|
                0 <= a < i && 0 <= b < n && roots@[a]@ != roots@[b]@ ==> !(#[trigger] roots@[b]@.is_prefix_of(
                    #[trigger] roots@[a]@)),
        decreases n - i,
    {
        let mut j: usize = 0;
        while j < n
            invariant
                0 <= j <= n,
                i < n,
                n == roots@.len(),
                forall|b: int|
                    0 <= b < j && roots@[i as int]@ != roots@[b]@ ==> !(#[trigger] roots@[b]@.is_prefix_of(
                        roots@[i as int]@)),
            decreases n - j,
        {
            let same = roots[i].eq(&roots[j]);
            if !same {
                if has_prefix(roots[i].as_str(), roots[j].as_str()) {
                    return false;
                }
            }
            j = j + 1;
        }
        i = i + 1;
    }
    proof {
        false_conflict_from_invariant(roots@);
    }
    true
}

proof fn false_conflict_from_invariant(roots: Seq<String>)
    requires
        forall|a: int, b: int|
            0 <= a < roots.len() && 0 <= b < roots.len() && roots[a]@ != roots[b]@ ==> !(#[trigger] roots[b]@.is_prefix_of(
                #[trigger] roots[a]@)),
    ensures
        !roots_conflict(roots),
{
}

} // verus!
