//! Verified string helpers: normalising a path, splitting it into
//! components, joining components back together, and the lexicographic
//! comparison used by the precedence order.

use vstd::prelude::*;

use crate::model::{
    join_slash, lemma_skip_one, lemma_take_one, path_components, split_slash, strip_slashes,
};
use crate::order::text_lt;

verus! {

/// Drop one leading and one trailing `/` from a string.
pub(crate) fn strip<'a>(s: &'a str) -> (r: &'a str)
    ensures
        r@ == strip_slashes(s@),
{
    let n = s.unicode_len();
    let start: usize = if n > 0 && s.get_char(0) == '/' {
        1
    } else {
        0
    };
    let end: usize = if n > start && s.get_char(n - 1) == '/' {
        n - 1
    } else {
        n
    };
    let r = s.substring_char(start, end);
    proof {
        let a = if s@.len() > 0 && s@[0] == '/' {
            s@.skip(1)
        } else {
            s@
        };
        assert(a == s@.subrange(start as int, n as int)) by {
            if start == 0 {
                assert(s@.subrange(0, n as int) =~= s@);
            }
        }
        if a.len() > 0 && a.last() == '/' {
            assert(a.last() == s@[n - 1]);
            assert(a.drop_last() =~= s@.subrange(start as int, end as int));
        } else {
            assert(a =~= s@.subrange(start as int, end as int));
        }
    }
    r
}

/// Normalise a string and split it into its `/`-separated components.
pub(crate) fn split_path(s: &str) -> (r: Vec<String>)
    ensures
        r.deep_view() == path_components(s@),
        r.len() > 0,
{
    let t = strip(s);
    let n = t.unicode_len();
    let mut comps: Vec<String> = Vec::new();
    let mut start: usize = 0;
    let mut i: usize = 0;
    proof {
        assert(t@.take(0) =~= Seq::<char>::empty());
        assert(t@.subrange(0, 0) =~= Seq::<char>::empty());
        assert(comps.deep_view().push(t@.subrange(0, 0)) =~= split_slash(t@.take(0)));
    }
    while i < n
        invariant
            n == t@.len(),
            start <= i <= n,
            comps.deep_view().push(t@.subrange(start as int, i as int)) =~= split_slash(
                t@.take(i as int),
            ),
        decreases n - i,
    {
        let c = t.get_char(i);
        proof {
            lemma_take_one(t@, i as int);
        }
        if c == '/' {
            let piece = String::from_str(t.substring_char(start, i));
            let ghost old_dv = comps.deep_view();
            comps.push(piece);
            proof {
                assert(comps.deep_view() =~= old_dv.push(t@.subrange(start as int, i as int)));
                assert(t@.subrange(i + 1, i + 1) =~= Seq::<char>::empty());
                assert(comps.deep_view().push(t@.subrange(i + 1, i + 1)) =~= split_slash(
                    t@.take(i + 1),
                ));
            }
            start = i + 1;
        } else {
            proof {
                assert(t@.subrange(start as int, i as int).push(t@[i as int]) =~= t@.subrange(
                    start as int,
                    i + 1,
                ));
                let prev = split_slash(t@.take(i as int));
                assert(comps.deep_view().push(t@.subrange(start as int, i + 1)) =~= prev.update(
                    prev.len() - 1,
                    prev.last().push(t@[i as int]),
                ));
            }
        }
        i = i + 1;
    }
    let piece = String::from_str(t.substring_char(start, n));
    let ghost old_dv = comps.deep_view();
    comps.push(piece);
    proof {
        assert(comps.deep_view() =~= old_dv.push(t@.subrange(start as int, n as int)));
        assert(t@.take(n as int) =~= t@);
    }
    comps
}

/// Join the components from index `j` on with `/`, undoing the split for
/// the stretch of the path a wildcard consumed.
pub(crate) fn join_from(comps: &Vec<String>, j: usize) -> (r: String)
    requires
        j < comps.len(),
    ensures
        r@ == join_slash(comps.deep_view().skip(j as int)),
{
    let ghost dv = comps.deep_view();
    let mut r = String::from_str(comps[j].as_str());
    let mut k: usize = j + 1;
    proof {
        assert(dv.subrange(j as int, j + 1).len() == 1);
        assert(dv.subrange(j as int, j + 1)[0] == dv[j as int]);
        assert(r@ == join_slash(dv.subrange(j as int, k as int)));
    }
    while k < comps.len()
        invariant
            j < k <= comps.len(),
            dv == comps.deep_view(),
            dv.len() == comps.len(),
            r@ == join_slash(dv.subrange(j as int, k as int)),
        decreases comps.len() - k,
    {
        r.append("/");
        r.append(comps[k].as_str());
        proof {
            reveal_strlit("/");
            assert("/"@ =~= seq!['/']);
            assert(dv.subrange(j as int, k + 1).drop_last() =~= dv.subrange(j as int, k as int));
            assert(dv.subrange(j as int, k + 1).last() == dv[k as int]);
            assert(dv.subrange(j as int, k + 1).len() >= 2);
        }
        k = k + 1;
    }
    proof {
        assert(dv.subrange(j as int, comps.len() as int) =~= dv.skip(j as int));
    }
    r
}

/// Character-for-character string equality.
pub(crate) fn str_eq(a: &str, b: &str) -> (r: bool)
    ensures
        r == (a@ == b@),
{
    let na = a.unicode_len();
    let nb = b.unicode_len();
    if na != nb {
        return false;
    }
    let mut i: usize = 0;
    while i < na
        invariant
            i <= na,
            na == a@.len(),
            na == b@.len(),
            forall|j: int| 0 <= j < i ==> a@[j] == b@[j],
        decreases na - i,
    {
        if a.get_char(i) != b.get_char(i) {
            return false;
        }
        i = i + 1;
    }
    proof {
        assert(a@ =~= b@);
    }
    true
}

/// Lexicographic comparison of two strings by code point.
pub(crate) fn str_lt(a: &str, b: &str) -> (r: bool)
    ensures
        r == text_lt(a@, b@),
{
    let na = a.unicode_len();
    let nb = b.unicode_len();
    let mut i: usize = 0;
    proof {
        assert(a@.skip(0) =~= a@);
        assert(b@.skip(0) =~= b@);
    }
    loop
        invariant
            i <= na,
            i <= nb,
            na == a@.len(),
            nb == b@.len(),
            text_lt(a@, b@) == text_lt(a@.skip(i as int), b@.skip(i as int)),
        decreases na - i,
    {
        proof {
            assert(a@.skip(i as int).len() == na - i);
            assert(b@.skip(i as int).len() == nb - i);
        }
        if i >= nb {
            return false;
        }
        if i >= na {
            return true;
        }
        let ca = a.get_char(i);
        let cb = b.get_char(i);
        proof {
            lemma_skip_one(a@, i as int);
            lemma_skip_one(b@, i as int);
        }
        if ca == cb {
            i = i + 1;
        } else {
            return (ca as u32) < (cb as u32);
        }
    }
}

} // verus!
