//! The precedence order over patterns.
//!
//! Two patterns are compared segment by segment; the first position where
//! they differ decides. Segment kinds rank `Exact > Param > Wildcard`, two
//! literals (or two parameter names) compare by their text, and when one
//! pattern is a strict prefix of the other the shorter one ranks lower —
//! that is the tie-break the implicit structural separators impose, since a
//! separator ranks below every segment kind.
//!
//! The lemmas here establish that this relation is a strict total order,
//! which is what lets `best_match` scan registered routes from highest to
//! lowest precedence and stop at the first structural match.

use vstd::prelude::*;

use crate::model::SegModel;

verus! {

proof fn lemma_head_tail_eq<A>(a: Seq<A>, b: Seq<A>)
    requires
        a.len() > 0,
        b.len() > 0,
        a[0] == b[0],
        a.skip(1) == b.skip(1),
    ensures
        a == b,
{
    assert(a =~= seq![a[0]] + a.skip(1));
    assert(b =~= seq![b[0]] + b.skip(1));
}

/// Lexicographic order on text, by code point.
pub open spec fn text_lt(a: Seq<char>, b: Seq<char>) -> bool
    decreases a.len(),
{
    if b.len() == 0 {
        false
    } else if a.len() == 0 {
        true
    } else if a[0] == b[0] {
        text_lt(a.skip(1), b.skip(1))
    } else {
        (a[0] as int) < (b[0] as int)
    }
}

/// Kind rank: a literal outranks a parameter, which outranks the wildcard.
pub open spec fn seg_rank(s: SegModel) -> int {
    match s {
        SegModel::Wildcard => 0,
        SegModel::Param(_) => 1,
        SegModel::Exact(_) => 2,
    }
}

/// Strict order on single segments: by kind rank first, then by text.
pub open spec fn seg_lt(a: SegModel, b: SegModel) -> bool {
    if seg_rank(a) != seg_rank(b) {
        seg_rank(a) < seg_rank(b)
    } else {
        match (a, b) {
            (SegModel::Exact(x), SegModel::Exact(y)) => text_lt(x, y),
            (SegModel::Param(x), SegModel::Param(y)) => text_lt(x, y),
            _ => false,
        }
    }
}

/// The precedence order on whole patterns: first differing segment decides;
/// a strict prefix ranks below the longer pattern.
pub open spec fn spec_lt(a: Seq<SegModel>, b: Seq<SegModel>) -> bool
    decreases a.len(),
{
    if b.len() == 0 {
        false
    } else if a.len() == 0 {
        true
    } else if a[0] == b[0] {
        spec_lt(a.skip(1), b.skip(1))
    } else {
        seg_lt(a[0], b[0])
    }
}

/// Exactly one of `text_lt(a, b)`, `a == b`, `text_lt(b, a)` holds.
pub proof fn lemma_text_trichotomy(a: Seq<char>, b: Seq<char>)
    ensures
        !(text_lt(a, b) && text_lt(b, a)),
        (!text_lt(a, b) && !text_lt(b, a)) <==> (a == b),
    decreases a.len(),
{
    if b.len() == 0 {
        if a.len() == 0 {
            assert(a =~= b);
        }
    } else if a.len() == 0 {
    } else if a[0] == b[0] {
        lemma_text_trichotomy(a.skip(1), b.skip(1));
        if a.skip(1) == b.skip(1) {
            lemma_head_tail_eq(a, b);
        }
        if a == b {
            assert(a.skip(1) =~= b.skip(1));
        }
    } else {
    }
}

/// The text order is transitive.
pub proof fn lemma_text_transitive(a: Seq<char>, b: Seq<char>, c: Seq<char>)
    requires
        text_lt(a, b),
        text_lt(b, c),
    ensures
        text_lt(a, c),
    decreases a.len(),
{
    if b.len() == 0 || c.len() == 0 || a.len() == 0 {
    } else if a[0] == b[0] && b[0] == c[0] {
        lemma_text_transitive(a.skip(1), b.skip(1), c.skip(1));
    }
}

/// Exactly one of `seg_lt(a, b)`, `a == b`, `seg_lt(b, a)` holds.
pub proof fn lemma_seg_trichotomy(a: SegModel, b: SegModel)
    ensures
        !(seg_lt(a, b) && seg_lt(b, a)),
        (!seg_lt(a, b) && !seg_lt(b, a)) <==> (a == b),
{
    match (a, b) {
        (SegModel::Exact(x), SegModel::Exact(y)) => lemma_text_trichotomy(x, y),
        (SegModel::Param(x), SegModel::Param(y)) => lemma_text_trichotomy(x, y),
        _ => {},
    }
}

/// The segment order is transitive.
pub proof fn lemma_seg_transitive(a: SegModel, b: SegModel, c: SegModel)
    requires
        seg_lt(a, b),
        seg_lt(b, c),
    ensures
        seg_lt(a, c),
{
    match (a, b) {
        (SegModel::Exact(x), SegModel::Exact(y)) => match c {
            SegModel::Exact(z) => lemma_text_transitive(x, y, z),
            _ => {},
        },
        (SegModel::Param(x), SegModel::Param(y)) => match c {
            SegModel::Param(z) => lemma_text_transitive(x, y, z),
            _ => {},
        },
        _ => {},
    }
}

/// Precedence is connex and antisymmetric: for any two patterns exactly one
/// of `spec_lt(a, b)`, `a == b`, `spec_lt(b, a)` holds. Together with
/// [`lemma_precedence_transitive`] this makes precedence a strict total
/// order over patterns, so any two distinct registered patterns have
/// exactly one ranking, independent of the path being queried.
pub proof fn lemma_precedence_trichotomy(a: Seq<SegModel>, b: Seq<SegModel>)
    ensures
        !(spec_lt(a, b) && spec_lt(b, a)),
        (!spec_lt(a, b) && !spec_lt(b, a)) <==> (a == b),
    decreases a.len(),
{
    if b.len() == 0 {
        if a.len() == 0 {
            assert(a =~= b);
        }
    } else if a.len() == 0 {
    } else if a[0] == b[0] {
        lemma_precedence_trichotomy(a.skip(1), b.skip(1));
        if a.skip(1) == b.skip(1) {
            lemma_head_tail_eq(a, b);
        }
        if a == b {
            assert(a.skip(1) =~= b.skip(1));
        }
    } else {
        lemma_seg_trichotomy(a[0], b[0]);
    }
}

/// Precedence is transitive.
pub proof fn lemma_precedence_transitive(a: Seq<SegModel>, b: Seq<SegModel>, c: Seq<SegModel>)
    requires
        spec_lt(a, b),
        spec_lt(b, c),
    ensures
        spec_lt(a, c),
    decreases a.len(),
{
    if b.len() == 0 || c.len() == 0 || a.len() == 0 {
    } else if a[0] == b[0] {
        if b[0] == c[0] {
            lemma_precedence_transitive(a.skip(1), b.skip(1), c.skip(1));
        } else {
        }
    } else {
        if b[0] == c[0] {
        } else {
            lemma_seg_transitive(a[0], b[0], c[0]);
            lemma_seg_trichotomy(a[0], b[0]);
        }
    }
}

} // verus!
