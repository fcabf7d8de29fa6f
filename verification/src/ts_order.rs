//! Ordering of optional message timestamps.

use std::cmp::Ordering;

use vstd::prelude::*;

use crate::ts;

verus! {

/// The order `cmp_ts` gives: present timestamps by their numeric key,
/// a missing timestamp before every present one.
pub open spec fn ts_ordering(a: Option<Seq<char>>, b: Option<Seq<char>>) -> Ordering {
    match (a, b) {
        (Some(x), Some(y)) => {
            let kx = ts::ts_key_spec(x);
            let ky = ts::ts_key_spec(y);
            if ts::key_lt(kx, ky) {
                Ordering::Less
            } else if kx == ky {
                Ordering::Equal
            } else {
                Ordering::Greater
            }
        },
        (None, None) => Ordering::Equal,
        (None, _) => Ordering::Less,
        (_, None) => Ordering::Greater,
    }
}

pub open spec fn view_opt(a: Option<&str>) -> Option<Seq<char>> {
    match a {
        Some(s) => Some(s@),
        None => None,
    }
}

pub open spec fn flip(o: Ordering) -> Ordering {
    match o {
        Ordering::Less => Ordering::Greater,
        Ordering::Equal => Ordering::Equal,
        Ordering::Greater => Ordering::Less,
    }
}

/// Compares two `(seconds, sequence)` keys lexicographically.
pub fn key_order(a: (u64, u64), b: (u64, u64)) -> (r: Ordering)
    ensures
        r == (if ts::key_lt(a, b) {
            Ordering::Less
        } else if a == b {
            Ordering::Equal
        } else {
            Ordering::Greater
        }),
{
    if a.0 < b.0 || (a.0 == b.0 && a.1 < b.1) {
        Ordering::Less
    } else if a.0 == b.0 && a.1 == b.1 {
        Ordering::Equal
    } else {
        Ordering::Greater
    }
}

/// Orders two optional timestamps numerically; a missing one sorts first.
pub fn cmp_ts(a: Option<&str>, b: Option<&str>) -> (r: Ordering)
    ensures
        r == ts_ordering(view_opt(a), view_opt(b)),
{
    match (a, b) {
        (Some(x), Some(y)) => key_order(ts::ts_key(x), ts::ts_key(y)),
        (None, None) => Ordering::Equal,
        (None, _) => Ordering::Less,
        (_, None) => Ordering::Greater,
    }
}

/// `a` sorts strictly before `b`.
pub open spec fn ts_before(a: Option<Seq<char>>, b: Option<Seq<char>>) -> bool {
    ts_ordering(a, b) == Ordering::Less
}

/// Does `a` sort strictly before `b`?
pub fn ts_is_before(a: Option<&str>, b: Option<&str>) -> (r: bool)
    ensures
        r == ts_before(view_opt(a), view_opt(b)),
{
    match cmp_ts(a, b) {
        Ordering::Less => true,
        _ => false,
    }
}

/// `ts_before` is a strict weak order: irreflexive, transitive, and
/// incomparability (neither before the other) is transitive too.
pub proof fn lemma_ts_before_order(
    a: Option<Seq<char>>,
    b: Option<Seq<char>>,
    c: Option<Seq<char>>,
)
    ensures
        !ts_before(a, a),
        ts_before(a, b) && ts_before(b, c) ==> ts_before(a, c),
        ts_before(a, b) ==> !ts_before(b, a),
        !ts_before(a, b) && !ts_before(b, c) ==> !ts_before(a, c),
{
}

/// Swapping the arguments of `cmp_ts` reverses the result.
#[verifier::spinoff_prover]
pub proof fn law_cmp_ts_antisymmetric(a: Option<Seq<char>>, b: Option<Seq<char>>)
    ensures
        ts_ordering(a, b) == flip(ts_ordering(b, a)),
{
}

/// `cmp_ts` says `Equal` exactly when both timestamps are missing or both
/// have the same numeric key.
#[verifier::spinoff_prover]
pub proof fn law_cmp_ts_equal_iff_same_key(a: Option<Seq<char>>, b: Option<Seq<char>>)
    ensures
        (ts_ordering(a, b) == Ordering::Equal) == (match (a, b) {
            (Some(x), Some(y)) => ts::ts_key_spec(x) == ts::ts_key_spec(y),
            (None, None) => true,
            _ => false,
        }),
{
}

/// `cmp_ts` is transitive: a strict order on timestamps.
#[verifier::spinoff_prover]
pub proof fn law_cmp_ts_transitive(
    a: Option<Seq<char>>,
    b: Option<Seq<char>>,
    c: Option<Seq<char>>,
)
    requires
        ts_ordering(a, b) == Ordering::Less,
        ts_ordering(b, c) == Ordering::Less,
    ensures
        ts_ordering(a, c) == Ordering::Less,
{
}

} // verus!
