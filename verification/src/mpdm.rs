//! Group DM names: Slack names them `mpdm-alice--bob--carol-1`.

use vstd::prelude::*;

use crate::files::{after_last, before_last, last_index_of};
use crate::models::Channel;
use crate::text;

verus! {

broadcast use vstd::string::group_string_axioms;

/// `s.parse::<u32>()`.
pub open spec fn parse_u32_spec(s: Seq<char>) -> Option<u32> {
    match text::parse_u64_spec(s) {
        Some(v) => if v <= u32::MAX {
            Some(v as u32)
        } else {
            None
        },
        None => None,
    }
}

/// Index of the first `--` in `s`, or `s.len()`.
pub open spec fn double_dash_at(s: Seq<char>) -> nat
    decreases s.len(),
{
    if s.len() < 2 {
        s.len()
    } else if s[0] == '-' && s[1] == '-' {
        0
    } else {
        1 + double_dash_at(s.drop_first())
    }
}

/// `s.split("--")`.
pub open spec fn split_dd(s: Seq<char>) -> Seq<Seq<char>>
    decreases s.len(),
{
    let i = double_dash_at(s);
    if i >= s.len() {
        seq![s]
    } else {
        proof {
            lemma_double_dash_bound(s);
        }
        seq![s.take(i as int)] + split_dd(s.skip((i + 2) as int))
    }
}

pub proof fn lemma_double_dash_bound(s: Seq<char>)
    ensures
        double_dash_at(s) <= s.len(),
        double_dash_at(s) < s.len() ==> double_dash_at(s) + 1 < s.len(),
    decreases s.len(),
{
    if s.len() >= 2 && !(s[0] == '-' && s[1] == '-') {
        lemma_double_dash_bound(s.drop_first());
    }
}

/// The member list part of a group DM name: after `mpdm-`, without a
/// trailing `-<number>`.
pub open spec fn mpdm_body(name: Seq<char>) -> Option<Seq<char>> {
    if !text::starts_with(name, "mpdm-"@) {
        None
    } else {
        let rest = name.skip(5);
        match (before_last(rest, '-'), after_last(rest, '-')) {
            (Some(prefix), Some(suffix)) => if parse_u32_spec(suffix) is Some {
                Some(prefix)
            } else {
                Some(rest)
            },
            _ => Some(rest),
        }
    }
}

pub open spec fn dots_to_spaces(s: Seq<char>) -> Seq<char> {
    s.map_values(|c: char| if c == '.' { ' ' } else { c })
}

/// The displayed member names: dots read as spaces, blank names dropped.
pub open spec fn member_names(parts: Seq<Seq<char>>) -> Seq<Seq<char>>
    decreases parts.len(),
{
    if parts.len() == 0 {
        Seq::empty()
    } else {
        let prev = member_names(parts.drop_last());
        let n = dots_to_spaces(parts.last());
        if text::trim_spec(n).len() > 0 {
            prev.push(n)
        } else {
            prev
        }
    }
}

/// The number of non-blank parts.
pub open spec fn non_blank_count(parts: Seq<Seq<char>>) -> nat
    decreases parts.len(),
{
    if parts.len() == 0 {
        0
    } else {
        non_blank_count(parts.drop_last()) + if text::trim_spec(parts.last()).len() > 0 {
            1nat
        } else {
            0nat
        }
    }
}

/// `names.join(sep)`.
pub open spec fn join(names: Seq<Seq<char>>, sep: Seq<char>) -> Seq<char>
    decreases names.len(),
{
    if names.len() == 0 {
        Seq::empty()
    } else if names.len() == 1 {
        names[0]
    } else {
        join(names.drop_last(), sep) + sep + names.last()
    }
}

/// "alice, bob, carol" for `mpdm-alice--bob--carol-1`.
pub open spec fn mpdm_name_label_spec(name: Seq<char>) -> Option<Seq<char>> {
    match mpdm_body(name) {
        None => None,
        Some(body) => {
            let names = member_names(split_dd(body));
            if names.len() > 0 {
                Some(join(names, ", "@))
            } else {
                None
            }
        },
    }
}

/// How many people a group DM name lists.
pub open spec fn group_member_count_spec(c: Channel) -> Option<nat> {
    match c.name {
        None => None,
        Some(n) => match mpdm_body(n@) {
            None => None,
            Some(body) => {
                let count = non_blank_count(split_dd(body));
                if count > 0 {
                    Some(count)
                } else {
                    None
                }
            },
        },
    }
}

proof fn lemma_double_dash(s: Seq<char>, i: int)
    requires
        0 <= i <= s.len(),
        forall|k: int| 0 <= k < i && k + 1 < s.len() ==> !(#[trigger] s[k] == '-' && s[k + 1] == '-'),
        i == s.len() || (i + 1 < s.len() && s[i] == '-' && s[i + 1] == '-'),
    ensures
        double_dash_at(s) == i,
    decreases s.len(),
{
    if s.len() >= 2 && i > 0 {
        assert(!(s[0] == '-' && s[1] == '-'));
        assert forall|k: int| 0 <= k < i - 1 && k + 1 < s.drop_first().len() implies !(
        #[trigger] s.drop_first()[k] == '-' && s.drop_first()[k + 1] == '-') by {
            assert(s.drop_first()[k] == s[k + 1]);
            assert(s.drop_first()[k + 1] == s[k + 2]);
        }
        lemma_double_dash(s.drop_first(), i - 1);
    } else if s.len() < 2 {
        assert(i == s.len());
    }
}

/// Index of the first `--` at or after `from`, or the length.
fn find_double_dash(v: &[char], from: usize) -> (r: usize)
    requires
        from <= v@.len(),
    ensures
        from <= r <= v@.len(),
        r - from == double_dash_at(v@.skip(from as int)) || (r == v@.len() && double_dash_at(
            v@.skip(from as int),
        ) >= v@.len() - from),
        r < v@.len() ==> r - from == double_dash_at(v@.skip(from as int)),
        r < v@.len() ==> r + 1 < v@.len(),
        r == v@.len() ==> double_dash_at(v@.skip(from as int)) == v@.len() - from,
{
    let n = v.len();
    let mut i = from;
    while n - i > 1 && !(v[i] == '-' && v[i + 1] == '-')
        invariant
            from <= i <= n,
            n == v@.len(),
            forall|k: int| from <= k < i && k + 1 < n ==> !(#[trigger] v@[k] == '-' && v@[k + 1] == '-'),
        decreases n - i,
    {
        i = i + 1;
    }
    let ghost t = v@.skip(from as int);
    if n - i > 1 {
        proof {
            assert forall|k: int| 0 <= k < i - from && k + 1 < t.len() implies !(#[trigger] t[k] == '-'
                && t[k + 1] == '-') by {
                assert(t[k] == v@[from + k]);
                assert(t[k + 1] == v@[from + k + 1]);
            }
            assert(t[i - from] == v@[i as int]);
            assert(t[i - from + 1] == v@[i + 1]);
            lemma_double_dash(t, i - from);
        }
        i
    } else {
        proof {
            assert forall|k: int| 0 <= k < t.len() && k + 1 < t.len() implies !(#[trigger] t[k] == '-'
                && t[k + 1] == '-') by {
                assert(t[k] == v@[from + k]);
                assert(t[k + 1] == v@[from + k + 1]);
            }
            lemma_double_dash(t, t.len() as int);
        }
        n
    }
}

/// The parts of `v` between `--` separators.
fn split_parts(v: &[char]) -> (parts: Vec<Vec<char>>)
    ensures
        parts@.map_values(|p: Vec<char>| p@) == split_dd(v@),
{
    let mut parts: Vec<Vec<char>> = Vec::new();
    let mut pos: usize = 0;
    let n = v.len();
    let mut done = false;
    assert(v@.skip(0) =~= v@);
    while !done
        invariant
            pos <= n,
            n == v@.len(),
            !done ==> parts@.map_values(|p: Vec<char>| p@) + split_dd(v@.skip(pos as int)) == split_dd(v@),
            done ==> parts@.map_values(|p: Vec<char>| p@) == split_dd(v@),
        decreases n - pos + if done { 0int } else { 1int },
    {
        let ghost prev = parts@.map_values(|p: Vec<char>| p@);
        let ghost t = v@.skip(pos as int);
        let i = find_double_dash(v, pos);
        let mut piece: Vec<char> = Vec::new();
        for k in pos..i
            invariant
                piece@ == v@.subrange(pos as int, k as int),
                pos <= i <= n,
                n == v@.len(),
        {
            piece.push(v[k]);
            assert(piece@ =~= v@.subrange(pos as int, k + 1));
        }
        parts.push(piece);
        if i == n {
            assert(v@.subrange(pos as int, n as int) =~= t);
            assert(split_dd(t) == seq![t]);
            assert(parts@.map_values(|p: Vec<char>| p@) =~= prev + split_dd(t));
            done = true;
        } else {
            assert(v@.subrange(pos as int, i as int) =~= t.take(i - pos));
            assert(t.skip(i - pos + 2) =~= v@.skip(i + 2));
            assert(split_dd(t) == seq![t.take(i - pos)] + split_dd(t.skip(i - pos + 2)));
            assert(parts@.map_values(|p: Vec<char>| p@) + split_dd(v@.skip(i + 2)) =~= prev + split_dd(t));
            pos = i + 2;
        }
    }
    parts
}

/// The member-list part of a group DM name.
fn mpdm_body_of(name: &str) -> (r: Option<Vec<char>>)
    ensures
        match r {
            Some(b) => mpdm_body(name@) == Some(b@),
            None => mpdm_body(name@) is None,
        },
{
    if !text::str_starts_with(name, "mpdm-") {
        return None;
    }
    proof {
        reveal_strlit("mpdm-");
    }
    let v = text::to_chars(name);
    let rest = &v.as_slice()[5..v.len()];
    assert(rest@ =~= name@.skip(5));
    let mut i: usize = rest.len();
    while i > 0 && rest[i - 1] != '-'
        invariant
            i <= rest@.len(),
            forall|k: int| i <= k < rest@.len() ==> #[trigger] rest@[k] != '-',
        decreases i,
    {
        i = i - 1;
    }
    proof {
        crate::files::lemma_last_index_of_pub(rest@, '-', i - 1);
    }
    if i == 0 {
        return Some(text::chars_vec(rest));
    }
    let suffix = &rest[i..rest.len()];
    let prefix = &rest[0..i - 1];
    assert(suffix@ =~= rest@.subrange(i as int, rest@.len() as int));
    assert(prefix@ =~= rest@.subrange(0, i - 1));
    let ok = match text::parse_u64(suffix) {
        Some(x) => x <= 0xffff_ffff,
        None => false,
    };
    if ok {
        Some(text::chars_vec(prefix))
    } else {
        Some(text::chars_vec(rest))
    }
}

/// "alice, bob, carol" for `mpdm-alice--bob--carol-1`.
pub fn mpdm_name_label(name: &str) -> (r: Option<String>)
    ensures
        text::string_opt(r) == mpdm_name_label_spec(name@),
{
    let body = match mpdm_body_of(name) {
        Some(b) => b,
        None => return None,
    };
    let parts = split_parts(body.as_slice());
    let ghost pv = parts@.map_values(|p: Vec<char>| p@);
    let mut names: Vec<Vec<char>> = Vec::new();
    for k in 0..parts.len()
        invariant
            pv == parts@.map_values(|p: Vec<char>| p@),
            names@.map_values(|p: Vec<char>| p@) == member_names(pv.take(k as int)),
    {
        assert(pv.take(k + 1).drop_last() =~= pv.take(k as int));
        assert(pv.take(k + 1).last() == parts@[k as int]@);
        let part = &parts[k];
        let mut replaced: Vec<char> = Vec::new();
        for j in 0..part.len()
            invariant
                replaced@ == dots_to_spaces(part@.take(j as int)),
        {
            replaced.push(if part[j] == '.' { ' ' } else { part[j] });
            assert(replaced@ =~= dots_to_spaces(part@.take(j + 1)));
        }
        assert(part@.take(part.len() as int) =~= part@);
        if text::not_blank(replaced.as_slice()) {
            let ghost before = names@.map_values(|p: Vec<char>| p@);
            names.push(replaced);
            assert(names@.map_values(|p: Vec<char>| p@) =~= before.push(dots_to_spaces(part@)));
        }
    }
    assert(pv.take(parts.len() as int) =~= pv);
    if names.len() == 0 {
        return None;
    }
    let ghost nv = names@.map_values(|p: Vec<char>| p@);
    let mut out = text::from_chars(names[0].as_slice());
    assert(nv.take(1).drop_last() =~= Seq::<Seq<char>>::empty());
    assert(out@ == join(nv.take(1), ", "@));
    for k in 1..names.len()
        invariant
            nv == names@.map_values(|p: Vec<char>| p@),
            nv.len() >= 1,
            out@ == join(nv.take(k as int), ", "@),
    {
        assert(nv.take(k + 1).drop_last() =~= nv.take(k as int));
        text::push_str(&mut out, ", ");
        text::push_chars(&mut out, names[k].as_slice());
        assert(out@ =~= join(nv.take(k + 1), ", "@));
    }
    assert(nv.take(names.len() as int) =~= nv);
    Some(out)
}

/// Number of people in a group DM, parsed from its `mpdm-a--b--c-1` name.
pub fn group_member_count(c: &Channel) -> (r: Option<usize>)
    ensures
        match r {
            Some(n) => group_member_count_spec(*c) == Some(n as nat),
            None => group_member_count_spec(*c) is None,
        },
{
    let name = match &c.name {
        Some(n) => n,
        None => return None,
    };
    let body = match mpdm_body_of(name.as_str()) {
        Some(b) => b,
        None => return None,
    };
    let parts = split_parts(body.as_slice());
    let ghost pv = parts@.map_values(|p: Vec<char>| p@);
    let mut count: usize = 0;
    for k in 0..parts.len()
        invariant
            pv == parts@.map_values(|p: Vec<char>| p@),
            count == non_blank_count(pv.take(k as int)),
            count <= k,
    {
        assert(pv.take(k + 1).drop_last() =~= pv.take(k as int));
        assert(pv.take(k + 1).last() == parts@[k as int]@);
        if text::not_blank(parts[k].as_slice()) {
            count = count + 1;
        }
    }
    assert(pv.take(parts.len() as int) =~= pv);
    if count > 0 {
        Some(count)
    } else {
        None
    }
}

} // verus!
