//! Channel lists: de-duplication, metadata merging and unread counts.

use vstd::prelude::*;

use crate::models::{BootData, Channel, ChannelId, CountsPage, SidebarDmsPage};

verus! {

/// Some channel of `s` has the id `id`.
pub open spec fn has_id(s: Seq<Channel>, id: String) -> bool {
    exists|j: int| 0 <= j < s.len() && (#[trigger] s[j]).id@ == id@
}

/// The channels of `s`, keeping only the first channel of each id.
pub open spec fn dedupe_ids(s: Seq<Channel>) -> Seq<Channel>
    decreases s.len(),
{
    if s.len() == 0 {
        Seq::empty()
    } else {
        let prev = dedupe_ids(s.drop_last());
        if has_id(prev, s.last().id) {
            prev
        } else {
            prev.push(s.last())
        }
    }
}

/// Two channel lists hold equal channels, position by position.
pub open spec fn same_channels(a: Seq<Channel>, b: Seq<Channel>) -> bool {
    a.len() == b.len() && forall|k: int|
        0 <= k < a.len() ==> (#[trigger] a[k])@ == b[k]@ && crate::models::map_same(a[k].extra@, b[k].extra@)
}

/// No two channels of `s` share an id.
pub open spec fn unique_ids(s: Seq<Channel>) -> bool {
    forall|i: int, j: int| 0 <= i < j < s.len() ==> (#[trigger] s[i]).id@ != (#[trigger] s[j]).id@
}

/// Does a channel in `out` already carry the id `id`?
fn contains_id(out: &Vec<Channel>, id: &ChannelId) -> (r: bool)
    ensures
        r == has_id(out@, *id),
{
    let mut i: usize = 0;
    while i < out.len()
        invariant
            i <= out@.len(),
            forall|k: int| 0 <= k < i ==> (#[trigger] out@[k]).id@ != id@,
        decreases out.len() - i,
    {
        if crate::text::str_eq(out[i].id.as_str(), id.as_str()) {
            return true;
        }
        i = i + 1;
    }
    false
}

/// Appends copies of the channels of `src` whose ids are not yet in `out`.
fn push_unique_channels(out: &mut Vec<Channel>, src: &Vec<Channel>, Ghost(before): Ghost<Seq<Channel>>)
    requires
        same_channels(old(out)@, dedupe_ids(before)),
    ensures
        same_channels(final(out)@, dedupe_ids(before + src@)),
{
    for i in 0..src.len()
        invariant
            same_channels(out@, dedupe_ids(before + src@.take(i as int))),
    {
        let ghost prefix = before + src@.take(i as int);
        let ghost next = before + src@.take(i + 1);
        assert(next.drop_last() =~= prefix);
        assert(next.last() == src@[i as int]);
        let ghost d = dedupe_ids(prefix);
        let seen = contains_id(out, &src[i].id);
        assert(seen == has_id(d, src@[i as int].id)) by {
            if seen {
                let j = choose|j: int| 0 <= j < out@.len() && (#[trigger] out@[j]).id@ == src@[i as int].id@;
                assert(out@[j]@ == d[j]@);
                assert(d[j].id@ == src@[i as int].id@);
            }
            if has_id(d, src@[i as int].id) {
                let j = choose|j: int| 0 <= j < d.len() && (#[trigger] d[j]).id@ == src@[i as int].id@;
                assert(out@[j]@ == d[j]@);
                assert(out@[j].id@ == src@[i as int].id@);
            }
        }
        if !seen {
            let c = crate::models::copy_channel(&src[i]);
            out.push(c);
        }
    }
    assert(src@.take(src.len() as int) =~= src@);
}

/// Every channel id of `s` appears in `dedupe_ids(s)`, and no id twice.
#[verifier::spinoff_prover]
#[verifier::rlimit(40)]
pub proof fn lemma_dedupe_ids(s: Seq<Channel>)
    ensures
        unique_ids(dedupe_ids(s)),
        forall|i: int| 0 <= i < s.len() ==> has_id(dedupe_ids(s), #[trigger] s[i].id),
        forall|i: int|
            0 <= i < dedupe_ids(s).len() ==> has_id(s, #[trigger] dedupe_ids(s)[i].id),
    decreases s.len(),
{
    if s.len() > 0 {
        let prev = dedupe_ids(s.drop_last());
        lemma_dedupe_ids(s.drop_last());
        assert forall|i: int| 0 <= i < s.len() implies has_id(dedupe_ids(s), #[trigger] s[i].id) by {
            if i < s.len() - 1 {
                assert(s[i] == s.drop_last()[i]);
                let j = choose|j: int| 0 <= j < prev.len() && (#[trigger] prev[j]).id@ == s[i].id@;
                assert(dedupe_ids(s)[j] == prev[j]);
            } else {
                if !has_id(prev, s.last().id) {
                    assert(dedupe_ids(s)[prev.len() as int] == s.last());
                }
            }
        }
        assert forall|i: int| 0 <= i < dedupe_ids(s).len() implies has_id(
            s,
            #[trigger] dedupe_ids(s)[i].id,
        ) by {
            if i < prev.len() {
                assert(dedupe_ids(s)[i] == prev[i]);
                let j = choose|j: int| 0 <= j < s.drop_last().len() && (#[trigger] s.drop_last()[j]).id@ == prev[i].id@;
                assert(s[j] == s.drop_last()[j]);
            } else {
                assert(s[s.len() - 1] == dedupe_ids(s)[i]);
            }
        }
    }
}

impl SidebarDmsPage {
    /// Direct and group DMs, the first channel of each id only.
    pub fn all_channels(&self) -> (out: Vec<Channel>)
        ensures
            same_channels(out@, dedupe_ids(self.ims@ + self.mpdms@)),
    {
        let mut out: Vec<Channel> = Vec::new();
        assert(Seq::<Channel>::empty() + self.ims@ =~= self.ims@);
        push_unique_channels(&mut out, &self.ims, Ghost(Seq::empty()));
        push_unique_channels(&mut out, &self.mpdms, Ghost(self.ims@));
        out
    }
}


/// Moves the channels of `src` whose ids are not yet in `out` to its end.
pub fn dedupe_into(out: &mut Vec<Channel>, src: Vec<Channel>, Ghost(before): Ghost<Seq<Channel>>)
    requires
        old(out)@ == dedupe_ids(before),
    ensures
        final(out)@ == dedupe_ids(before + src@),
{
    let mut src = src;
    let n0 = src.len();
    let ghost all = src@;
    let mut taken: usize = 0;
    while src.len() > 0
        invariant
            taken + src@.len() == all.len(),
            all.len() <= usize::MAX,
            src@ == all.skip(taken as int),
            out@ == dedupe_ids(before + all.take(taken as int)),
        decreases src.len(),
    {
        let c = src.remove(0);
        assert(c == all[taken as int]);
        assert(src@ =~= all.skip(taken + 1));
        let ghost prefix = before + all.take(taken as int);
        let ghost next = before + all.take(taken + 1);
        assert(next.drop_last() =~= prefix);
        assert(next.last() == c);
        let seen = contains_id(out, &c.id);
        if !seen {
            out.push(c);
        }
        taken = taken + 1;
    }
    assert(all.take(all.len() as int) =~= all);
}

/// The channels of four lists in order, the first channel of each id only.
pub fn unique_channels(a: Vec<Channel>, b: Vec<Channel>, c: Vec<Channel>, d: Vec<Channel>) -> (out: Vec<Channel>)
    ensures
        out@ == dedupe_ids(a@ + b@ + c@ + d@),
{
    let ghost (av, bv, cv) = (a@, b@, c@);
    let mut out: Vec<Channel> = Vec::new();
    assert(Seq::<Channel>::empty() + av =~= av);
    dedupe_into(&mut out, a, Ghost(Seq::empty()));
    dedupe_into(&mut out, b, Ghost(av));
    dedupe_into(&mut out, c, Ghost(av + bv));
    dedupe_into(&mut out, d, Ghost(av + bv + cv));
    out
}

impl BootData {
    /// Public channels, private groups, DMs and group DMs, in that order,
    /// the first channel of each id only.
    pub fn all_channels(&self) -> (out: Vec<Channel>)
        ensures
            same_channels(out@, dedupe_ids(self.channels@ + self.groups@ + self.ims@ + self.mpims@)),
    {
        let mut out: Vec<Channel> = Vec::new();
        assert(Seq::<Channel>::empty() + self.channels@ =~= self.channels@);
        push_unique_channels(&mut out, &self.channels, Ghost(Seq::empty()));
        push_unique_channels(&mut out, &self.groups, Ghost(self.channels@));
        push_unique_channels(&mut out, &self.ims, Ghost(self.channels@ + self.groups@));
        push_unique_channels(&mut out, &self.mpims, Ghost(self.channels@ + self.groups@ + self.ims@));
        out
    }
}

/// Sum of the counts of `s`.
pub open spec fn count_sum(s: Seq<(String, u32)>) -> nat
    decreases s.len(),
{
    if s.len() == 0 {
        0
    } else {
        count_sum(s.drop_last()) + (s.last().1 as nat)
    }
}

/// The sum capped at `u32::MAX`.
pub open spec fn capped(n: nat) -> u32 {
    if n > u32::MAX {
        u32::MAX
    } else {
        n as u32
    }
}

impl CountsPage {
    /// Total unread activity, capped at `u32::MAX`, when Slack reports it.
    pub fn activity_unread_count(&self) -> (r: Option<u32>)
        ensures
            r == (match self.activity_v2 {
                Some(counts) => Some(capped(count_sum(counts@))),
                None => None,
            }),
    {
        match &self.activity_v2 {
            Some(counts) => {
                let mut total: u32 = 0;
                for i in 0..counts.len()
                    invariant
                        total == capped(count_sum(counts@.take(i as int))),
                {
                    assert(counts@.take(i + 1).drop_last() =~= counts@.take(i as int));
                    total = total.saturating_add(counts[i].1);
                }
                assert(counts@.take(counts.len() as int) =~= counts@);
                Some(total)
            },
            None => None,
        }
    }

    /// Public channels, private groups, DMs and group DMs, in that order,
    /// the first channel of each id only.
    pub fn all_channels(&self) -> (out: Vec<Channel>)
        ensures
            same_channels(out@, dedupe_ids(self.channels@ + self.groups@ + self.ims@ + self.mpims@)),
    {
        let mut out: Vec<Channel> = Vec::new();
        assert(Seq::<Channel>::empty() + self.channels@ =~= self.channels@);
        push_unique_channels(&mut out, &self.channels, Ghost(Seq::empty()));
        push_unique_channels(&mut out, &self.groups, Ghost(self.channels@));
        push_unique_channels(&mut out, &self.ims, Ghost(self.channels@ + self.groups@));
        push_unique_channels(&mut out, &self.mpims, Ghost(self.channels@ + self.groups@ + self.ims@));
        out
    }
}

/// The channel lists of a page keep one channel per id and lose none.
pub proof fn law_all_channels_unique_and_complete(s: Seq<Channel>, out: Seq<Channel>)
    requires
        same_channels(out, dedupe_ids(s)),
    ensures
        unique_ids(out),
        forall|i: int| 0 <= i < s.len() ==> has_id(out, #[trigger] s[i].id),
{
    lemma_dedupe_ids(s);
    let d = dedupe_ids(s);
    assert forall|i: int, j: int| 0 <= i < j < out.len() implies (#[trigger] out[i]).id@ != (#[trigger] out[j]).id@ by {
        assert(out[i]@ == d[i]@);
        assert(out[j]@ == d[j]@);
    }
    assert forall|i: int| 0 <= i < s.len() implies has_id(out, #[trigger] s[i].id) by {
        let j = choose|j: int| 0 <= j < d.len() && (#[trigger] d[j]).id@ == s[i].id@;
        assert(out[j]@ == d[j]@);
    }
}

// ---------------------------------------------------------------------------
// Update times
// ---------------------------------------------------------------------------

pub open spec fn is_dot() -> spec_fn(char) -> bool {
    |c: char| c == '.'
}

/// The part of `s` before its first `.` (all of it when there is none).
pub open spec fn before_dot(s: Seq<char>) -> Seq<char> {
    let i = crate::text::first_where(s, is_dot());
    s.take(i as int)
}

/// A channel's `updated` time as Slack sends it: a number when it is a
/// non-negative integer, or the whole seconds of a `seconds.fraction`
/// string; anything else is no time.
pub open spec fn updated_spec(value: Option<crate::models::JsonValue>) -> Option<u64> {
    match value {
        Some(j) => match j.scalar {
            crate::models::JsonScalar::Number(n) => n,
            crate::models::JsonScalar::Str(s) => crate::text::parse_u64_spec(before_dot(s@)),
            _ => None,
        },
        None => None,
    }
}

/// Reads a channel's `updated` time.
pub fn updated_from_json(value: Option<&crate::models::JsonValue>) -> (r: Option<u64>)
    ensures
        r == updated_spec(match value {
            Some(v) => Some(*v),
            None => None,
        }),
{
    let v = match value {
        Some(v) => v,
        None => return None,
    };
    match &v.scalar {
        crate::models::JsonScalar::Number(n) => *n,
        crate::models::JsonScalar::Str(s) => {
            let chars = crate::text::to_chars(s.as_str());
            let ghost p = is_dot();
            let mut i: usize = 0;
            assert(chars@.skip(0) =~= chars@);
            while i < chars.len() && chars[i] != '.'
                invariant
                    p == is_dot(),
                    i <= chars@.len(),
                    crate::text::first_where(chars@, p) == i + crate::text::first_where(chars@.skip(i as int), p),
                decreases chars@.len() - i,
            {
                assert(chars@.skip(i as int).drop_first() =~= chars@.skip(i + 1));
                assert(chars@.skip(i as int)[0] == chars@[i as int]);
                assert(!p(chars@.skip(i as int)[0]));
                i = i + 1;
            }
            proof {
                if i < chars@.len() {
                    assert(chars@.skip(i as int)[0] == '.');
                }
                assert(chars@.skip(0) =~= chars@);
            }
            let head = &chars.as_slice()[0..i];
            assert(head@ =~= before_dot(s@));
            crate::text::parse_u64(head)
        },
        _ => None,
    }
}

} // verus!
