//! The sidebar's sections: Slack's linked list of sections put in order,
//! hidden ones dropped, and each resolved with the user's sort and
//! visibility preferences.

use vstd::prelude::*;

use crate::keyed;
use crate::models::{ChannelId, ChannelSection, strings_view};
use crate::state::{ResolvedSection, SectionPref, SectionSort, Workspace};
use crate::text;

verus! {

broadcast use vstd::string::group_string_axioms;

// ---------------------------------------------------------------------------
// Ordering the linked list
// ---------------------------------------------------------------------------

/// Does some section point at `id` as its successor?
pub open spec fn pointed_at(secs: Seq<ChannelSection>, id: Seq<char>) -> bool {
    exists|j: int| 0 <= j < secs.len() && #[trigger] text::string_opt(secs[j].next_channel_section_id) == Some(id)
}

/// The first section no other section points at, or `secs.len()`.
pub open spec fn head_from(secs: Seq<ChannelSection>, i: nat) -> nat
    decreases secs.len() - i,
{
    if i >= secs.len() {
        secs.len()
    } else if !pointed_at(secs, secs[i as int].channel_section_id@) {
        i
    } else {
        head_from(secs, i + 1)
    }
}

/// The last section with id `id` (a later section of the same id wins when
/// sections are looked up by id), or `secs.len()`.
pub open spec fn last_with_id(secs: Seq<ChannelSection>, id: Seq<char>) -> nat
    decreases secs.len(),
{
    if secs.len() == 0 {
        0
    } else if secs.last().channel_section_id@ == id {
        (secs.len() - 1) as nat
    } else if last_with_id(secs.drop_last(), id) == secs.len() - 1 {
        secs.len()
    } else {
        last_with_id(secs.drop_last(), id)
    }
}

/// The chain of sections from `i`, following successors by id, stopping at
/// a section whose id was already visited or at a missing successor.
pub open spec fn chain(secs: Seq<ChannelSection>, i: int, seen: Seq<Seq<char>>, fuel: nat) -> Seq<int>
    decreases fuel,
{
    if fuel == 0 || !(0 <= i < secs.len()) || seen.contains(secs[i].channel_section_id@) {
        Seq::empty()
    } else {
        let rest = match secs[i].next_channel_section_id {
            Some(n) => chain(secs, last_with_id(secs, n@) as int, seen.push(secs[i].channel_section_id@), (fuel - 1) as nat),
            None => Seq::empty(),
        };
        seq![i] + rest
    }
}

/// The ids of the sections at `idx`.
pub open spec fn ids_at(secs: Seq<ChannelSection>, idx: Seq<int>) -> Seq<Seq<char>> {
    idx.map_values(|i: int| secs[i].channel_section_id@)
}

/// The sections, by position, whose id is not among `seen`.
pub open spec fn rest_after(secs: Seq<ChannelSection>, seen: Seq<Seq<char>>, n: nat) -> Seq<int>
    decreases n,
{
    if n == 0 {
        Seq::empty()
    } else {
        let prev = rest_after(secs, seen, (n - 1) as nat);
        if seen.contains(secs[n - 1].channel_section_id@) {
            prev
        } else {
            prev.push(n - 1)
        }
    }
}

/// The order in which sections are shown: from the head of the linked list
/// along the successors, then every section the walk did not reach, in
/// Slack's order. Without a head (a cycle), Slack's order.
pub open spec fn section_order(secs: Seq<ChannelSection>) -> Seq<int> {
    let h = head_from(secs, 0);
    if h >= secs.len() {
        upto(secs.len())
    } else {
        let c = chain(secs, h as int, Seq::empty(), secs.len() + 1);
        c + rest_after(secs, ids_at(secs, c), secs.len())
    }
}

proof fn lemma_head_from(secs: Seq<ChannelSection>, i: nat, j: nat)
    requires
        i <= j <= secs.len(),
        forall|k: int| i <= k < j ==> pointed_at(secs, #[trigger] secs[k].channel_section_id@),
        j == secs.len() || !pointed_at(secs, secs[j as int].channel_section_id@),
    ensures
        head_from(secs, i) == j,
    decreases j - i,
{
    if i < j {
        lemma_head_from(secs, i + 1, j);
    }
}

proof fn lemma_last_with_id(secs: Seq<ChannelSection>, id: Seq<char>)
    ensures
        last_with_id(secs, id) <= secs.len(),
        last_with_id(secs, id) < secs.len() ==> secs[last_with_id(secs, id) as int].channel_section_id@ == id,
        last_with_id(secs, id) < secs.len() ==> forall|k: int|
            last_with_id(secs, id) < k < secs.len() ==> (#[trigger] secs[k]).channel_section_id@ != id,
        last_with_id(secs, id) == secs.len() ==> forall|k: int| 0 <= k < secs.len() ==> (#[trigger] secs[k]).channel_section_id@ != id,
    decreases secs.len(),
{
    if secs.len() > 0 {
        lemma_last_with_id(secs.drop_last(), id);
        assert forall|k: int| 0 <= k < secs.len() - 1 implies (#[trigger] secs[k]) == secs.drop_last()[k] by {}
    }
}

/// Distinct names each found in `pool` are at most as many as its entries.
proof fn lemma_distinct_in_pool(names: Seq<Seq<char>>, pool: Seq<Seq<char>>)
    requires
        names.no_duplicates(),
        forall|i: int| 0 <= i < names.len() ==> pool.contains(#[trigger] names[i]),
    ensures
        names.len() <= pool.len(),
    decreases names.len(),
{
    if names.len() > 0 {
        let x = names.last();
        let rest = names.drop_last();
        let p = choose|p: int| 0 <= p < pool.len() && pool[p] == x;
        let pool2 = pool.remove(p);
        assert forall|i: int| 0 <= i < rest.len() implies pool2.contains(#[trigger] rest[i]) by {
            assert(rest[i] == names[i]);
            assert(names[i] != names[names.len() - 1]);
            let q = choose|q: int| 0 <= q < pool.len() && pool[q] == names[i];
            assert(q != p);
            if q < p {
                assert(pool2[q] == pool[q]);
            } else {
                assert(pool2[q - 1] == pool[q]);
            }
        }
        assert(rest.no_duplicates()) by {
            assert forall|i: int, j: int| 0 <= i < rest.len() && 0 <= j < rest.len() && i != j implies rest[i] != rest[j] by {
                assert(rest[i] == names[i]);
                assert(rest[j] == names[j]);
            }
        }
        lemma_distinct_in_pool(rest, pool2);
    }
}

/// The positions `0..n`.
pub open spec fn upto(n: nat) -> Seq<int> {
    Seq::new(n, |j: int| j)
}

/// Positions as integers.
pub open spec fn idx(s: Seq<usize>) -> Seq<int> {
    s.map_values(|i: usize| i as int)
}

/// The texts of string slices.
pub open spec fn strs(s: Seq<&str>) -> Seq<Seq<char>> {
    s.map_values(|x: &str| x@)
}

/// The ids of all sections.
pub open spec fn all_ids(secs: Seq<ChannelSection>) -> Seq<Seq<char>> {
    secs.map_values(|s: ChannelSection| s.channel_section_id@)
}

/// Index of the first section no other section points at, or the length.
fn find_head(secs: &Vec<ChannelSection>) -> (r: usize)
    ensures
        r == head_from(secs@, 0),
{
    let n = secs.len();
    let mut i: usize = 0;
    while i < n
        invariant
            n == secs@.len(),
            i <= n,
            forall|k: int| 0 <= k < i ==> pointed_at(secs@, #[trigger] secs@[k].channel_section_id@),
        decreases n - i,
    {
        let id = secs[i].channel_section_id.as_str();
        let mut j: usize = 0;
        let mut pointed = false;
        while j < n && !pointed
            invariant
                n == secs@.len(),
                i < n,
                id@ == secs@[i as int].channel_section_id@,
                j <= n,
                pointed ==> pointed_at(secs@, id@),
                !pointed ==> forall|k: int| 0 <= k < j ==> #[trigger] text::string_opt(secs@[k].next_channel_section_id) != Some(id@),
            decreases n - j + if pointed { 0int } else { 1int },
        {
            match &secs[j].next_channel_section_id {
                Some(next) => {
                    if text::str_eq(next.as_str(), id) {
                        assert(text::string_opt(secs@[j as int].next_channel_section_id) == Some(id@));
                        pointed = true;
                    }
                },
                None => {},
            }
            if !pointed {
                j = j + 1;
            }
        }
        if !pointed {
            proof {
                lemma_head_from(secs@, 0, i as nat);
            }
            return i;
        }
        i = i + 1;
    }
    proof {
        lemma_head_from(secs@, 0, n as nat);
    }
    n
}

/// Index of the last section with id `id`, or the length.
fn find_last_id(secs: &Vec<ChannelSection>, id: &str) -> (r: usize)
    ensures
        r == last_with_id(secs@, id@),
{
    let n = secs.len();
    let mut i: usize = n;
    while i > 0 && !text::str_eq(secs[i - 1].channel_section_id.as_str(), id)
        invariant
            n == secs@.len(),
            i <= n,
            forall|k: int| i <= k < n ==> (#[trigger] secs@[k]).channel_section_id@ != id@,
        decreases i,
    {
        i = i - 1;
    }
    proof {
        lemma_last_with_id(secs@, id@);
        let l = last_with_id(secs@, id@);
        if i == 0 {
            if l < n {
                assert(secs@[l as int].channel_section_id@ == id@);
            }
        } else {
            assert(secs@[i - 1].channel_section_id@ == id@);
            if l < n {
                assert(secs@[l as int].channel_section_id@ == id@);
            }
        }
    }
    if i == 0 {
        n
    } else {
        i - 1
    }
}

/// Is `x` among `seen`?
fn seen_has(seen: &Vec<&str>, x: &str) -> (r: bool)
    ensures
        r == strs(seen@).contains(x@),
{
    let ghost sv = strs(seen@);
    let mut k: usize = 0;
    while k < seen.len()
        invariant
            k <= seen@.len(),
            sv == strs(seen@),
            forall|j: int| 0 <= j < k ==> (#[trigger] seen@[j])@ != x@,
        decreases seen.len() - k,
    {
        if text::str_eq(seen[k], x) {
            assert(sv[k as int] == x@);
            return true;
        }
        k = k + 1;
    }
    assert(!sv.contains(x@)) by {
        if sv.contains(x@) {
            let j = choose|j: int| 0 <= j < sv.len() && sv[j] == x@;
            assert(seen@[j]@ == x@);
        }
    }
    false
}

/// The positions of the sections in the order they are shown.
pub fn linked_list_order(sections: &Vec<ChannelSection>) -> (r: Vec<usize>)
    ensures
        idx(r@) == section_order(sections@),
{
    let n = sections.len();
    let h = find_head(sections);
    if h >= n {
        let mut all: Vec<usize> = Vec::new();
        for i in 0..n
            invariant
                idx(all@) == upto(i as nat),
        {
            let ghost before = idx(all@);
            all.push(i);
            assert(idx(all@) =~= before.push(i as int));
            assert(upto((i + 1) as nat) =~= upto(i as nat).push(i as int));
        }
        return all;
    }
    let mut out: Vec<usize> = Vec::new();
    let mut seen: Vec<&str> = Vec::new();
    let mut cur: usize = h;
    let mut going = true;
    let ghost mut fuel: nat = (n + 1) as nat;
    let ghost target = chain(sections@, h as int, Seq::empty(), (n + 1) as nat);
    assert(strs(seen@) =~= Seq::<Seq<char>>::empty());
    while going
        invariant
            n == sections@.len(),
            going ==> cur < n,
            going ==> idx(out@) + chain(sections@, cur as int, strs(seen@), fuel) == target,
            !going ==> idx(out@) == target,
            seen@.len() + fuel == n + 1,
            strs(seen@).no_duplicates(),
            forall|k: int| 0 <= k < seen@.len() ==> all_ids(sections@).contains(#[trigger] seen@[k]@),
            strs(seen@) == ids_at(sections@, idx(out@)),
            forall|k: int| 0 <= k < out@.len() ==> out@[k] < n,
        decreases fuel + if going { 1int } else { 0int },
    {
        let ghost sv = strs(seen@);
        let ghost ov = idx(out@);
        proof {
            assert forall|k: int| 0 <= k < sv.len() implies all_ids(sections@).contains(#[trigger] sv[k]) by {
                assert(sv[k] == seen@[k]@);
            }
            lemma_distinct_in_pool(sv, all_ids(sections@));
        }
        let id = sections[cur].channel_section_id.as_str();
        if seen_has(&seen, id) {
            going = false;
        } else {
            let ghost rest = match sections@[cur as int].next_channel_section_id {
                Some(nx) => chain(sections@, last_with_id(sections@, nx@) as int, sv.push(id@), (fuel - 1) as nat),
                None => Seq::<int>::empty(),
            };
            assert(chain(sections@, cur as int, sv, fuel) == seq![cur as int] + rest);
            let ghost old_seen = seen@;
            out.push(cur);
            seen.push(id);
            proof {
                assert(idx(out@) =~= ov.push(cur as int));
                assert(strs(seen@) =~= sv.push(id@));
                assert(all_ids(sections@)[cur as int] == id@);
                assert forall|k: int| 0 <= k < seen@.len() implies all_ids(sections@).contains(#[trigger] seen@[k]@) by {
                    if k < sv.len() {
                        assert(seen@[k] == old_seen[k]);
                    }
                }
                assert(sv.push(id@).no_duplicates()) by {
                    assert forall|a: int, b: int| 0 <= a < sv.len() + 1 && 0 <= b < sv.len() + 1 && a != b implies sv.push(id@)[a] != sv.push(id@)[b] by {
                        if a < sv.len() && b < sv.len() {
                        } else if a < sv.len() {
                            assert(sv[a] != id@);
                        } else {
                            assert(sv[b] != id@);
                        }
                    }
                }
                assert(ids_at(sections@, ov.push(cur as int)) =~= ids_at(sections@, ov).push(id@));
                fuel = (fuel - 1) as nat;
            }
            match &sections[cur].next_channel_section_id {
                Some(nx) => {
                    let j = find_last_id(sections, nx.as_str());
                    if j < n {
                        cur = j;
                    } else {
                        proof {
                            reveal_with_fuel(chain, 1);
                        }
                        assert(rest =~= Seq::<int>::empty());
                        assert(idx(out@) =~= target);
                        going = false;
                    }
                },
                None => {
                    assert(idx(out@) =~= target);
                    going = false;
                },
            }
        }
    }
    let ghost ov = idx(out@);
    let mut tail: Vec<usize> = Vec::new();
    for i in 0..n
        invariant
            n == sections@.len(),
            ov == idx(out@),
            strs(seen@) == ids_at(sections@, ov),
            idx(tail@) == rest_after(sections@, ids_at(sections@, ov), i as nat),
    {
        let ghost before = idx(tail@);
        if !seen_has(&seen, sections[i].channel_section_id.as_str()) {
            tail.push(i);
            assert(idx(tail@) =~= before.push(i as int));
        }
    }
    let ghost tv = idx(tail@);
    let mut k: usize = 0;
    while k < tail.len()
        invariant
            k <= tail@.len(),
            tv == idx(tail@),
            idx(out@) == ov + tv.take(k as int),
        decreases tail.len() - k,
    {
        let ghost before = idx(out@);
        out.push(tail[k]);
        assert(idx(out@) =~= before.push(tv[k as int]));
        assert(tv.take(k + 1) =~= tv.take(k as int).push(tv[k as int]));
        assert(idx(out@) =~= ov + tv.take(k + 1));
        k = k + 1;
    }
    assert(tv.take(tv.len() as int) =~= tv);
    out
}

proof fn lemma_chain_range(secs: Seq<ChannelSection>, i: int, seen: Seq<Seq<char>>, fuel: nat)
    ensures
        forall|k: int| 0 <= k < chain(secs, i, seen, fuel).len() ==> 0 <= #[trigger] chain(secs, i, seen, fuel)[k] < secs.len(),
    decreases fuel,
{
    if !(fuel == 0 || !(0 <= i < secs.len()) || seen.contains(secs[i].channel_section_id@)) {
        match secs[i].next_channel_section_id {
            Some(n) => {
                let j = last_with_id(secs, n@) as int;
                let nseen = seen.push(secs[i].channel_section_id@);
                lemma_chain_range(secs, j, nseen, (fuel - 1) as nat);
                let rest = chain(secs, j, nseen, (fuel - 1) as nat);
                assert forall|k: int| 0 <= k < chain(secs, i, seen, fuel).len() implies 0 <= #[trigger] chain(secs, i, seen, fuel)[k] < secs.len() by {
                    if k > 0 {
                        assert(chain(secs, i, seen, fuel)[k] == rest[k - 1]);
                    }
                }
            },
            None => {},
        }
    }
}

proof fn lemma_rest_range(secs: Seq<ChannelSection>, seen: Seq<Seq<char>>, n: nat)
    ensures
        forall|k: int| 0 <= k < rest_after(secs, seen, n).len() ==> 0 <= #[trigger] rest_after(secs, seen, n)[k] < n,
    decreases n,
{
    if n > 0 {
        lemma_rest_range(secs, seen, (n - 1) as nat);
        let prev = rest_after(secs, seen, (n - 1) as nat);
        assert forall|k: int| 0 <= k < rest_after(secs, seen, n).len() implies 0 <= #[trigger] rest_after(secs, seen, n)[k] < n by {
            if k < prev.len() {
                assert(rest_after(secs, seen, n)[k] == prev[k]);
            }
        }
    }
}

/// The shown order lists positions of sections.
pub proof fn lemma_order_in_range(secs: Seq<ChannelSection>, k: int)
    requires
        0 <= k < section_order(secs).len(),
    ensures
        0 <= section_order(secs)[k] < secs.len(),
{
    let h = head_from(secs, 0);
    if h < secs.len() {
        let c = chain(secs, h as int, Seq::empty(), secs.len() + 1);
        lemma_chain_range(secs, h as int, Seq::empty(), secs.len() + 1);
        lemma_rest_range(secs, ids_at(secs, c), secs.len());
        if k >= c.len() {
            assert(section_order(secs)[k] == rest_after(secs, ids_at(secs, c), secs.len())[k - c.len()]);
        } else {
            assert(section_order(secs)[k] == c[k]);
        }
    }
}

// ---------------------------------------------------------------------------
// Resolving sections
// ---------------------------------------------------------------------------

/// A resolved section as plain values.
pub struct ResolvedModel {
    pub id: Seq<char>,
    pub kind: Seq<char>,
    pub title: Seq<char>,
    pub sort: SectionSort,
    pub show_all: bool,
    pub channel_ids: Seq<Seq<char>>,
}

impl View for ResolvedSection {
    type V = ResolvedModel;

    open spec fn view(&self) -> ResolvedModel {
        ResolvedModel {
            id: self.id@,
            kind: self.kind@,
            title: self.title@,
            sort: self.sort,
            show_all: self.show_all,
            channel_ids: strings_view(self.channel_ids@),
        }
    }
}

pub open spec fn rviews(v: Seq<ResolvedSection>) -> Seq<ResolvedModel> {
    v.map_values(|r: ResolvedSection| r@)
}

/// How a section sorts: the user's choice ("recent", "priority", anything
/// else alphabetical), else by recency for DMs and VIPs, else alphabetical.
pub open spec fn sort_for(pref: Option<SectionPref>, kind: Seq<char>) -> SectionSort {
    if pref is Some && pref->0.sort is Some {
        let s = pref->0.sort->0@;
        if s == "recent"@ {
            SectionSort::Recent
        } else if s == "priority"@ {
            SectionSort::Priority
        } else {
            SectionSort::Alpha
        }
    } else if kind == "direct_messages"@ || kind == "priority"@ {
        SectionSort::Recent
    } else {
        SectionSort::Alpha
    }
}

/// Whether a section lists read channels too: starred always; with a
/// preference, when it says "all"; without one, external connections too.
pub open spec fn show_all_for(pref: Option<SectionPref>, kind: Seq<char>) -> bool {
    match pref {
        None => kind == "stars"@ || kind == "slack_connect"@,
        Some(p) => text::string_opt(p.sidebar) == Some("all"@) || kind == "stars"@,
    }
}

pub open spec fn resolve_spec(
    prefs: Seq<(String, SectionPref)>,
    id: Seq<char>,
    kind: Seq<char>,
    title: Seq<char>,
    ids: Seq<Seq<char>>,
) -> ResolvedModel {
    let pref = keyed::get(prefs, id);
    ResolvedModel { id, kind, title, sort: sort_for(pref, kind), show_all: show_all_for(pref, kind), channel_ids: ids }
}

/// The fixed title of Slack's built-in section kinds.
pub open spec fn builtin_title(kind: Seq<char>) -> Option<Seq<char>> {
    if kind == "slack_connect"@ {
        Some("External connections"@)
    } else if kind == "direct_messages"@ {
        Some("Direct messages"@)
    } else if kind == "stars"@ {
        Some("Starred"@)
    } else if kind == "channels"@ {
        Some("Channels"@)
    } else {
        None
    }
}

/// The sections at the positions of `order` that are shown: hidden ones and
/// empty custom ones are skipped.
pub open spec fn listed_sections(ws: Workspace, order: Seq<int>) -> Seq<ResolvedModel>
    decreases order.len(),
{
    if order.len() == 0 {
        Seq::empty()
    } else {
        let prev = listed_sections(ws, order.drop_last());
        let s = ws.sidebar.sections@[order.last()];
        let prefs = ws.sidebar.section_prefs@;
        let ids = strings_view(s.channel_ids_page.channel_ids@);
        if s.is_hidden || keyed::listed(ws.sidebar.hidden_sections@, s.channel_section_id@) {
            prev
        } else {
            match builtin_title(s.kind@) {
                Some(t) => prev.push(resolve_spec(prefs, s.channel_section_id@, s.kind@, t, ids)),
                None => if ids.len() == 0 {
                    prev
                } else {
                    prev.push(resolve_spec(prefs, s.channel_section_id@, s.kind@, s.name@, ids))
                },
            }
        }
    }
}

pub open spec fn has_kind(v: Seq<ResolvedModel>, kind: Seq<char>) -> bool {
    exists|i: int| 0 <= i < v.len() && (#[trigger] v[i]).kind == kind
}

/// A section of a built-in kind with no listed channels.
pub open spec fn builtin(prefs: Seq<(String, SectionPref)>, kind: Seq<char>, title: Seq<char>) -> ResolvedModel {
    resolve_spec(prefs, kind, kind, title, Seq::empty())
}

/// Direct messages and channels always have a section.
pub open spec fn with_defaults(prefs: Seq<(String, SectionPref)>, v: Seq<ResolvedModel>) -> Seq<ResolvedModel> {
    let a = if has_kind(v, "direct_messages"@) {
        v
    } else {
        v.push(builtin(prefs, "direct_messages"@, "Direct messages"@))
    };
    if has_kind(a, "channels"@) {
        a
    } else {
        a.push(builtin(prefs, "channels"@, "Channels"@))
    }
}

/// The sidebar's sections, in order.
pub open spec fn sidebar_sections_spec(ws: Workspace) -> Seq<ResolvedModel> {
    let prefs = ws.sidebar.section_prefs@;
    let pri = if ws.priority_sidebar_section {
        seq![builtin(prefs, "priority"@, "VIP unreads"@)]
    } else {
        Seq::empty()
    };
    if ws.sidebar.sections@.len() == 0 {
        pri + seq![
            builtin(prefs, "slack_connect"@, "External connections"@),
            builtin(prefs, "direct_messages"@, "Direct messages"@),
            builtin(prefs, "stars"@, "Starred"@),
            builtin(prefs, "channels"@, "Channels"@),
        ]
    } else {
        with_defaults(prefs, pri + listed_sections(ws, section_order(ws.sidebar.sections@)))
    }
}

/// Is any section of `out` of kind `kind`?
fn any_kind(out: &Vec<ResolvedSection>, kind: &str) -> (r: bool)
    ensures
        r == has_kind(rviews(out@), kind@),
{
    let mut i: usize = 0;
    while i < out.len()
        invariant
            i <= out@.len(),
            forall|j: int| 0 <= j < i ==> (#[trigger] out@[j]).kind@ != kind@,
        decreases out.len() - i,
    {
        if text::str_eq(out[i].kind.as_str(), kind) {
            assert(rviews(out@)[i as int].kind == kind@);
            return true;
        }
        i = i + 1;
    }
    assert(!has_kind(rviews(out@), kind@)) by {
        if has_kind(rviews(out@), kind@) {
            let j = choose|j: int| 0 <= j < out@.len() && (#[trigger] rviews(out@)[j]).kind == kind@;
            assert(rviews(out@)[j] == out@[j]@);
        }
    }
    false
}

impl Workspace {
    /// A section resolved with the user's preferences for it.
    pub fn resolve_section(&self, id: &str, kind: &str, title: &str, channel_ids: &Vec<ChannelId>) -> (r: ResolvedSection)
        ensures
            r@ == resolve_spec(self.sidebar.section_prefs@, id@, kind@, title@, strings_view(channel_ids@)),
    {
        let pref = keyed::get_ref(&self.sidebar.section_prefs, id);
        let is_dm_or_vip = text::str_eq(kind, "direct_messages") || text::str_eq(kind, "priority");
        let sort = match pref {
            Some(p) => match &p.sort {
                Some(s) => if text::str_eq(s.as_str(), "recent") {
                    SectionSort::Recent
                } else if text::str_eq(s.as_str(), "priority") {
                    SectionSort::Priority
                } else {
                    SectionSort::Alpha
                },
                None => if is_dm_or_vip {
                    SectionSort::Recent
                } else {
                    SectionSort::Alpha
                },
            },
            None => if is_dm_or_vip {
                SectionSort::Recent
            } else {
                SectionSort::Alpha
            },
        };
        let stars = text::str_eq(kind, "stars");
        let show_all = match pref {
            None => stars || text::str_eq(kind, "slack_connect"),
            Some(p) => text::opt_eq_str(&p.sidebar, "all") || stars,
        };
        let ids = crate::models::copy_strings(channel_ids);
        ResolvedSection {
            id: text::owned(id),
            kind: text::owned(kind),
            title: text::owned(title),
            sort,
            show_all,
            channel_ids: ids,
        }
    }

    /// The sidebar's sections in the order they are shown, each resolved
    /// with the user's preferences.
    pub fn resolved_sidebar_sections(&self) -> (r: Vec<ResolvedSection>)
        ensures
            rviews(r@) == sidebar_sections_spec(*self),
    {
        let ghost prefs = self.sidebar.section_prefs@;
        let none: Vec<ChannelId> = Vec::new();
        assert(strings_view(none@) =~= Seq::<Seq<char>>::empty());
        let mut out: Vec<ResolvedSection> = Vec::new();
        if self.priority_sidebar_section {
            let s = self.resolve_section("priority", "priority", "VIP unreads", &none);
            out.push(s);
            assert(rviews(out@) =~= seq![builtin(prefs, "priority"@, "VIP unreads"@)]);
        } else {
            assert(rviews(out@) =~= Seq::<ResolvedModel>::empty());
        }
        let ghost pri = rviews(out@);
        if self.sidebar.sections.len() == 0 {
            out.push(self.resolve_section("slack_connect", "slack_connect", "External connections", &none));
            out.push(self.resolve_section("direct_messages", "direct_messages", "Direct messages", &none));
            out.push(self.resolve_section("stars", "stars", "Starred", &none));
            out.push(self.resolve_section("channels", "channels", "Channels", &none));
            assert(rviews(out@) =~= pri + seq![
                builtin(prefs, "slack_connect"@, "External connections"@),
                builtin(prefs, "direct_messages"@, "Direct messages"@),
                builtin(prefs, "stars"@, "Starred"@),
                builtin(prefs, "channels"@, "Channels"@),
            ]);
            return out;
        }
        let order = linked_list_order(&self.sidebar.sections);
        let ghost ov = idx(order@);
        for k in 0..order.len()
            invariant
                ov == idx(order@),
                ov == section_order(self.sidebar.sections@),
                prefs == self.sidebar.section_prefs@,
                rviews(out@) == pri + listed_sections(*self, ov.take(k as int)),
        {
            assert(ov.take(k + 1).drop_last() =~= ov.take(k as int));
            assert(ov.take(k + 1).last() == order@[k as int] as int);
            proof {
                lemma_order_in_range(self.sidebar.sections@, k as int);
            }
            let sec = &self.sidebar.sections[order[k]];
            let ghost before = rviews(out@);
            let hidden = sec.is_hidden || keyed::is_listed(&self.sidebar.hidden_sections, sec.channel_section_id.as_str());
            if !hidden {
                let kind = sec.kind.as_str();
                let title: Option<&str> = if text::str_eq(kind, "slack_connect") {
                    Some("External connections")
                } else if text::str_eq(kind, "direct_messages") {
                    Some("Direct messages")
                } else if text::str_eq(kind, "stars") {
                    Some("Starred")
                } else if text::str_eq(kind, "channels") {
                    Some("Channels")
                } else {
                    None
                };
                let ids = &sec.channel_ids_page.channel_ids;
                match title {
                    Some(t) => {
                        let r = self.resolve_section(sec.channel_section_id.as_str(), kind, t, ids);
                        out.push(r);
                        assert(rviews(out@) =~= before.push(r@));
                    },
                    None => {
                        if ids.len() > 0 {
                            let r = self.resolve_section(sec.channel_section_id.as_str(), kind, sec.name.as_str(), ids);
                            out.push(r);
                            assert(rviews(out@) =~= before.push(r@));
                        }
                    },
                }
            }
        }
        assert(ov.take(order.len() as int) =~= ov);
        let ghost base = rviews(out@);
        if !any_kind(&out, "direct_messages") {
            out.push(self.resolve_section("direct_messages", "direct_messages", "Direct messages", &none));
            assert(rviews(out@) =~= base.push(builtin(prefs, "direct_messages"@, "Direct messages"@)));
        }
        let ghost a = rviews(out@);
        if !any_kind(&out, "channels") {
            out.push(self.resolve_section("channels", "channels", "Channels", &none));
            assert(rviews(out@) =~= a.push(builtin(prefs, "channels"@, "Channels"@)));
        }
        out
    }
}


/// With sections from Slack, the sidebar always has a section for direct
/// messages and one for channels.
pub proof fn law_sections_have_dms_and_channels(ws: Workspace)
    ensures
        has_kind(sidebar_sections_spec(ws), "direct_messages"@),
        has_kind(sidebar_sections_spec(ws), "channels"@),
{
    let prefs = ws.sidebar.section_prefs@;
    if ws.sidebar.sections@.len() == 0 {
        let v = sidebar_sections_spec(ws);
        let off: int = if ws.priority_sidebar_section { 1 } else { 0 };
        assert(v[off + 1].kind == "direct_messages"@);
        assert(v[off + 3].kind == "channels"@);
    } else {
        let pri = if ws.priority_sidebar_section {
            seq![builtin(prefs, "priority"@, "VIP unreads"@)]
        } else {
            Seq::empty()
        };
        let v = pri + listed_sections(ws, section_order(ws.sidebar.sections@));
        let a = if has_kind(v, "direct_messages"@) {
            v
        } else {
            v.push(builtin(prefs, "direct_messages"@, "Direct messages"@))
        };
        let r = with_defaults(prefs, v);
        if has_kind(v, "direct_messages"@) {
            let i = choose|i: int| 0 <= i < v.len() && (#[trigger] v[i]).kind == "direct_messages"@;
            assert(a[i] == v[i]);
            if !has_kind(a, "channels"@) {
                assert(r[i] == a[i]);
            }
        } else {
            assert(a[v.len() as int].kind == "direct_messages"@);
            if !has_kind(a, "channels"@) {
                assert(r[v.len() as int] == a[v.len() as int]);
            }
        }
        if has_kind(a, "channels"@) {
            assert(r == a);
        } else {
            assert(r[a.len() as int].kind == "channels"@);
        }
    }
}


/// No two sections share an id.
pub open spec fn unique_section_ids(secs: Seq<ChannelSection>) -> bool {
    forall|i: int, j: int|
        0 <= i < secs.len() && 0 <= j < secs.len() && i != j ==> (#[trigger] secs[i]).channel_section_id@
            != (#[trigger] secs[j]).channel_section_id@
}

proof fn lemma_chain_ids(secs: Seq<ChannelSection>, i: int, seen: Seq<Seq<char>>, fuel: nat)
    ensures
        ids_at(secs, chain(secs, i, seen, fuel)).no_duplicates(),
        forall|k: int| 0 <= k < chain(secs, i, seen, fuel).len() ==> !seen.contains(
            #[trigger] ids_at(secs, chain(secs, i, seen, fuel))[k],
        ),
    decreases fuel,
{
    let c = chain(secs, i, seen, fuel);
    if !(fuel == 0 || !(0 <= i < secs.len()) || seen.contains(secs[i].channel_section_id@)) {
        let id = secs[i].channel_section_id@;
        let ns = seen.push(id);
        let rest = match secs[i].next_channel_section_id {
            Some(n) => chain(secs, last_with_id(secs, n@) as int, ns, (fuel - 1) as nat),
            None => Seq::empty(),
        };
        match secs[i].next_channel_section_id {
            Some(n) => lemma_chain_ids(secs, last_with_id(secs, n@) as int, ns, (fuel - 1) as nat),
            None => {},
        }
        assert(c == seq![i] + rest);
        let ic = ids_at(secs, c);
        let ir = ids_at(secs, rest);
        assert(ic =~= seq![id] + ir);
        assert forall|k: int| 0 <= k < ir.len() implies ir[k] != id && !seen.contains(#[trigger] ir[k]) by {
            assert(!ns.contains(ir[k]));
            assert(ns[ns.len() - 1] == id);
            if seen.contains(ir[k]) {
                let q = choose|q: int| 0 <= q < seen.len() && seen[q] == ir[k];
                assert(ns[q] == seen[q]);
            }
        }
        assert forall|a: int, b: int| 0 <= a < ic.len() && 0 <= b < ic.len() && a != b implies ic[a] != ic[b] by {
            if a > 0 && b > 0 {
                assert(ic[a] == ir[a - 1]);
                assert(ic[b] == ir[b - 1]);
            } else if a == 0 {
                assert(ic[b] == ir[b - 1]);
            } else {
                assert(ic[a] == ir[a - 1]);
            }
        }
        assert forall|k: int| 0 <= k < c.len() implies !seen.contains(#[trigger] ic[k]) by {
            if k > 0 {
                assert(ic[k] == ir[k - 1]);
            }
        }
    }
}

proof fn lemma_rest_after(secs: Seq<ChannelSection>, seen: Seq<Seq<char>>, n: nat)
    requires
        n <= secs.len(),
    ensures
        rest_after(secs, seen, n).no_duplicates(),
        forall|i: int| 0 <= i < n ==> (rest_after(secs, seen, n).contains(i) <==> !seen.contains(
            #[trigger] secs[i].channel_section_id@,
        )),
        forall|k: int| 0 <= k < rest_after(secs, seen, n).len() ==> 0 <= #[trigger] rest_after(secs, seen, n)[k] < n,
    decreases n,
{
    if n > 0 {
        lemma_rest_after(secs, seen, (n - 1) as nat);
        let prev = rest_after(secs, seen, (n - 1) as nat);
        let r = rest_after(secs, seen, n);
        if !seen.contains(secs[n - 1].channel_section_id@) {
            assert(r == prev.push(n - 1));
            assert(!prev.contains(n - 1));
            assert forall|a: int, b: int| 0 <= a < r.len() && 0 <= b < r.len() && a != b implies r[a] != r[b] by {
                if a < prev.len() && b < prev.len() {
                } else if a < prev.len() {
                    assert(r[a] == prev[a]);
                } else {
                    assert(r[b] == prev[b]);
                }
            }
            assert forall|i: int| 0 <= i < n implies (r.contains(i) <==> !seen.contains(
                #[trigger] secs[i].channel_section_id@,
            )) by {
                if i < n - 1 {
                    if r.contains(i) {
                        let k = choose|k: int| 0 <= k < r.len() && r[k] == i;
                        if k < prev.len() {
                            assert(prev[k] == r[k]);
                        }
                    }
                    if prev.contains(i) {
                        let k = choose|k: int| 0 <= k < prev.len() && prev[k] == i;
                        assert(r[k] == prev[k]);
                    }
                } else {
                    assert(r[prev.len() as int] == i);
                }
            }
            assert forall|k: int| 0 <= k < r.len() implies 0 <= #[trigger] r[k] < n by {
                if k < prev.len() {
                    assert(r[k] == prev[k]);
                }
            }
        } else {
            assert forall|i: int| 0 <= i < n implies (r.contains(i) <==> !seen.contains(
                #[trigger] secs[i].channel_section_id@,
            )) by {
                if i == n - 1 && r.contains(i) {
                    let k = choose|k: int| 0 <= k < r.len() && r[k] == i;
                    assert(r[k] < n - 1);
                }
            }
        }
    }
}

/// With one section per id, the shown order lists every section exactly
/// once.
pub proof fn law_section_order_is_permutation(secs: Seq<ChannelSection>)
    requires
        unique_section_ids(secs),
    ensures
        section_order(secs).no_duplicates(),
        forall|i: int| 0 <= i < secs.len() ==> section_order(secs).contains(i),
        forall|k: int| 0 <= k < section_order(secs).len() ==> 0 <= #[trigger] section_order(secs)[k] < secs.len(),
{
    let o = section_order(secs);
    assert forall|k: int| 0 <= k < o.len() implies 0 <= #[trigger] o[k] < secs.len() by {
        lemma_order_in_range(secs, k);
    }
    let h = head_from(secs, 0);
    if h >= secs.len() {
        assert forall|i: int| 0 <= i < secs.len() implies o.contains(i) by {
            assert(o[i] == i);
        }
    } else {
        let c = chain(secs, h as int, Seq::empty(), secs.len() + 1);
        let ic = ids_at(secs, c);
        let r = rest_after(secs, ic, secs.len());
        lemma_chain_ids(secs, h as int, Seq::empty(), secs.len() + 1);
        lemma_chain_range(secs, h as int, Seq::empty(), secs.len() + 1);
        lemma_rest_after(secs, ic, secs.len());
        assert(o == c + r);
        assert forall|a: int, b: int| 0 <= a < c.len() && 0 <= b < c.len() && a != b implies c[a] != c[b] by {
            assert(ic[a] == secs[c[a]].channel_section_id@);
            assert(ic[b] == secs[c[b]].channel_section_id@);
        }
        assert forall|a: int, b: int| 0 <= a < o.len() && 0 <= b < o.len() && a != b implies o[a] != o[b] by {
            if a < c.len() && b < c.len() {
                assert(o[a] == c[a]);
                assert(o[b] == c[b]);
            } else if a >= c.len() && b >= c.len() {
                assert(o[a] == r[a - c.len()]);
                assert(o[b] == r[b - c.len()]);
            } else {
                let (x, y) = if a < c.len() { (a, b) } else { (b, a) };
                assert(o[x] == c[x]);
                assert(o[y] == r[y - c.len()]);
                let i = c[x];
                assert(ic[x] == secs[i].channel_section_id@);
                assert(ic.contains(secs[i].channel_section_id@));
                assert(r.contains(r[y - c.len()]));
                if o[x] == o[y] {
                    assert(r.contains(i));
                }
            }
        }
        assert forall|i: int| 0 <= i < secs.len() implies o.contains(i) by {
            if ic.contains(secs[i].channel_section_id@) {
                let k = choose|k: int| 0 <= k < ic.len() && ic[k] == secs[i].channel_section_id@;
                assert(ic[k] == secs[c[k]].channel_section_id@);
                assert(c[k] == i);
                assert(o[k] == c[k]);
            } else {
                assert(r.contains(i));
                let k = choose|k: int| 0 <= k < r.len() && r[k] == i;
                assert(o[c.len() + k] == r[k]);
            }
        }
    }
}

} // verus!
