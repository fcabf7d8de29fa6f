//! The sidebar: which section each channel is listed under, which channels
//! are shown, and the order within a section (most recent, Slack's priority
//! or mentions first, then by name in natural order).

use vstd::prelude::*;

use crate::keyed;
use crate::models::Channel;
use crate::sections::{ResolvedModel, rviews, sidebar_sections_spec};
use crate::state::{self, ResolvedSection, SectionSort, Workspace};
use crate::text;

verus! {

broadcast use vstd::seq_lib::group_seq_properties;

/// The outcome of comparing two values.
#[derive(Debug, Clone, Copy, PartialEq, Eq, Structural)]
pub enum Order {
    Less,
    Equal,
    Greater,
}

/// The outcome of comparing the other way round.
pub open spec fn swapped(o: Order) -> Order {
    match o {
        Order::Less => Order::Greater,
        Order::Equal => Order::Equal,
        Order::Greater => Order::Less,
    }
}

pub open spec fn num_order(a: int, b: int) -> Order {
    if a < b {
        Order::Less
    } else if a > b {
        Order::Greater
    } else {
        Order::Equal
    }
}

/// Lexicographic order of two strings by code point, as `str`'s `Ord`
/// orders them.
pub open spec fn lexical(a: Seq<char>, b: Seq<char>) -> Order
    decreases a.len(),
{
    if a.len() == 0 {
        if b.len() == 0 {
            Order::Equal
        } else {
            Order::Less
        }
    } else if b.len() == 0 {
        Order::Greater
    } else if a[0] < b[0] {
        Order::Less
    } else if a[0] > b[0] {
        Order::Greater
    } else {
        lexical(a.drop_first(), b.drop_first())
    }
}

/// The lowercase mapping of a character: what `char::to_lowercase` yields.
pub uninterp spec fn lowercase(c: char) -> Seq<char>;

/// `char::to_lowercase`, collected.
#[verifier::external_body]
fn lowercase_of(c: char) -> (r: Vec<char>)
    ensures
        r@ == lowercase(c),
{
    c.to_lowercase().collect()
}

/// The length of the run of ASCII digits that `s` starts with.
pub open spec fn digit_run(s: Seq<char>) -> nat
    decreases s.len(),
{
    if s.len() > 0 && text::is_digit(s[0]) {
        1 + digit_run(s.drop_first())
    } else {
        0
    }
}

pub open spec fn saturate(n: int) -> int {
    if n > u64::MAX {
        u64::MAX as int
    } else {
        n
    }
}

/// The value of the first `k` digits of `s`, saturating at `u64::MAX`.
pub open spec fn run_value(s: Seq<char>, k: nat) -> int
    decreases k,
{
    if k == 0 {
        0
    } else {
        saturate(run_value(s, (k - 1) as nat) * 10 + text::digit_value(s[k - 1]))
    }
}

pub proof fn lemma_digit_run_bounds(s: Seq<char>)
    ensures
        digit_run(s) <= s.len(),
        s.len() > 0 && text::is_digit(s[0]) ==> digit_run(s) >= 1,
    decreases s.len(),
{
    if s.len() > 0 && text::is_digit(s[0]) {
        lemma_digit_run_bounds(s.drop_first());
    }
}

/// Natural order of two names: runs of digits compare by their value,
/// other characters by their lowercase mapping.
pub open spec fn natural(a: Seq<char>, b: Seq<char>) -> Order
    decreases a.len() + b.len(),
{
    if a.len() == 0 && b.len() == 0 {
        Order::Equal
    } else if a.len() == 0 {
        Order::Less
    } else if b.len() == 0 {
        Order::Greater
    } else if text::is_digit(a[0]) && text::is_digit(b[0]) {
        proof {
            lemma_digit_run_bounds(a);
            lemma_digit_run_bounds(b);
        }
        let o = num_order(run_value(a, digit_run(a)), run_value(b, digit_run(b)));
        if o == Order::Equal {
            natural(a.skip(digit_run(a) as int), b.skip(digit_run(b) as int))
        } else {
            o
        }
    } else {
        let o = lexical(lowercase(a[0]), lowercase(b[0]));
        if o == Order::Equal {
            natural(a.drop_first(), b.drop_first())
        } else {
            o
        }
    }
}

pub proof fn lemma_lexical_swap(a: Seq<char>, b: Seq<char>)
    ensures
        lexical(a, b) == swapped(lexical(b, a)),
    decreases a.len(),
{
    if a.len() > 0 && b.len() > 0 && a[0] == b[0] {
        lemma_lexical_swap(a.drop_first(), b.drop_first());
    }
}

pub proof fn lemma_natural_swap(a: Seq<char>, b: Seq<char>)
    ensures
        natural(a, b) == swapped(natural(b, a)),
    decreases a.len() + b.len(),
{
    if a.len() > 0 && b.len() > 0 {
        if text::is_digit(a[0]) && text::is_digit(b[0]) {
            lemma_digit_run_bounds(a);
            lemma_digit_run_bounds(b);
            lemma_natural_swap(a.skip(digit_run(a) as int), b.skip(digit_run(b) as int));
        } else {
            lemma_lexical_swap(lowercase(a[0]), lowercase(b[0]));
            lemma_natural_swap(a.drop_first(), b.drop_first());
        }
    }
}

/// Lexically equal strings are equal.
pub proof fn lemma_lexical_equal(a: Seq<char>, b: Seq<char>)
    requires
        lexical(a, b) == Order::Equal,
    ensures
        a == b,
    decreases a.len(),
{
    if a.len() > 0 && b.len() > 0 {
        lemma_lexical_equal(a.drop_first(), b.drop_first());
        assert(a =~= seq![a[0]] + a.drop_first());
        assert(b =~= seq![b[0]] + b.drop_first());
    } else {
        assert(a =~= b);
    }
}

/// Lexical order is transitive, strictly so when either step is strict.
pub proof fn lemma_lexical_trans(a: Seq<char>, b: Seq<char>, c: Seq<char>)
    requires
        lexical(a, b) != Order::Greater,
        lexical(b, c) != Order::Greater,
    ensures
        lexical(a, c) != Order::Greater,
        lexical(a, b) == Order::Less || lexical(b, c) == Order::Less ==> lexical(a, c) == Order::Less,
    decreases a.len(),
{
    if a.len() > 0 && b.len() > 0 && c.len() > 0 && a[0] == b[0] && b[0] == c[0] {
        lemma_lexical_trans(a.drop_first(), b.drop_first(), c.drop_first());
    }
}

/// What `char::to_lowercase` does to digits and to the first character of
/// any other mapping: ASCII digits map to themselves, and no other character
/// maps to nothing or to something that starts with an ASCII digit. Under
/// these Unicode facts natural order is transitive.
pub open spec fn lowercase_keeps_digits() -> bool {
    &&& forall|d: char| text::is_digit(d) ==> #[trigger] lowercase(d) == seq![d]
    &&& forall|c: char| !text::is_digit(c) ==> (#[trigger] lowercase(c)).len() > 0 && !text::is_digit(lowercase(c)[0])
}

/// Natural order is transitive, strictly so when either step is strict.
pub proof fn lemma_natural_trans(a: Seq<char>, b: Seq<char>, c: Seq<char>)
    requires
        lowercase_keeps_digits(),
        natural(a, b) != Order::Greater,
        natural(b, c) != Order::Greater,
    ensures
        natural(a, c) != Order::Greater,
        natural(a, b) == Order::Less || natural(b, c) == Order::Less ==> natural(a, c) == Order::Less,
    decreases a.len() + b.len() + c.len(),
{
    if a.len() == 0 || b.len() == 0 || c.len() == 0 {
        return;
    }
    let (a0, b0, c0) = (a[0], b[0], c[0]);
    let (da, db, dc) = (text::is_digit(a0), text::is_digit(b0), text::is_digit(c0));
    let (la, lb, lc) = (lowercase(a0), lowercase(b0), lowercase(c0));
    lemma_digit_run_bounds(a);
    lemma_digit_run_bounds(b);
    lemma_digit_run_bounds(c);
    if da && db && dc {
        let (ka, kb, kc) = (digit_run(a), digit_run(b), digit_run(c));
        let (va, vb, vc) = (run_value(a, ka), run_value(b, kb), run_value(c, kc));
        if va == vb && vb == vc {
            lemma_natural_trans(a.skip(ka as int), b.skip(kb as int), c.skip(kc as int));
        }
    } else if da && db && !dc {
        assert(lb == seq![b0] && la == seq![a0]);
        assert(lexical(la, lc) == Order::Less);
    } else if da && !db && dc {
        assert(la == seq![a0] && lc == seq![c0]);
        assert(lexical(lb, lc) == Order::Greater);
    } else if da && !db && !dc {
        assert(la == seq![a0]);
        if lexical(lb, lc) == Order::Equal {
            lemma_lexical_equal(lb, lc);
        } else {
            lemma_lexical_trans(la, lb, lc);
        }
    } else if !da && db && dc {
        assert(lb == seq![b0] && lc == seq![c0]);
        assert(lexical(la, lc) == Order::Less);
    } else if !da && db && !dc {
        assert(lb == seq![b0]);
        lemma_lexical_trans(la, lb, lc);
    } else if !da && !db && dc {
        assert(lc == seq![c0]);
        if lexical(la, lb) == Order::Equal {
            lemma_lexical_equal(la, lb);
        } else {
            lemma_lexical_trans(la, lb, lc);
        }
    } else {
        if lexical(la, lb) == Order::Equal && lexical(lb, lc) == Order::Equal {
            lemma_lexical_equal(la, lb);
            lemma_lexical_equal(lb, lc);
            lemma_natural_trans(a.drop_first(), b.drop_first(), c.drop_first());
        } else {
            lemma_lexical_trans(la, lb, lc);
        }
    }
}

/// `lexical` on two slices.
pub fn lexical_order(a: &[char], b: &[char]) -> (r: Order)
    ensures
        r == lexical(a@, b@),
{
    let mut i: usize = 0;
    while i < a.len() && i < b.len()
        invariant
            i <= a.len(),
            i <= b.len(),
            lexical(a@, b@) == lexical(a@.skip(i as int), b@.skip(i as int)),
        decreases a.len() - i,
    {
        let x = a[i];
        let y = b[i];
        assert(a@.skip(i as int)[0] == x && b@.skip(i as int)[0] == y);
        if x < y {
            return Order::Less;
        }
        if x > y {
            return Order::Greater;
        }
        assert(a@.skip(i as int).drop_first() =~= a@.skip(i + 1));
        assert(b@.skip(i as int).drop_first() =~= b@.skip(i + 1));
        i = i + 1;
    }
    if i == a.len() {
        if i == b.len() {
            Order::Equal
        } else {
            Order::Less
        }
    } else {
        Order::Greater
    }
}

pub proof fn lemma_digit_run_exact(s: Seq<char>, m: nat)
    requires
        m <= s.len(),
        forall|k: int| 0 <= k < m ==> text::is_digit(#[trigger] s[k]),
        m == s.len() || !text::is_digit(s[m as int]),
    ensures
        digit_run(s) == m,
    decreases m,
{
    if m > 0 {
        assert forall|k: int| 0 <= k < m - 1 implies text::is_digit(#[trigger] s.drop_first()[k]) by {
            assert(s.drop_first()[k] == s[k + 1]);
        }
        lemma_digit_run_exact(s.drop_first(), (m - 1) as nat);
    }
}

pub proof fn lemma_run_value_prefix(s: Seq<char>, t: Seq<char>, k: nat)
    requires
        k <= s.len(),
        k <= t.len(),
        s.take(k as int) == t.take(k as int),
    ensures
        run_value(s, k) == run_value(t, k),
    decreases k,
{
    if k > 0 {
        assert(s.take(k - 1) =~= s.take(k as int).take(k - 1));
        assert(t.take(k - 1) =~= t.take(k as int).take(k - 1));
        assert(s[k - 1] == s.take(k as int)[k - 1]);
        assert(t[k - 1] == t.take(k as int)[k - 1]);
        lemma_run_value_prefix(s, t, (k - 1) as nat);
    }
}

/// The value of the run of digits at `start` (saturating at `u64::MAX`)
/// and where the run ends.
fn take_number(s: &[char], start: usize) -> (r: (u64, usize))
    requires
        start <= s.len(),
    ensures
        r.1 == start + digit_run(s@.skip(start as int)),
        r.0 == run_value(s@.skip(start as int), digit_run(s@.skip(start as int))),
{
    let ghost t = s@.skip(start as int);
    let mut n: u64 = 0;
    let mut k: usize = start;
    while k < s.len() && text::is_ascii_digit(s[k])
        invariant
            start <= k <= s.len(),
            t == s@.skip(start as int),
            forall|m: int| 0 <= m < k - start ==> text::is_digit(#[trigger] t[m]),
            n == run_value(t, (k - start) as nat),
        decreases s.len() - k,
    {
        let d = text::digit_of(s[k]);
        assert(t[k - start] == s[k as int]);
        let v: u128 = (n as u128) * 10 + (d as u128);
        n = if v > (u64::MAX as u128) {
            u64::MAX
        } else {
            v as u64
        };
        k = k + 1;
        assert(n == run_value(t, (k - start) as nat));
    }
    proof {
        if k < s.len() {
            assert(t[k - start] == s[k as int]);
        }
        lemma_digit_run_exact(t, (k - start) as nat);
    }
    (n, k)
}

/// `natural` on two slices.
pub fn natural_order(a: &[char], b: &[char]) -> (r: Order)
    ensures
        r == natural(a@, b@),
{
    let mut i: usize = 0;
    let mut j: usize = 0;
    loop
        invariant
            i <= a.len(),
            j <= b.len(),
            natural(a@, b@) == natural(a@.skip(i as int), b@.skip(j as int)),
        decreases a.len() - i + b.len() - j,
    {
        let ghost sa = a@.skip(i as int);
        let ghost sb = b@.skip(j as int);
        if i == a.len() && j == b.len() {
            return Order::Equal;
        }
        if i == a.len() {
            return Order::Less;
        }
        if j == b.len() {
            return Order::Greater;
        }
        let x = a[i];
        let y = b[j];
        assert(sa[0] == x && sb[0] == y);
        if text::is_ascii_digit(x) && text::is_ascii_digit(y) {
            let (na, ei) = take_number(a, i);
            let (nb, ej) = take_number(b, j);
            proof {
                lemma_digit_run_bounds(sa);
                lemma_digit_run_bounds(sb);
            }
            if na < nb {
                return Order::Less;
            }
            if na > nb {
                return Order::Greater;
            }
            assert(sa.skip(digit_run(sa) as int) =~= a@.skip(ei as int));
            assert(sb.skip(digit_run(sb) as int) =~= b@.skip(ej as int));
            i = ei;
            j = ej;
        } else {
            let lx = lowercase_of(x);
            let ly = lowercase_of(y);
            let o = lexical_order(lx.as_slice(), ly.as_slice());
            if o != Order::Equal {
                return o;
            }
            assert(sa.drop_first() =~= a@.skip(i + 1));
            assert(sb.drop_first() =~= b@.skip(j + 1));
            i = i + 1;
            j = j + 1;
        }
    }
}

// ---------------------------------------------------------------------------
// Sorting
// ---------------------------------------------------------------------------

/// What a list of channels sorts by: the greatest `rank` first, then `name`
/// in natural order, then `id`.
pub struct SortKey {
    pub rank: u64,
    pub name: Vec<char>,
    pub id: Vec<char>,
}

impl View for SortKey {
    type V = (u64, Seq<char>, Seq<char>);

    open spec fn view(&self) -> (u64, Seq<char>, Seq<char>) {
        (self.rank, self.name@, self.id@)
    }
}

pub open spec fn sort_order(a: (u64, Seq<char>, Seq<char>), b: (u64, Seq<char>, Seq<char>)) -> Order {
    let r = num_order(b.0 as int, a.0 as int);
    if r != Order::Equal {
        r
    } else {
        let n = natural(a.1, b.1);
        if n != Order::Equal {
            n
        } else {
            lexical(a.2, b.2)
        }
    }
}

pub proof fn lemma_sort_order_swap(a: (u64, Seq<char>, Seq<char>), b: (u64, Seq<char>, Seq<char>))
    ensures
        sort_order(a, b) == swapped(sort_order(b, a)),
{
    lemma_natural_swap(a.1, b.1);
    lemma_lexical_swap(a.2, b.2);
}

/// The sort order is transitive.
pub proof fn lemma_sort_order_trans(
    x: (u64, Seq<char>, Seq<char>),
    y: (u64, Seq<char>, Seq<char>),
    z: (u64, Seq<char>, Seq<char>),
)
    requires
        lowercase_keeps_digits(),
        sort_order(x, y) != Order::Greater,
        sort_order(y, z) != Order::Greater,
    ensures
        sort_order(x, z) != Order::Greater,
{
    if x.0 == y.0 && y.0 == z.0 {
        lemma_natural_trans(x.1, y.1, z.1);
        if natural(x.1, y.1) == Order::Equal && natural(y.1, z.1) == Order::Equal {
            lemma_natural_swap(x.1, y.1);
            lemma_natural_swap(y.1, z.1);
            lemma_natural_swap(x.1, z.1);
            lemma_natural_trans(z.1, y.1, x.1);
            lemma_lexical_trans(x.2, y.2, z.2);
        }
    }
}

/// Does the item at `j + 1`, read through `key`, not sort before the one at `j`?
pub open spec fn ordered_at(s: Seq<usize>, key: spec_fn(usize) -> (u64, Seq<char>, Seq<char>), j: int) -> bool {
    sort_order(key(s[j]), key(s[j + 1])) != Order::Greater
}

/// Are the items, read through `key`, in `sort_order`: no item right after
/// one that sorts after it?
pub open spec fn in_order(s: Seq<usize>, key: spec_fn(usize) -> (u64, Seq<char>, Seq<char>)) -> bool {
    forall|j: int| 0 <= j < s.len() - 1 ==> #[trigger] ordered_at(s, key, j)
}

/// Are the items, read through `key`, in reverse `sort_order`?
pub open spec fn in_reverse_order(s: Seq<usize>, key: spec_fn(usize) -> (u64, Seq<char>, Seq<char>)) -> bool {
    in_order(s.reverse(), key)
}

/// `sort_order` on two keys.
pub fn compare_keys(a: &SortKey, b: &SortKey) -> (r: Order)
    ensures
        r == sort_order(a@, b@),
{
    if b.rank < a.rank {
        return Order::Less;
    }
    if b.rank > a.rank {
        return Order::Greater;
    }
    let n = natural_order(a.name.as_slice(), b.name.as_slice());
    if n != Order::Equal {
        return n;
    }
    lexical_order(a.id.as_slice(), b.id.as_slice())
}

/// Sorts `items` by their keys (`keys[i]` is the key of `items[i]`): each
/// item is inserted after the ones that do not sort after it.
pub(crate) fn sort_items(items: Vec<usize>, keys: Vec<SortKey>, Ghost(key): Ghost<spec_fn(usize) -> (u64, Seq<char>, Seq<char>)>) -> (r: Vec<usize>)
    requires
        items@.len() == keys@.len(),
        forall|j: int| 0 <= j < keys@.len() ==> (#[trigger] keys@[j])@ == key(items@[j]),
    ensures
        r@.to_multiset() == items@.to_multiset(),
        in_order(r@, key),
{
    let ghost all = items@;
    let n = items.len();
    assert(all.len() == n);
    let mut items = items;
    let mut keys = keys;
    let mut out: Vec<usize> = Vec::new();
    let mut out_keys: Vec<SortKey> = Vec::new();
    let mut taken: usize = 0;
    while items.len() > 0
        invariant
            items@.len() == keys@.len(),
            taken + items@.len() == all.len(),
            all.len() <= usize::MAX,
            items@ == all.skip(taken as int),
            forall|j: int| 0 <= j < keys@.len() ==> (#[trigger] keys@[j])@ == key(items@[j]),
            out@.len() == out_keys@.len(),
            forall|j: int| 0 <= j < out_keys@.len() ==> (#[trigger] out_keys@[j])@ == key(out@[j]),
            out@.to_multiset() == all.take(taken as int).to_multiset(),
            in_order(out@, key),
        decreases items.len(),
    {
        let ghost kb = keys@;
        let ghost ib = items@;
        let item = items.remove(0);
        let k = keys.remove(0);
        assert(kb[0]@ == key(ib[0]));
        assert(item == all[taken as int]);
        assert forall|j: int| 0 <= j < keys@.len() implies (#[trigger] keys@[j])@ == key(items@[j]) by {
            assert(keys@[j] == kb[j + 1] && items@[j] == ib[j + 1]);
            assert(kb[j + 1]@ == key(ib[j + 1]));
        }
        let mut p: usize = 0;
        while p < out.len() && compare_keys(&out_keys[p], &k) != Order::Greater
            invariant
                p <= out@.len(),
                out@.len() == out_keys@.len(),
                forall|j: int| 0 <= j < out_keys@.len() ==> (#[trigger] out_keys@[j])@ == key(out@[j]),
                k@ == key(item),
                forall|m: int| 0 <= m < p ==> sort_order(key(#[trigger] out@[m]), key(item)) != Order::Greater,
            decreases out@.len() - p,
        {
            assert(out_keys@[p as int]@ == key(out@[p as int]));
            p = p + 1;
        }
        proof {
            if p < out@.len() {
                assert(out_keys@[p as int]@ == key(out@[p as int]));
                lemma_sort_order_swap(key(out@[p as int]), key(item));
            }
        }
        let ghost before = out@;
        let ghost before_keys = out_keys@;
        out.insert(p, item);
        out_keys.insert(p, k);
        proof {
            assert forall|j: int| 0 <= j < out_keys@.len() implies (#[trigger] out_keys@[j])@ == key(out@[j]) by {
                if j < p {
                    assert(out_keys@[j] == before_keys[j] && out@[j] == before[j]);
                } else if j > p {
                    assert(out_keys@[j] == before_keys[j - 1] && out@[j] == before[j - 1]);
                }
            }
            assert forall|j: int| 0 <= j < out@.len() - 1 implies #[trigger] ordered_at(out@, key, j) by {
                if j + 1 < p {
                    assert(out@[j] == before[j] && out@[j + 1] == before[j + 1]);
                    assert(ordered_at(before, key, j));
                } else if j + 1 == p {
                    assert(out@[j] == before[j] && out@[j + 1] == item);
                    assert(sort_order(key(before[j]), key(item)) != Order::Greater);
                } else if j == p {
                    assert(out@[j] == item && out@[j + 1] == before[j]);
                } else {
                    assert(out@[j] == before[j - 1] && out@[j + 1] == before[j]);
                    assert(ordered_at(before, key, j - 1));
                }
            }
            assert(all.take(taken + 1) =~= all.take(taken as int).push(item));
            assert(items@ =~= all.skip(taken + 1));
        }
        taken = taken + 1;
    }
    assert(all.take(taken as int) =~= all);
    out
}

// ---------------------------------------------------------------------------
// Sections
// ---------------------------------------------------------------------------

/// The rank of a priority score of zero: what a channel without a score
/// sorts as.
pub const ZERO_PRIORITY_RANK: u64 = 0x8000_0000_0000_0000;

/// The first section of `kind`, looking from `i` on.
pub open spec fn kind_from(secs: Seq<ResolvedModel>, kind: Seq<char>, i: int) -> Option<int>
    decreases secs.len() - i,
{
    if i >= secs.len() || i < 0 {
        None
    } else if secs[i].kind == kind {
        Some(i)
    } else {
        kind_from(secs, kind, i + 1)
    }
}

/// The first section that lists the channel `id`, looking from `i` on.
pub open spec fn listing_from(secs: Seq<ResolvedModel>, id: Seq<char>, i: int) -> Option<int>
    decreases secs.len() - i,
{
    if i >= secs.len() || i < 0 {
        None
    } else if secs[i].channel_ids.contains(id) {
        Some(i)
    } else {
        listing_from(secs, id, i + 1)
    }
}

pub open spec fn starred_spec(ws: Workspace, c: Channel) -> bool {
    c.is_starred || keyed::listed(ws.starred_order@, c.id@) || state::extra_star_flag(c.extra@)
}

/// The section a channel is listed under: the VIP section for a VIP channel
/// with unreads, else the first section that lists it, else Starred for a
/// starred channel, else Direct messages, External connections or Channels
/// by its kind.
pub open spec fn section_of(ws: Workspace, secs: Seq<ResolvedModel>, c: Channel) -> Option<int> {
    let vip = kind_from(secs, "priority"@, 0);
    let stars = kind_from(secs, "stars"@, 0);
    let connect = kind_from(secs, "slack_connect"@, 0);
    if vip is Some && state::is_vip_spec(ws, c) && state::unread_total_spec(ws.messages@, c) > 0 {
        vip
    } else if listing_from(secs, c.id@, 0) is Some {
        listing_from(secs, c.id@, 0)
    } else if starred_spec(ws, c) && stars is Some {
        stars
    } else if c.is_im || c.is_mpim {
        kind_from(secs, "direct_messages"@, 0)
    } else if c.is_ext_shared && connect is Some {
        connect
    } else {
        kind_from(secs, "channels"@, 0)
    }
}

/// Is a channel shown in its section: the section shows read channels, or
/// it has unreads, or it is the open channel, or read channels are shown?
pub open spec fn shown(ws: Workspace, sec: ResolvedModel, active: Option<Seq<char>>, c: Channel) -> bool {
    sec.show_all || state::unread_total_spec(ws.messages@, c) > 0 || active == Some(c.id@)
        || !ws.hide_read_channels_unless_starred
}

/// Is the channel at position `k` of the table shown in section `t`?
pub open spec fn placed(ws: Workspace, secs: Seq<ResolvedModel>, active: Option<Seq<char>>, t: int, k: int) -> bool {
    let c = ws.channels@[k].1;
    section_of(ws, secs, c) == Some(t) && shown(ws, secs[t], active, c)
}

/// The positions, among the first `n` of the table, of the channels shown in
/// section `t`, in table order.
pub open spec fn members(ws: Workspace, secs: Seq<ResolvedModel>, active: Option<Seq<char>>, t: int, n: nat) -> Seq<usize>
    decreases n,
{
    if n == 0 {
        Seq::empty()
    } else {
        let prev = members(ws, secs, active, t, (n - 1) as nat);
        if placed(ws, secs, active, t, n - 1) {
            prev.push((n - 1) as usize)
        } else {
            prev
        }
    }
}

pub open spec fn mention_count_spec(ws: Workspace, c: Channel) -> u32 {
    match keyed::get(ws.messages@, c.id@) {
        Some(cm) => cm.mention_count,
        None => 0,
    }
}

pub open spec fn priority_rank(ws: Workspace, c: Channel) -> u64 {
    match keyed::get(ws.priority_ranks@, c.id@) {
        Some(r) => r,
        None => ZERO_PRIORITY_RANK,
    }
}

/// What a channel sorts by in a section: its recency, its priority, or
/// whether it mentions the user; then its name, then its id.
pub open spec fn channel_key(ws: Workspace, sort: SectionSort, c: Channel) -> (u64, Seq<char>, Seq<char>) {
    let rank: u64 = match sort {
        SectionSort::Recent => state::recency_spec(ws.messages@, c),
        SectionSort::Priority => priority_rank(ws, c),
        SectionSort::Alpha => if mention_count_spec(ws, c) > 0 {
            1
        } else {
            0
        },
    };
    (rank, state::channel_display_name_spec(ws, c), c.id@)
}

/// The key of the channel at each position of the table.
pub open spec fn key_at(ws: Workspace, sort: SectionSort) -> spec_fn(usize) -> (u64, Seq<char>, Seq<char>) {
    |k: usize| channel_key(ws, sort, ws.channels@[k as int].1)
}

/// A section of the sidebar: its title and the positions in the workspace's
/// channel table of the channels it lists, in the order they are shown.
pub struct SidebarGroup {
    pub title: String,
    pub channels: Vec<usize>,
}

fn kind_index(secs: &Vec<ResolvedSection>, kind: &str) -> (r: Option<usize>)
    ensures
        match r {
            Some(i) => kind_from(rviews(secs@), kind@, 0) == Some(i as int),
            None => kind_from(rviews(secs@), kind@, 0) is None,
        },
{
    let ghost rv = rviews(secs@);
    let mut i: usize = 0;
    while i < secs.len()
        invariant
            i <= secs@.len(),
            rv == rviews(secs@),
            kind_from(rv, kind@, 0) == kind_from(rv, kind@, i as int),
        decreases secs@.len() - i,
    {
        assert(rv[i as int] == secs@[i as int]@);
        if text::str_eq(secs[i].kind.as_str(), kind) {
            return Some(i);
        }
        i = i + 1;
    }
    None
}

fn listing_index(secs: &Vec<ResolvedSection>, id: &str) -> (r: Option<usize>)
    ensures
        match r {
            Some(i) => listing_from(rviews(secs@), id@, 0) == Some(i as int),
            None => listing_from(rviews(secs@), id@, 0) is None,
        },
{
    let ghost rv = rviews(secs@);
    let mut i: usize = 0;
    while i < secs.len()
        invariant
            i <= secs@.len(),
            rv == rviews(secs@),
            listing_from(rv, id@, 0) == listing_from(rv, id@, i as int),
        decreases secs@.len() - i,
    {
        assert(rv[i as int] == secs@[i as int]@);
        let listed = keyed::is_listed(&secs[i].channel_ids, id);
        proof {
            let ids = secs@[i as int].channel_ids@;
            let sv = crate::models::strings_view(ids);
            if listed {
                let j = choose|j: int| 0 <= j < ids.len() && (#[trigger] ids[j])@ == id@;
                assert(sv[j] == id@);
            } else {
                assert forall|j: int| 0 <= j < sv.len() implies sv[j] != id@ by {
                    assert(sv[j] == ids[j]@);
                }
            }
        }
        if listed {
            return Some(i);
        }
        i = i + 1;
    }
    None
}

/// The first section of each built-in kind.
struct Slots {
    vip: Option<usize>,
    stars: Option<usize>,
    dms: Option<usize>,
    connect: Option<usize>,
    channels: Option<usize>,
}

spec fn slot(o: Option<usize>) -> Option<int> {
    match o {
        Some(i) => Some(i as int),
        None => None,
    }
}

spec fn slots_of(s: Slots, secs: Seq<ResolvedModel>) -> bool {
    &&& slot(s.vip) == kind_from(secs, "priority"@, 0)
    &&& slot(s.stars) == kind_from(secs, "stars"@, 0)
    &&& slot(s.dms) == kind_from(secs, "direct_messages"@, 0)
    &&& slot(s.connect) == kind_from(secs, "slack_connect"@, 0)
    &&& slot(s.channels) == kind_from(secs, "channels"@, 0)
}

fn find_slots(secs: &Vec<ResolvedSection>) -> (r: Slots)
    ensures
        slots_of(r, rviews(secs@)),
{
    Slots {
        vip: kind_index(secs, "priority"),
        stars: kind_index(secs, "stars"),
        dms: kind_index(secs, "direct_messages"),
        connect: kind_index(secs, "slack_connect"),
        channels: kind_index(secs, "channels"),
    }
}

/// `section_of`.
fn section_index(ws: &Workspace, secs: &Vec<ResolvedSection>, slots: &Slots, c: &Channel) -> (r: Option<usize>)
    requires
        slots_of(*slots, rviews(secs@)),
    ensures
        slot(r) == section_of(*ws, rviews(secs@), *c),
{
    if slots.vip.is_some() && state::is_vip_channel(ws, c) && ws.unread_total(c) > 0 {
        return slots.vip;
    }
    let listing = listing_index(secs, c.id.as_str());
    if listing.is_some() {
        return listing;
    }
    if ws.is_starred_channel(c) && slots.stars.is_some() {
        slots.stars
    } else if c.is_im || c.is_mpim {
        slots.dms
    } else if c.is_ext_shared && slots.connect.is_some() {
        slots.connect
    } else {
        slots.channels
    }
}

fn is_active(active: Option<&str>, id: &str) -> (r: bool)
    ensures
        r == (text::str_opt(active) == Some(id@)),
{
    match active {
        Some(a) => text::str_eq(a, id),
        None => false,
    }
}

fn mention_count(ws: &Workspace, c: &Channel) -> (r: u32)
    ensures
        r == mention_count_spec(*ws, *c),
{
    match keyed::get_ref(&ws.messages, c.id.as_str()) {
        Some(cm) => cm.mention_count,
        None => 0,
    }
}

/// `channel_key`.
fn channel_sort_key(ws: &Workspace, sort: SectionSort, c: &Channel) -> (r: SortKey)
    ensures
        r@ == channel_key(*ws, sort, *c),
{
    let rank: u64 = match sort {
        SectionSort::Recent => ws.channel_recency(c),
        SectionSort::Priority => match keyed::get_ref(&ws.priority_ranks, c.id.as_str()) {
            Some(r) => *r,
            None => ZERO_PRIORITY_RANK,
        },
        SectionSort::Alpha => if mention_count(ws, c) > 0 {
            1
        } else {
            0
        },
    };
    let name = state::channel_display_name(ws, c);
    SortKey { rank, name: text::to_chars(name.as_str()), id: text::to_chars(c.id.as_str()) }
}

/// The channels of section `t`, in table order, with their keys.
fn section_members(ws: &Workspace, secs: &Vec<ResolvedSection>, slots: &Slots, active: Option<&str>, t: usize) -> (r: (
    Vec<usize>,
    Vec<SortKey>,
))
    requires
        slots_of(*slots, rviews(secs@)),
        t < secs@.len(),
    ensures
        r.0@ == members(*ws, rviews(secs@), text::str_opt(active), t as int, ws.channels@.len()),
        r.0@.len() == r.1@.len(),
        forall|j: int| 0 <= j < r.1@.len() ==> (#[trigger] r.1@[j])@ == key_at(*ws, secs@[t as int].sort)(r.0@[j]),
{
    let ghost rv = rviews(secs@);
    let ghost act = text::str_opt(active);
    let ghost kf = key_at(*ws, secs@[t as int].sort);
    let sort = secs[t].sort;
    let show_all = secs[t].show_all;
    assert(rv[t as int] == secs@[t as int]@);
    let mut items: Vec<usize> = Vec::new();
    let mut keys: Vec<SortKey> = Vec::new();
    let mut k: usize = 0;
    while k < ws.channels.len()
        invariant
            k <= ws.channels@.len(),
            slots_of(*slots, rv),
            rv == rviews(secs@),
            t < secs@.len(),
            sort == secs@[t as int].sort,
            show_all == rv[t as int].show_all,
            act == text::str_opt(active),
            kf == key_at(*ws, sort),
            items@ == members(*ws, rv, act, t as int, k as nat),
            items@.len() == keys@.len(),
            forall|j: int| 0 <= j < keys@.len() ==> (#[trigger] keys@[j])@ == kf(items@[j]),
        decreases ws.channels@.len() - k,
    {
        let c = &ws.channels[k].1;
        let target = section_index(ws, secs, slots, c);
        let here = match target {
            Some(i) => i == t,
            None => false,
        };
        if here && (show_all || ws.unread_total(c) > 0 || is_active(active, c.id.as_str())
            || ws.should_show_unstarred_read_channels()) {
            let key = channel_sort_key(ws, sort, c);
            items.push(k);
            keys.push(key);
            assert(kf(k) == channel_key(*ws, sort, ws.channels@[k as int].1));
        }
        k = k + 1;
    }
    (items, keys)
}

/// The sidebar's sections in order, each with the channels it shows: the
/// channels placed in it by `section_of` that are `shown`, sorted by the
/// section's `channel_key`.
pub fn grouped(ws: &Workspace, active: Option<&str>) -> (r: Vec<SidebarGroup>)
    ensures
        r@.len() == sidebar_sections_spec(*ws).len(),
        forall|t: int| 0 <= t < r@.len() ==> (#[trigger] r@[t]).title@ == sidebar_sections_spec(*ws)[t].title,
        forall|t: int|
            0 <= t < r@.len() ==> (#[trigger] r@[t]).channels@.to_multiset() == members(
                *ws,
                sidebar_sections_spec(*ws),
                text::str_opt(active),
                t,
                ws.channels@.len(),
            ).to_multiset(),
        forall|t: int| 0 <= t < r@.len() ==> in_order((#[trigger] r@[t]).channels@, key_at(*ws, sidebar_sections_spec(*ws)[t].sort)),
{
    let sections = ws.resolved_sidebar_sections();
    let ghost rv = rviews(sections@);
    let slots = find_slots(&sections);
    let mut out: Vec<SidebarGroup> = Vec::new();
    let mut t: usize = 0;
    while t < sections.len()
        invariant
            t <= sections@.len(),
            rv == rviews(sections@),
            rv == sidebar_sections_spec(*ws),
            slots_of(slots, rv),
            out@.len() == t,
            forall|u: int| 0 <= u < t ==> (#[trigger] out@[u]).title@ == rv[u].title,
            forall|u: int|
                0 <= u < t ==> (#[trigger] out@[u]).channels@.to_multiset() == members(
                    *ws,
                    rv,
                    text::str_opt(active),
                    u,
                    ws.channels@.len(),
                ).to_multiset(),
            forall|u: int| 0 <= u < t ==> in_order((#[trigger] out@[u]).channels@, key_at(*ws, rv[u].sort)),
        decreases sections@.len() - t,
    {
        assert(rv[t as int] == sections@[t as int]@);
        let (items, keys) = section_members(ws, &sections, &slots, active, t);
        let sorted = sort_items(items, keys, Ghost(key_at(*ws, sections@[t as int].sort)));
        let title = sections[t].title.clone();
        out.push(SidebarGroup { title, channels: sorted });
        t = t + 1;
    }
    out
}

// ---------------------------------------------------------------------------
// Laws
// ---------------------------------------------------------------------------

proof fn lemma_members(ws: Workspace, secs: Seq<ResolvedModel>, active: Option<Seq<char>>, t: int, n: nat)
    requires
        n <= usize::MAX,
    ensures
        forall|x: usize| #[trigger]
            members(ws, secs, active, t, n).contains(x) <==> (x < n && placed(ws, secs, active, t, x as int)),
    decreases n,
{
    if n > 0 {
        lemma_members(ws, secs, active, t, (n - 1) as nat);
        let prev = members(ws, secs, active, t, (n - 1) as nat);
        assert forall|x: usize| #[trigger]
            members(ws, secs, active, t, n).contains(x) <==> (x < n && placed(ws, secs, active, t, x as int)) by {
            if placed(ws, secs, active, t, n - 1) {
                let cur = prev.push((n - 1) as usize);
                assert(cur[prev.len() as int] == (n - 1) as usize);
                if x == n - 1 {
                    assert(cur[prev.len() as int] == x);
                } else if cur.contains(x) {
                    let j = choose|j: int| 0 <= j < cur.len() && cur[j] == x;
                    assert(j != prev.len());
                    assert(prev[j] == x);
                } else if prev.contains(x) {
                    let j = choose|j: int| 0 <= j < prev.len() && prev[j] == x;
                    assert(cur[j] == x);
                }
            }
        }
    }
}

/// A channel is listed in at most one section of the sidebar.
pub proof fn law_channel_in_one_section(ws: Workspace, active: Option<Seq<char>>, t: int, u: int, k: usize)
    requires
        t != u,
    ensures
        !(members(ws, sidebar_sections_spec(ws), active, t, ws.channels@.len()).contains(k) && members(
            ws,
            sidebar_sections_spec(ws),
            active,
            u,
            ws.channels@.len(),
        ).contains(k)),
{
    assert(ws.channels@.len() == ws.channels.len());
    lemma_members(ws, sidebar_sections_spec(ws), active, t, ws.channels@.len());
    lemma_members(ws, sidebar_sections_spec(ws), active, u, ws.channels@.len());
}

/// A channel with unreads, and the open channel, are always listed in the
/// section they belong to, whatever the read-channel settings.
pub proof fn law_unread_or_open_channel_is_listed(ws: Workspace, active: Option<Seq<char>>, k: usize)
    requires
        k < ws.channels@.len(),
        section_of(ws, sidebar_sections_spec(ws), ws.channels@[k as int].1) is Some,
        state::unread_total_spec(ws.messages@, ws.channels@[k as int].1) > 0 || active == Some(
            ws.channels@[k as int].1.id@,
        ),
    ensures
        members(
            ws,
            sidebar_sections_spec(ws),
            active,
            section_of(ws, sidebar_sections_spec(ws), ws.channels@[k as int].1)->0,
            ws.channels@.len(),
        ).contains(k),
{
    let t = section_of(ws, sidebar_sections_spec(ws), ws.channels@[k as int].1)->0;
    assert(ws.channels@.len() == ws.channels.len());
    lemma_members(ws, sidebar_sections_spec(ws), active, t, ws.channels@.len());
    assert(placed(ws, sidebar_sections_spec(ws), active, t, k as int));
}

/// A list in sort order pair by adjacent pair is in sort order for every
/// pair: no item sorts after any item listed later. This rests on the
/// Unicode facts of `lowercase_keeps_digits`.
pub proof fn law_sorted_pairwise(s: Seq<usize>, key: spec_fn(usize) -> (u64, Seq<char>, Seq<char>), i: int, j: int)
    requires
        lowercase_keeps_digits(),
        in_order(s, key),
        0 <= i < j < s.len(),
    ensures
        sort_order(key(s[i]), key(s[j])) != Order::Greater,
    decreases j - i,
{
    assert(ordered_at(s, key, j - 1));
    if j > i + 1 {
        law_sorted_pairwise(s, key, i, j - 1);
        lemma_sort_order_trans(key(s[i]), key(s[j - 1]), key(s[j]));
    }
}

} // verus!
