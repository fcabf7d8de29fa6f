//! Selectable rich text: every segment's text split into grapheme clusters,
//! one span per cluster, each span knowing the channel or user mention it
//! belongs to, and the runs of spans drawn on a highlight.

use vstd::prelude::*;

use crate::composer::extended_graphemes;
use crate::text;

verus! {

/// A piece of a line of rich text, as far as selection cares: its text,
/// the channel or user it mentions, and whether it is drawn on a
/// highlight.
#[derive(Debug, Clone)]
pub struct SegmentText {
    pub text: String,
    pub channel: Option<String>,
    pub user: Option<String>,
    pub highlighted: bool,
}

/// Spans `start..=end` are drawn on the highlight of segment `segment`.
#[derive(Debug, Clone, Copy, PartialEq, Eq, Structural)]
pub struct HighlightRun {
    pub start: usize,
    pub end: usize,
    pub segment: usize,
}

/// A line of rich text split into spans.
#[derive(Debug, Clone)]
pub struct ExplodedText {
    /// One grapheme cluster per span.
    pub spans: Vec<String>,
    /// The segment each span comes from.
    pub segment_of: Vec<usize>,
    /// The channel mentioned at each span.
    pub channels: Vec<Option<String>>,
    /// The user mentioned at each span.
    pub users: Vec<Option<String>>,
    pub runs: Vec<HighlightRun>,
}

/// The texts of the first `k` segments, joined.
pub open spec fn texts_upto(segs: Seq<SegmentText>, k: nat) -> Seq<char>
    decreases k,
{
    if k == 0 {
        Seq::empty()
    } else {
        texts_upto(segs, (k - 1) as nat) + segs[k - 1].text@
    }
}

/// Each cluster of segment `k`, with `k`.
pub open spec fn tagged(g: Seq<Seq<char>>, k: int) -> Seq<(Seq<char>, int)> {
    Seq::new(g.len(), |i: int| (g[i], k))
}

/// The spans of the first `k` segments: each cluster with its segment.
pub open spec fn spans_upto(segs: Seq<SegmentText>, k: nat) -> Seq<(Seq<char>, int)>
    decreases k,
{
    if k == 0 {
        Seq::empty()
    } else {
        spans_upto(segs, (k - 1) as nat) + tagged(extended_graphemes(segs[k - 1].text@), k - 1)
    }
}

/// The highlight runs of the first `k` segments: one per highlighted
/// segment with at least one cluster, over exactly its spans.
pub open spec fn runs_upto(segs: Seq<SegmentText>, k: nat) -> Seq<HighlightRun>
    decreases k,
{
    if k == 0 {
        Seq::empty()
    } else {
        let start = spans_upto(segs, (k - 1) as nat).len();
        let n = extended_graphemes(segs[k - 1].text@).len();
        runs_upto(segs, (k - 1) as nat) + if segs[k - 1].highlighted && n > 0 {
            seq![HighlightRun { start: start as usize, end: (start + n - 1) as usize, segment: (k - 1) as usize }]
        } else {
            Seq::empty()
        }
    }
}

fn copy_opt(s: &Option<String>) -> (r: Option<String>)
    ensures
        text::string_opt(r) == text::string_opt(*s),
{
    match s {
        Some(v) => Some(v.clone()),
        None => None,
    }
}

/// Splits the segments into spans of one grapheme cluster each, with the
/// mention of each span and the highlighted runs.
pub fn explode_segments(segments: &Vec<SegmentText>) -> (r: ExplodedText)
    requires
        spans_upto(segments@, segments@.len()).len() <= usize::MAX,
    ensures
        r.spans@.len() == spans_upto(segments@, segments@.len()).len(),
        r.segment_of@.len() == r.spans@.len(),
        r.channels@.len() == r.spans@.len(),
        r.users@.len() == r.spans@.len(),
        forall|i: int|
            0 <= i < r.spans@.len() ==> {
                &&& (#[trigger] r.spans@[i])@ == spans_upto(segments@, segments@.len())[i].0
                &&& r.segment_of@[i] == spans_upto(segments@, segments@.len())[i].1
                &&& text::string_opt(r.channels@[i]) == text::string_opt(segments@[r.segment_of@[i] as int].channel)
                &&& text::string_opt(r.users@[i]) == text::string_opt(segments@[r.segment_of@[i] as int].user)
            },
        r.runs@ == runs_upto(segments@, segments@.len()),
        crate::composer::concat(crate::models::strings_view(r.spans@)) == texts_upto(segments@, segments@.len()),
{
    let ghost segs = segments@;
    let mut spans: Vec<String> = Vec::new();
    let mut segment_of: Vec<usize> = Vec::new();
    let mut channels: Vec<Option<String>> = Vec::new();
    let mut users: Vec<Option<String>> = Vec::new();
    let mut runs: Vec<HighlightRun> = Vec::new();
    let mut k: usize = 0;
    proof {
        lemma_spans_grow(segs, 0, segs.len());
    }
    while k < segments.len()
        invariant
            segs == segments@,
            k <= segs.len(),
            spans_upto(segs, segs.len()).len() <= usize::MAX,
            spans_upto(segs, k as nat).len() <= spans_upto(segs, segs.len()).len(),
            spans@.len() == spans_upto(segs, k as nat).len(),
            segment_of@.len() == spans@.len(),
            channels@.len() == spans@.len(),
            users@.len() == spans@.len(),
            forall|i: int| 0 <= i < spans@.len() ==> (#[trigger] spans@[i])@ == spans_upto(segs, k as nat)[i].0,
            forall|i: int| 0 <= i < spans@.len() ==> #[trigger] segment_of@[i] == spans_upto(segs, k as nat)[i].1,
            forall|i: int| 0 <= i < spans@.len() ==> 0 <= #[trigger] segment_of@[i] < k,
            forall|i: int| 0 <= i < spans@.len() ==> text::string_opt(#[trigger] channels@[i]) == text::string_opt(segs[segment_of@[i] as int].channel),
            forall|i: int| 0 <= i < spans@.len() ==> text::string_opt(#[trigger] users@[i]) == text::string_opt(segs[segment_of@[i] as int].user),
            runs@ == runs_upto(segs, k as nat),
            crate::composer::concat(crate::models::strings_view(spans@)) == texts_upto(segs, k as nat),
        decreases segs.len() - k,
    {
        let seg = &segments[k];
        let clusters = crate::composer::graphemes(seg.text.as_str());
        let ghost g = extended_graphemes(seg.text@);
        let ghost before = spans_upto(segs, k as nat);
        let start = spans.len();
        proof {
            lemma_spans_grow(segs, (k + 1) as nat, segs.len());
            assert(spans_upto(segs, (k + 1) as nat) == before + tagged(g, k as int));
            assert(crate::models::strings_view(clusters@) == g);
        }
        let mut j: usize = 0;
        while j < clusters.len()
            invariant
                segs == segments@,
                k < segs.len(),
                seg == &segments@[k as int],
                g == extended_graphemes(seg.text@),
                crate::models::strings_view(clusters@) == g,
                before == spans_upto(segs, k as nat),
                start == before.len(),
                start + g.len() <= usize::MAX,
                j <= clusters@.len(),
                spans@.len() == start + j,
                segment_of@.len() == spans@.len(),
                channels@.len() == spans@.len(),
                users@.len() == spans@.len(),
                forall|i: int| 0 <= i < spans@.len() ==> (#[trigger] spans@[i])@ == (before + tagged(g, k as int))[i].0,
                forall|i: int| 0 <= i < spans@.len() ==> #[trigger] segment_of@[i] == (before + tagged(g, k as int))[i].1,
                forall|i: int| 0 <= i < spans@.len() ==> 0 <= #[trigger] segment_of@[i] <= k,
                forall|i: int| 0 <= i < spans@.len() ==> text::string_opt(#[trigger] channels@[i]) == text::string_opt(segs[segment_of@[i] as int].channel),
                forall|i: int| 0 <= i < spans@.len() ==> text::string_opt(#[trigger] users@[i]) == text::string_opt(segs[segment_of@[i] as int].user),
                crate::composer::concat(crate::models::strings_view(spans@)) == texts_upto(segs, k as nat) + crate::composer::concat(g.take(j as int)),
            decreases clusters@.len() - j,
        {
            assert(clusters@[j as int]@ == g[j as int]);
            let ghost old_spans = spans@;
            spans.push(clusters[j].clone());
            proof {
                assert(crate::models::strings_view(spans@) =~= crate::models::strings_view(old_spans).push(g[j as int]));
                assert(crate::models::strings_view(spans@).drop_last() =~= crate::models::strings_view(old_spans));
                assert(g.take(j + 1).drop_last() =~= g.take(j as int));
                assert(crate::composer::concat(crate::models::strings_view(spans@)) =~= crate::composer::concat(crate::models::strings_view(old_spans)) + g[j as int]);
                assert(crate::composer::concat(g.take(j + 1)) == crate::composer::concat(g.take(j as int)) + g[j as int]);
            }
            segment_of.push(k);
            channels.push(copy_opt(&seg.channel));
            users.push(copy_opt(&seg.user));
            j = j + 1;
        }
        proof {
            assert(g.take(g.len() as int) =~= g);
        }
        if seg.highlighted && spans.len() > start {
            runs.push(HighlightRun { start, end: spans.len() - 1, segment: k });
        }
        assert(runs@ =~= runs_upto(segs, (k + 1) as nat));
        k = k + 1;
    }
    ExplodedText { spans, segment_of, channels, users, runs }
}

proof fn lemma_spans_grow(segs: Seq<SegmentText>, a: nat, b: nat)
    requires
        a <= b,
    ensures
        spans_upto(segs, a).len() <= spans_upto(segs, b).len(),
    decreases b - a,
{
    if a < b {
        lemma_spans_grow(segs, a, (b - 1) as nat);
    }
}

} // verus!
