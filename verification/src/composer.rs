//! The message composer: Slack's formatting marks around a selection,
//! attachment names and sizes, and which editor a target writes into.

use vstd::prelude::*;

use crate::mpdm::join;
use crate::text;

use unicode_segmentation::UnicodeSegmentation;

verus! {

broadcast use vstd::string::group_string_axioms;

pub const CHANNEL_INPUT_ID: &'static str = "composer-channel";

pub const THREAD_INPUT_ID: &'static str = "composer-thread";

pub const EDIT_INPUT_ID: &'static str = "composer-edit";

/// Which composer a key press or an action is for.
#[derive(Debug, Clone, Copy, PartialEq, Eq, Structural)]
pub enum ComposerTarget {
    Channel,
    Thread,
    Edit,
}

/// The formatting a shortcut applies.
#[derive(Debug, Clone, Copy, PartialEq, Eq, Structural)]
pub enum FormatMark {
    Bold,
    Italic,
    Strike,
    Code,
    CodeBlock,
    Quote,
}

/// The widget id of a composer's editor.
pub fn input_id(target: ComposerTarget) -> (r: &'static str)
    ensures
        r@ == match target {
            ComposerTarget::Channel => "composer-channel"@,
            ComposerTarget::Thread => "composer-thread"@,
            ComposerTarget::Edit => "composer-edit"@,
        },
{
    match target {
        ComposerTarget::Channel => CHANNEL_INPUT_ID,
        ComposerTarget::Thread => THREAD_INPUT_ID,
        ComposerTarget::Edit => EDIT_INPUT_ID,
    }
}

// ---------------------------------------------------------------------------
// Lines
// ---------------------------------------------------------------------------

/// The pieces of `s` between `sep` characters (`str::split`).
pub open spec fn split_on(s: Seq<char>, sep: char) -> Seq<Seq<char>>
    decreases s.len(),
{
    if s.len() == 0 {
        seq![Seq::empty()]
    } else {
        let prev = split_on(s.drop_last(), sep);
        if s.last() == sep {
            prev.push(Seq::empty())
        } else {
            prev.update(prev.len() - 1, prev.last().push(s.last()))
        }
    }
}

/// The texts of character vectors.
pub open spec fn vviews(s: Seq<Vec<char>>) -> Seq<Seq<char>> {
    s.map_values(|l: Vec<char>| l@)
}

/// Lines without the `\r` of their `\r\n` endings.
pub open spec fn strip_all(s: Seq<Seq<char>>) -> Seq<Seq<char>> {
    s.map_values(|l: Seq<char>| strip_cr(l))
}

/// Lines without their quote marks.
pub open spec fn unquote_all(s: Seq<Seq<char>>) -> Seq<Seq<char>> {
    s.map_values(|l: Seq<char>| unquote(l))
}

/// Lines with a quote mark each.
pub open spec fn quote_all(s: Seq<Seq<char>>) -> Seq<Seq<char>> {
    s.map_values(|l: Seq<char>| "> "@ + l)
}

/// A line without the `\r` of a `\r\n` ending.
pub open spec fn strip_cr(l: Seq<char>) -> Seq<char> {
    if l.len() > 0 && l.last() == '\r' {
        l.drop_last()
    } else {
        l
    }
}

/// `str::lines`: the lines of `s`, split at `\n` or `\r\n`, without a
/// final empty line.
pub open spec fn lines_spec(s: Seq<char>) -> Seq<Seq<char>> {
    let p = split_on(s, '\n');
    let init = strip_all(p.take(p.len() - 1));
    if p.last().len() == 0 {
        init
    } else {
        init.push(p.last())
    }
}

pub proof fn lemma_split_on_len(s: Seq<char>, sep: char)
    ensures
        split_on(s, sep).len() >= 1,
    decreases s.len(),
{
    if s.len() > 0 {
        lemma_split_on_len(s.drop_last(), sep);
    }
}

/// The lines of a text, as `str::lines` splits them.
pub fn lines(s: &str) -> (r: Vec<Vec<char>>)
    ensures
        vviews(r@) == lines_spec(s@),
{
    let v = text::to_chars(s);
    let mut done: Vec<Vec<char>> = Vec::new();
    let mut cur: Vec<char> = Vec::new();
    proof {
        lemma_split_on_len(s@.take(0), '\n');
    }
    for i in 0..v.len()
        invariant
            v@ == s@,
            split_on(s@.take(i as int), '\n').len() >= 1,
            vviews(done@) == strip_all(split_on(s@.take(i as int), '\n').drop_last()),
            cur@ == split_on(s@.take(i as int), '\n').last(),
    {
        let ghost pre = split_on(s@.take(i as int), '\n');
        assert(s@.take(i + 1).drop_last() =~= s@.take(i as int));
        if v[i] == '\n' {
            let ghost before = vviews(done@);
            let mut line = cur;
            if line.len() > 0 && line[line.len() - 1] == '\r' {
                line.pop();
            }
            assert(line@ == strip_cr(pre.last()));
            done.push(line);
            cur = Vec::new();
            let ghost post = split_on(s@.take(i + 1), '\n');
            assert(post == pre.push(Seq::empty()));
            assert(post.drop_last() =~= pre);
            assert(pre =~= pre.drop_last().push(pre.last()));
            assert(vviews(done@) =~= before.push(strip_cr(pre.last())));
            assert(strip_all(pre) =~= strip_all(pre.drop_last()).push(strip_cr(pre.last())));
        } else {
            cur.push(v[i]);
            let ghost post = split_on(s@.take(i + 1), '\n');
            assert(post.drop_last() =~= pre.drop_last());
        }
    }
    assert(s@.take(v.len() as int) =~= s@);
    let ghost p = split_on(s@, '\n');
    assert(p.take(p.len() - 1) =~= p.drop_last());
    if cur.len() > 0 {
        let ghost before = vviews(done@);
        done.push(cur);
        assert(vviews(done@) =~= before.push(p.last()));
    }
    done
}

// ---------------------------------------------------------------------------
// Formatting marks
// ---------------------------------------------------------------------------

/// What a pair of marks does to a selection: nothing selected gives both
/// marks with the cursor between them; a selection already wrapped in them
/// loses them; anything else is wrapped.
pub open spec fn toggle_pair_spec(sel: Seq<char>, open: Seq<char>, close: Seq<char>) -> (Seq<char>, nat) {
    if sel.len() == 0 {
        (open + close, close.len())
    } else if text::starts_with(sel, open) && text::ends_with(sel.skip(open.len() as int), close) {
        (sel.subrange(open.len() as int, sel.len() - close.len()), 0)
    } else {
        (open + sel + close, 0)
    }
}

/// Is a line quoted (`> ` or a lone `>`)?
pub open spec fn is_quoted(l: Seq<char>) -> bool {
    text::starts_with(l, "> "@) || l == ">"@
}

/// A line without its quote mark.
pub open spec fn unquote(l: Seq<char>) -> Seq<char> {
    if text::starts_with(l, "> "@) {
        l.skip(2)
    } else if text::starts_with(l, ">"@) {
        l.skip(1)
    } else {
        l
    }
}

/// Quoting toggles: a selection whose lines are all quoted loses the
/// quote marks, else every line gets one.
pub open spec fn quote_spec(sel: Seq<char>) -> Seq<char> {
    let ls = lines_spec(sel);
    if sel.len() == 0 {
        "> "@
    } else if forall|i: int| 0 <= i < ls.len() ==> is_quoted(#[trigger] ls[i]) {
        join(unquote_all(ls), seq!['\n'])
    } else {
        join(quote_all(ls), seq!['\n'])
    }
}

/// The replacement text for a selection and how far the cursor then moves
/// back.
pub open spec fn wrap_spec(sel: Seq<char>, mark: FormatMark) -> (Seq<char>, nat) {
    match mark {
        FormatMark::Bold => toggle_pair_spec(sel, "*"@, "*"@),
        FormatMark::Italic => toggle_pair_spec(sel, "_"@, "_"@),
        FormatMark::Strike => toggle_pair_spec(sel, "~"@, "~"@),
        FormatMark::Code => toggle_pair_spec(sel, "`"@, "`"@),
        FormatMark::CodeBlock => toggle_pair_spec(sel, "```\n"@, "\n```"@),
        FormatMark::Quote => (quote_spec(sel), 0),
    }
}

/// Puts a pair of marks around a selection, or takes them off.
pub fn toggle_pair(selected: &str, open: &str, close: &str) -> (r: (String, usize))
    ensures
        r.0@ == toggle_pair_spec(selected@, open@, close@).0,
        r.1 as nat == toggle_pair_spec(selected@, open@, close@).1,
{
    if selected.is_empty() {
        let mut s = text::owned(open);
        text::push_str(&mut s, close);
        return (s, close.unicode_len());
    }
    if text::str_starts_with(selected, open) {
        let n = selected.unicode_len();
        let o = open.unicode_len();
        let rest = text::substring_from(selected, o);
        if text::str_ends_with(rest, close) {
            let c = close.unicode_len();
            let inner = selected.substring_char(o, n - c);
            return (text::owned(inner), 0);
        }
    }
    let mut s = text::owned(open);
    text::push_str(&mut s, selected);
    text::push_str(&mut s, close);
    (s, 0)
}

/// Joins lines with `\n`.
fn join_lines(ls: &Vec<Vec<char>>) -> (r: String)
    ensures
        r@ == join(vviews(ls@), seq!['\n']),
{
    let ghost lv = vviews(ls@);
    let mut out = String::new();
    for k in 0..ls.len()
        invariant
            lv == vviews(ls@),
            out@ == join(lv.take(k as int), seq!['\n']),
    {
        assert(lv.take(k + 1).drop_last() =~= lv.take(k as int));
        if k > 0 {
            text::push_char(&mut out, '\n');
        }
        text::push_chars(&mut out, ls[k].as_slice());
        proof {
            if k == 0 {
                assert(lv.take(1) =~= seq![lv[0]]);
                assert(out@ =~= join(lv.take(1), seq!['\n']));
            } else {
                assert(out@ =~= join(lv.take(k + 1), seq!['\n']));
            }
        }
    }
    assert(lv.take(ls.len() as int) =~= lv);
    out
}

/// Toggles quote marks on the selected lines.
fn quote_lines(selected: &str) -> (r: String)
    ensures
        r@ == quote_spec(selected@),
{
    if selected.is_empty() {
        return text::owned("> ");
    }
    let ls = lines(selected);
    let ghost lv = vviews(ls@);
    let mut all_quoted = true;
    let mut k: usize = 0;
    while k < ls.len()
        invariant
            lv == vviews(ls@),
            k <= ls@.len(),
            all_quoted == (forall|i: int| 0 <= i < k ==> is_quoted(#[trigger] lv[i])),
        decreases ls.len() - k,
    {
        let l = &ls[k];
        let q = (l.len() >= 2 && l[0] == '>' && l[1] == ' ') || (l.len() == 1 && l[0] == '>');
        proof {
            reveal_strlit("> ");
            reveal_strlit(">");
            assert(lv[k as int] == l@);
            if l@.len() >= 2 && l@[0] == '>' && l@[1] == ' ' {
                assert(l@.take(2) =~= "> "@);
            }
            if l@ == ">"@ {
                assert(l@.len() == 1);
            }
            if text::starts_with(l@, "> "@) {
                assert(l@[0] == l@.take(2)[0]);
                assert(l@[1] == l@.take(2)[1]);
            }
            if l@.len() == 1 && l@[0] == '>' {
                assert(l@ =~= ">"@);
            }
        }
        if !q {
            all_quoted = false;
        }
        k = k + 1;
    }
    let mut out: Vec<Vec<char>> = Vec::new();
    let mut j: usize = 0;
    while j < ls.len()
        invariant
            lv == vviews(ls@),
            j <= ls@.len(),
            vviews(out@) == if all_quoted {
                unquote_all(lv.take(j as int))
            } else {
                quote_all(lv.take(j as int))
            },
        decreases ls.len() - j,
    {
        let l = &ls[j];
        let ghost before = vviews(out@);
        proof {
            reveal_strlit("> ");
            reveal_strlit(">");
        }
        let mut line: Vec<char> = Vec::new();
        if all_quoted {
            let skip: usize = if l.len() >= 2 && l[0] == '>' && l[1] == ' ' {
                2
            } else if l.len() >= 1 && l[0] == '>' {
                1
            } else {
                0
            };
            let mut m = skip;
            while m < l.len()
                invariant
                    skip <= m <= l@.len(),
                    line@ == l@.subrange(skip as int, m as int),
                decreases l.len() - m,
            {
                line.push(l[m]);
                m = m + 1;
                assert(line@ =~= l@.subrange(skip as int, m as int));
            }
            proof {
                if l@.len() >= 2 && l@[0] == '>' && l@[1] == ' ' {
                    assert(l@.take(2) =~= "> "@);
                } else {
                    if text::starts_with(l@, "> "@) {
                        assert(l@[0] == l@.take(2)[0]);
                        assert(l@[1] == l@.take(2)[1]);
                    }
                    if l@.len() >= 1 && l@[0] == '>' {
                        assert(l@.take(1) =~= ">"@);
                    }
                    if text::starts_with(l@, ">"@) {
                        assert(l@[0] == l@.take(1)[0]);
                    }
                }
                assert(line@ =~= unquote(l@));
            }
        } else {
            line.push('>');
            line.push(' ');
            let mut m: usize = 0;
            while m < l.len()
                invariant
                    m <= l@.len(),
                    line@ == "> "@ + l@.take(m as int),
                decreases l.len() - m,
            {
                line.push(l[m]);
                m = m + 1;
                assert(line@ =~= "> "@ + l@.take(m as int));
            }
            assert(l@.take(l@.len() as int) =~= l@);
        }
        let ghost lnv = line@;
        out.push(line);
        assert(lv.take(j + 1).drop_last() =~= lv.take(j as int));
        assert(lv[j as int] == l@);
        assert(vviews(out@) =~= before.push(lnv));
        proof {
            assert(unquote_all(lv.take(j + 1)) =~= unquote_all(lv.take(j as int)).push(unquote(lv[j as int])));
            assert(quote_all(lv.take(j + 1)) =~= quote_all(lv.take(j as int)).push("> "@ + lv[j as int]));
            if all_quoted {
                assert(vviews(out@) =~= unquote_all(lv.take(j + 1)));
            } else {
                assert(vviews(out@) =~= quote_all(lv.take(j + 1)));
            }
        }
        j = j + 1;
    }
    assert(lv.take(ls.len() as int) =~= lv);
    join_lines(&out)
}

/// The text that replaces a selection for a formatting mark, and how many
/// characters the cursor then moves left.
pub fn wrap_selection(selected: &str, mark: FormatMark) -> (r: (String, usize))
    ensures
        r.0@ == wrap_spec(selected@, mark).0,
        r.1 as nat == wrap_spec(selected@, mark).1,
{
    match mark {
        FormatMark::Bold => toggle_pair(selected, "*", "*"),
        FormatMark::Italic => toggle_pair(selected, "_", "_"),
        FormatMark::Strike => toggle_pair(selected, "~", "~"),
        FormatMark::Code => toggle_pair(selected, "`", "`"),
        FormatMark::CodeBlock => toggle_pair(selected, "```\n", "\n```"),
        FormatMark::Quote => (quote_lines(selected), 0),
    }
}


// ---------------------------------------------------------------------------
// Attachments
// ---------------------------------------------------------------------------

/// The extended grapheme clusters of a text, as unicode-segmentation
/// splits it.
pub uninterp spec fn extended_graphemes(s: Seq<char>) -> Seq<Seq<char>>;

/// unicode-segmentation's `graphemes(true)`: the extended grapheme clusters
/// of `s`, in order; each is the slice of `s` up to the next boundary, so
/// together they spell `s`.
#[verifier::external_body]
pub(crate) fn graphemes(s: &str) -> (r: Vec<String>)
    ensures
        crate::models::strings_view(r@) == extended_graphemes(s@),
        concat(crate::models::strings_view(r@)) == s@,
{
    s.graphemes(true).map(|g| g.to_owned()).collect()
}

/// The extension of a path, as `std::path::Path::extension` reads it.
pub uninterp spec fn path_extension(path: Seq<char>) -> Option<Seq<char>>;

/// `Path::extension` of a path given as text.
#[verifier::external_body]
pub(crate) fn path_extension_of(path: &str) -> (r: Option<&str>)
    ensures
        text::str_opt(r) == path_extension(path@),
{
    std::path::Path::new(path).extension().and_then(|e| e.to_str())
}

/// The texts joined end to end.
pub open spec fn concat(parts: Seq<Seq<char>>) -> Seq<char>
    decreases parts.len(),
{
    if parts.len() == 0 {
        Seq::empty()
    } else {
        concat(parts.drop_last()) + parts.last()
    }
}

/// How many grapheme clusters of an attachment's name are shown.
pub const MAX_NAME_GRAPHEMES: usize = 22;

/// An attachment's name cut to its first 22 grapheme clusters, with "..."
/// when something was cut.
pub open spec fn truncated_name(name: Seq<char>) -> Seq<char> {
    let g = extended_graphemes(name);
    if g.len() > MAX_NAME_GRAPHEMES {
        concat(g.take(MAX_NAME_GRAPHEMES as int)) + "..."@
    } else {
        concat(g)
    }
}

/// An attachment's name, cut to fit the attachment strip.
pub fn truncate_filename(name: &str) -> (r: String)
    ensures
        r@ == truncated_name(name@),
{
    let g = graphemes(name);
    let ghost gv = crate::models::strings_view(g@);
    let n = if g.len() > MAX_NAME_GRAPHEMES {
        MAX_NAME_GRAPHEMES
    } else {
        g.len()
    };
    let mut head = String::new();
    for i in 0..n
        invariant
            n <= g@.len(),
            gv == crate::models::strings_view(g@),
            head@ == concat(gv.take(i as int)),
    {
        assert(gv.take(i + 1).drop_last() =~= gv.take(i as int));
        text::push_str(&mut head, g[i].as_str());
    }
    assert(gv.take(gv.len() as int) =~= gv);
    if g.len() > MAX_NAME_GRAPHEMES {
        text::push_str(&mut head, "...");
    }
    head
}

/// Is the extension one of the listed ones, ignoring ASCII case?
pub open spec fn ext_in(ext: Option<Seq<char>>, list: Seq<Seq<char>>) -> bool {
    match ext {
        Some(e) => list.contains(text::lower_spec(e)),
        None => false,
    }
}

pub open spec fn image_exts() -> Seq<Seq<char>> {
    seq!["png"@, "jpg"@, "jpeg"@, "gif"@, "webp"@, "bmp"@]
}

pub open spec fn video_exts() -> Seq<Seq<char>> {
    seq!["mp4"@, "mov"@, "m4v"@, "webm"@]
}

/// Is the lowered extension one of `list`?
fn ext_listed(ext: Option<&str>, list: &Vec<&str>) -> (r: bool)
    ensures
        r == ext_in(text::str_opt(ext), crate::sections::strs(list@)),
{
    let e = match ext {
        Some(e) => e,
        None => return false,
    };
    let v = text::to_chars(e);
    let low = text::lower_chars(v.as_slice());
    let ghost lv = crate::sections::strs(list@);
    let mut i: usize = 0;
    while i < list.len()
        invariant
            i <= list@.len(),
            lv == crate::sections::strs(list@),
            low@ == text::lower_spec(e@),
            text::str_opt(ext) == Some(e@),
            forall|j: int| 0 <= j < i ==> lv[j] != low@,
        decreases list.len() - i,
    {
        let w = text::to_chars(list[i]);
        if text::chars_eq(w.as_slice(), low.as_slice()) {
            assert(lv[i as int] == low@);
            return true;
        }
        i = i + 1;
    }
    assert(!lv.contains(low@));
    false
}

/// Can an attachment at this path be previewed as an image?
pub fn is_previewable_image(path: &str) -> (r: bool)
    ensures
        r == ext_in(path_extension(path@), image_exts()),
{
    let list = vec!["png", "jpg", "jpeg", "gif", "webp", "bmp"];
    assert(crate::sections::strs(list@) =~= image_exts());
    ext_listed(path_extension_of(path), &list)
}

/// Is an attachment at this path a video?
pub fn is_video(path: &str) -> (r: bool)
    ensures
        r == ext_in(path_extension(path@), video_exts()),
{
    let list = vec!["mp4", "mov", "m4v", "webm"];
    assert(crate::sections::strs(list@) =~= video_exts());
    ext_listed(path_extension_of(path), &list)
}


/// Applying a pair of marks to a selection that does not already carry
/// them, then applying them again, gives the selection back.
pub proof fn law_toggle_pair_round_trip(sel: Seq<char>, open: Seq<char>, close: Seq<char>)
    requires
        sel.len() > 0,
        !(text::starts_with(sel, open) && text::ends_with(sel.skip(open.len() as int), close)),
    ensures
        toggle_pair_spec(toggle_pair_spec(sel, open, close).0, open, close) == (sel, 0nat),
{
    let w = open + sel + close;
    assert(toggle_pair_spec(sel, open, close).0 == w);
    assert(w.len() > 0);
    assert(w.take(open.len() as int) =~= open);
    assert(w.skip(open.len() as int) =~= sel + close);
    assert((sel + close).skip(sel.len() as int) =~= close);
    assert((sel + close).len() >= close.len());
    assert(w.subrange(open.len() as int, w.len() - close.len()) =~= sel);
}


/// Does `s` hold no `c`?
pub open spec fn lacks(s: Seq<char>, c: char) -> bool {
    forall|i: int| 0 <= i < s.len() ==> s[i] != c
}

proof fn lemma_join_extend(p: Seq<Seq<char>>, x: char, sep: Seq<char>)
    requires
        p.len() >= 1,
    ensures
        join(p.update(p.len() - 1, p.last().push(x)), sep) == join(p, sep).push(x),
{
    let q = p.update(p.len() - 1, p.last().push(x));
    if p.len() >= 2 {
        assert(q.drop_last() =~= p.drop_last());
    }
    assert(join(q, sep) =~= join(p, sep).push(x));
}

/// Joining the pieces of a split gives the text back.
proof fn lemma_join_split(s: Seq<char>, c: char)
    ensures
        join(split_on(s, c), seq![c]) == s,
    decreases s.len(),
{
    if s.len() > 0 {
        let prev = split_on(s.drop_last(), c);
        lemma_join_split(s.drop_last(), c);
        lemma_split_on_len(s.drop_last(), c);
        if s.last() == c {
            let q = prev.push(Seq::<char>::empty());
            assert(q.drop_last() =~= prev);
            assert(join(q, seq![c]) =~= s);
        } else {
            lemma_join_extend(prev, s.last(), seq![c]);
            assert(s.drop_last().push(s.last()) =~= s);
        }
    }
}

/// Splitting `t` followed by text without `c` adds that text to the last
/// piece.
proof fn lemma_split_append(t: Seq<char>, y: Seq<char>, c: char)
    requires
        lacks(y, c),
    ensures
        split_on(t + y, c) == split_on(t, c).update(split_on(t, c).len() - 1, split_on(t, c).last() + y),
    decreases y.len(),
{
    lemma_split_on_len(t, c);
    let st = split_on(t, c);
    if y.len() == 0 {
        assert(t + y =~= t);
        assert(st.last() + y =~= st.last());
        assert(st.update(st.len() - 1, st.last() + y) =~= st);
    } else {
        let y0 = y.drop_last();
        lemma_split_append(t, y0, c);
        assert((t + y).drop_last() =~= t + y0);
        assert((t + y).last() == y.last());
        let prev = split_on(t + y0, c);
        assert(prev.len() == st.len());
        assert(prev.last() == st.last() + y0);
        assert(st.last() + y0 + seq![y.last()] =~= st.last() + y);
        assert(prev.last().push(y.last()) =~= st.last() + y);
        assert(y.last() == y[y.len() - 1]);
        assert(y.last() != c);
        let lhs = prev.update(prev.len() - 1, prev.last().push(y.last()));
        let rhs = st.update(st.len() - 1, st.last() + y);
        assert forall|i: int| 0 <= i < lhs.len() implies lhs[i] == rhs[i] by {
            if i < lhs.len() - 1 {
                assert(lhs[i] == prev[i]);
                assert(prev[i] == st[i]);
            }
        }
        assert(lhs =~= rhs);
    }
}

/// Splitting joined pieces without `c` gives the pieces back.
proof fn lemma_split_join(p: Seq<Seq<char>>, c: char)
    requires
        p.len() >= 1,
        forall|i: int| 0 <= i < p.len() ==> lacks(#[trigger] p[i], c),
    ensures
        split_on(join(p, seq![c]), c) == p,
    decreases p.len(),
{
    if p.len() == 1 {
        lemma_split_append(Seq::empty(), p[0], c);
        assert(Seq::<char>::empty() + p[0] =~= p[0]);
        assert(split_on(Seq::<char>::empty(), c) =~= seq![Seq::<char>::empty()]);
        assert(Seq::<char>::empty() + p[0] =~= p[0]);
        assert(seq![Seq::<char>::empty()].update(0, Seq::<char>::empty() + p[0]) =~= p);
    } else {
        let init = p.drop_last();
        assert forall|i: int| 0 <= i < init.len() implies lacks(#[trigger] init[i], c) by {
            assert(init[i] == p[i]);
        }
        lemma_split_join(init, c);
        let x = join(init, seq![c]) + seq![c];
        assert(join(p, seq![c]) == x + p.last());
        assert(x.drop_last() =~= join(init, seq![c]));
        assert(lacks(p[p.len() - 1], c));
        lemma_split_append(x, p.last(), c);
        let sx = split_on(x, c);
        assert(sx =~= init.push(Seq::<char>::empty()));
        assert(Seq::<char>::empty() + p.last() =~= p.last());
        assert(sx.update(sx.len() - 1, sx.last() + p.last()) =~= p);
    }
}

/// The pieces of a split hold none of the characters `s` lacks, and none
/// holds the separator.
proof fn lemma_split_pieces(s: Seq<char>, c: char, x: char)
    requires
        lacks(s, x),
    ensures
        forall|i: int| 0 <= i < split_on(s, c).len() ==> lacks(#[trigger] split_on(s, c)[i], x),
        forall|i: int| 0 <= i < split_on(s, c).len() ==> lacks(#[trigger] split_on(s, c)[i], c),
    decreases s.len(),
{
    if s.len() > 0 {
        assert(lacks(s.drop_last(), x));
        lemma_split_pieces(s.drop_last(), c, x);
        lemma_split_on_len(s.drop_last(), c);
    }
}

/// The lines of a text without `\r` whose pieces between newlines are `p`,
/// when the last piece is not empty.
proof fn lemma_lines_are_pieces(s: Seq<char>)
    requires
        lacks(s, '\r'),
        split_on(s, '\n').last().len() > 0,
    ensures
        lines_spec(s) == split_on(s, '\n'),
{
    let p = split_on(s, '\n');
    lemma_split_on_len(s, '\n');
    lemma_split_pieces(s, '\n', '\r');
    let init = p.take(p.len() - 1);
    assert forall|i: int| 0 <= i < init.len() implies strip_all(init)[i] == init[i] by {
        assert(init[i] == p[i]);
        assert(lacks(p[i], '\r'));
        if p[i].len() > 0 {
            assert(p[i].last() == p[i][p[i].len() - 1]);
        }
    }
    assert(strip_all(init) =~= init);
    assert(init.push(p.last()) =~= p);
}

/// Quoting the lines of a selection that is not all quoted, then quoting
/// again, gives the selection back (for a selection without carriage
/// returns that does not end with a newline).
pub proof fn law_quote_round_trip(sel: Seq<char>)
    requires
        sel.len() > 0,
        sel.last() != '\n',
        lacks(sel, '\r'),
        !(forall|i: int| 0 <= i < lines_spec(sel).len() ==> is_quoted(#[trigger] lines_spec(sel)[i])),
    ensures
        quote_spec(quote_spec(sel)) == sel,
{
    reveal_strlit("> ");
    let p = split_on(sel, '\n');
    lemma_split_on_len(sel, '\n');
    lemma_split_on_len(sel.drop_last(), '\n');
    assert(sel.drop_last().push(sel.last()) =~= sel);
    assert(p.last().len() > 0);
    lemma_lines_are_pieces(sel);
    assert(lines_spec(sel) == p);
    assert(quote_spec(sel) == join(quote_all(p), seq!['\n']));
    let q = quote_all(p);
    let quoted = join(q, seq!['\n']);
    lemma_split_pieces(sel, '\n', '\r');
    assert forall|i: int| 0 <= i < q.len() implies lacks(#[trigger] q[i], '\n') && lacks(q[i], '\r') by {
        assert(q[i] == "> "@ + p[i]);
        assert(lacks(p[i], '\n') && lacks(p[i], '\r'));
        assert forall|k: int| 0 <= k < q[i].len() implies q[i][k] != '\n' && q[i][k] != '\r' by {
            if k >= 2 {
                assert(q[i][k] == p[i][k - 2]);
            }
        }
    }
    assert forall|i: int| 0 <= i < q.len() implies lacks(#[trigger] q[i], '\n') by {}
    lemma_split_join(q, '\n');
    assert(split_on(quoted, '\n') == q);
    assert(q.last() == "> "@ + p.last());
    assert(lacks(quoted, '\r')) by {
        lemma_join_lacks(q, '\n', '\r');
    }
    lemma_lines_are_pieces(quoted);
    assert(lines_spec(quoted) == q);
    assert(quoted.len() > 0) by {
        lemma_join_split(quoted, '\n');
        if quoted.len() == 0 {
            assert(split_on(quoted, '\n') =~= seq![Seq::<char>::empty()]);
        }
    }
    assert forall|i: int| 0 <= i < q.len() implies is_quoted(#[trigger] q[i]) by {
        assert(q[i].subrange(0, 2) =~= "> "@);
    }
    assert forall|i: int| 0 <= i < q.len() implies unquote_all(q)[i] == p[i] by {
        assert(q[i].subrange(0, 2) =~= "> "@);
        assert(q[i].skip(2) =~= p[i]);
    }
    assert(unquote_all(q) =~= p);
    lemma_join_split(sel, '\n');
}

/// Joined pieces that lack `x`, with a separator other than `x`, lack `x`.
proof fn lemma_join_lacks(p: Seq<Seq<char>>, sep: char, x: char)
    requires
        sep != x,
        forall|i: int| 0 <= i < p.len() ==> lacks(#[trigger] p[i], x),
    ensures
        lacks(join(p, seq![sep]), x),
    decreases p.len(),
{
    if p.len() >= 2 {
        let init = p.drop_last();
        assert forall|i: int| 0 <= i < init.len() implies lacks(#[trigger] init[i], x) by {
            assert(init[i] == p[i]);
        }
        lemma_join_lacks(init, sep, x);
        assert(lacks(p[p.len() - 1], x));
        let j = join(p, seq![sep]);
        let a = join(init, seq![sep]);
        assert(j == a + seq![sep] + p.last());
        assert forall|k: int| 0 <= k < j.len() implies j[k] != x by {
            if k < a.len() {
                assert(j[k] == a[k]);
            } else if k == a.len() {
                assert(j[k] == sep);
            } else {
                assert(j[k] == p.last()[k - a.len() - 1]);
            }
        }
    } else if p.len() == 1 {
        assert(lacks(p[0], x));
    }
}

/// Formatting an empty selection inserts both marks and puts the cursor
/// between them.
pub proof fn law_empty_selection_gets_both_marks(mark: FormatMark)
    requires
        mark != FormatMark::Quote,
    ensures
        ({
            let (text, back) = wrap_spec(Seq::empty(), mark);
            back > 0 && text.len() >= 2 * back
        }),
{
    reveal_strlit("*");
    reveal_strlit("_");
    reveal_strlit("~");
    reveal_strlit("`");
    reveal_strlit("```\n");
    reveal_strlit("\n```");
}

} // verus!
