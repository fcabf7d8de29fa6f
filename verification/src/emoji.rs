//! `:shortcode:` emoji in message text and reaction names.

use vstd::prelude::*;

use crate::text;

verus! {

broadcast use vstd::string::group_string_axioms;

/// A piece of message text: plain text, or an emoji shortcode name.
#[derive(Debug, Clone, PartialEq, Eq)]
pub enum EmojiTextToken {
    Text(String),
    Emoji(String),
}

/// Model of an `EmojiTextToken`.
pub enum TokenModel {
    Text(Seq<char>),
    Emoji(Seq<char>),
}

impl View for EmojiTextToken {
    type V = TokenModel;

    open spec fn view(&self) -> TokenModel {
        match self {
            EmojiTextToken::Text(t) => TokenModel::Text(t@),
            EmojiTextToken::Emoji(n) => TokenModel::Emoji(n@),
        }
    }
}

pub open spec fn tokens_view(s: Seq<EmojiTextToken>) -> Seq<TokenModel> {
    s.map_values(|t: EmojiTextToken| t@)
}

// ---------------------------------------------------------------------------
// Models
// ---------------------------------------------------------------------------

pub open spec fn is_colon() -> spec_fn(char) -> bool {
    |c: char| c == ':'
}

pub open spec fn emoji_name_char(c: char) -> bool {
    ('a' <= c && c <= 'z') || ('A' <= c && c <= 'Z') || ('0' <= c && c <= '9') || c == '_' || c
        == '-' || c == '+'
}

/// A shortcode name: non-empty, ASCII letters, digits, `_`, `-` and `+`.
pub open spec fn is_emoji_name_spec(s: Seq<char>) -> bool {
    s.len() > 0 && forall|i: int| 0 <= i < s.len() ==> emoji_name_char(#[trigger] s[i])
}

pub open spec fn colon_text() -> TokenModel {
    TokenModel::Text(seq![':'])
}

/// The tokens of `s` before adjacent texts are merged.
pub open spec fn raw_tokens(s: Seq<char>) -> Seq<TokenModel>
    decreases s.len(),
{
    let i = text::first_where(s, is_colon());
    if i >= s.len() {
        if s.len() > 0 {
            seq![TokenModel::Text(s)]
        } else {
            Seq::empty()
        }
    } else {
        let before = s.take(i as int);
        let after = s.skip((i + 1) as int);
        let pre = if before.len() > 0 {
            seq![TokenModel::Text(before)]
        } else {
            Seq::empty()
        };
        let j = text::first_where(after, is_colon());
        if j >= after.len() {
            pre + seq![colon_text()] + raw_tokens(after)
        } else if is_emoji_name_spec(after.take(j as int)) {
            pre + seq![TokenModel::Emoji(after.take(j as int))] + raw_tokens(after.skip((j + 1) as int))
        } else {
            pre + seq![colon_text()] + raw_tokens(after)
        }
    }
}

/// Appends a token, joining it to a preceding text when both are texts.
pub open spec fn merge_push(acc: Seq<TokenModel>, t: TokenModel) -> Seq<TokenModel> {
    if acc.len() > 0 && acc.last() is Text && t is Text {
        acc.drop_last().push(TokenModel::Text(acc.last()->Text_0 + t->Text_0))
    } else {
        acc.push(t)
    }
}

/// Adjacent text tokens joined into one.
pub open spec fn merged(s: Seq<TokenModel>) -> Seq<TokenModel>
    decreases s.len(),
{
    if s.len() == 0 {
        Seq::empty()
    } else {
        merge_push(merged(s.drop_last()), s.last())
    }
}

/// `emoji_text_tokens`: the text split into plain text and shortcodes.
pub open spec fn tokens_spec(s: Seq<char>) -> Seq<TokenModel> {
    merged(raw_tokens(s))
}

/// The text a token stands for.
pub open spec fn token_source(t: TokenModel) -> Seq<char> {
    match t {
        TokenModel::Text(x) => x,
        TokenModel::Emoji(n) => seq![':'] + n + seq![':'],
    }
}

/// The text a token list stands for.
pub open spec fn render(s: Seq<TokenModel>) -> Seq<char>
    decreases s.len(),
{
    if s.len() == 0 {
        Seq::empty()
    } else {
        render(s.drop_last()) + token_source(s.last())
    }
}

/// The shortcode names of a token list, in order.
pub open spec fn emoji_names(s: Seq<TokenModel>) -> Seq<Seq<char>>
    decreases s.len(),
{
    if s.len() == 0 {
        Seq::empty()
    } else {
        match s.last() {
            TokenModel::Emoji(n) => emoji_names(s.drop_last()).push(n),
            TokenModel::Text(_) => emoji_names(s.drop_last()),
        }
    }
}

/// `emoji_names_in_text`: the shortcodes of a text, scanning for `:name:`.
pub open spec fn names_spec(s: Seq<char>) -> Seq<Seq<char>>
    decreases s.len(),
{
    let i = text::first_where(s, is_colon());
    if i >= s.len() {
        Seq::empty()
    } else {
        let after = s.skip((i + 1) as int);
        let j = text::first_where(after, is_colon());
        if j >= after.len() {
            Seq::empty()
        } else if is_emoji_name_spec(after.take(j as int)) {
            seq![after.take(j as int)] + names_spec(after.skip((j + 1) as int))
        } else {
            names_spec(after)
        }
    }
}

// ---------------------------------------------------------------------------
// Lemmas
// ---------------------------------------------------------------------------

proof fn lemma_render_append(a: Seq<TokenModel>, b: Seq<TokenModel>)
    ensures
        render(a + b) == render(a) + render(b),
    decreases b.len(),
{
    if b.len() == 0 {
        assert(a + b =~= a);
        assert(render(b) =~= Seq::<char>::empty());
        assert(render(a) + render(b) =~= render(a));
    } else {
        assert((a + b).drop_last() =~= a + b.drop_last());
        lemma_render_append(a, b.drop_last());
        assert(render(a + b) =~= render(a) + render(b));
    }
}

proof fn lemma_render_one(t: TokenModel)
    ensures
        render(seq![t]) == token_source(t),
{
    assert(seq![t].drop_last() =~= Seq::<TokenModel>::empty());
    assert(seq![t].last() == t);
    assert(render(Seq::<TokenModel>::empty()) =~= Seq::<char>::empty());
    assert(render(seq![t]) =~= token_source(t));
}

proof fn lemma_names_one(t: TokenModel)
    ensures
        emoji_names(seq![t]) == match t {
            TokenModel::Emoji(n) => seq![n],
            TokenModel::Text(_) => Seq::<Seq<char>>::empty(),
        },
{
    assert(seq![t].drop_last() =~= Seq::<TokenModel>::empty());
    assert(seq![t].last() == t);
    assert(emoji_names(Seq::<TokenModel>::empty()) =~= Seq::<Seq<char>>::empty());
    match t {
        TokenModel::Emoji(n) => {
            assert(emoji_names(seq![t]) =~= seq![n]);
        },
        TokenModel::Text(_) => {},
    }
}

proof fn lemma_names_append(a: Seq<TokenModel>, b: Seq<TokenModel>)
    ensures
        emoji_names(a + b) == emoji_names(a) + emoji_names(b),
    decreases b.len(),
{
    if b.len() == 0 {
        assert(a + b =~= a);
        assert(emoji_names(a) + emoji_names(b) =~= emoji_names(a));
    } else {
        assert((a + b).drop_last() =~= a + b.drop_last());
        lemma_names_append(a, b.drop_last());
        assert(emoji_names(a + b) =~= emoji_names(a) + emoji_names(b));
    }
}

proof fn lemma_first_colon(s: Seq<char>)
    ensures
        text::first_where(s, is_colon()) <= s.len(),
        text::first_where(s, is_colon()) < s.len() ==> s[text::first_where(s, is_colon()) as int] == ':',
        forall|k: int| 0 <= k < text::first_where(s, is_colon()) ==> #[trigger] s[k] != ':',
{
    text::lemma_first_where_bound(s, is_colon());
}

/// Rendering the raw tokens gives back the text.
proof fn lemma_raw_render(s: Seq<char>)
    ensures
        render(raw_tokens(s)) == s,
    decreases s.len(),
{
    let i = text::first_where(s, is_colon());
    lemma_first_colon(s);
    if i >= s.len() {
        if s.len() > 0 {
            lemma_render_one(TokenModel::Text(s));
        } else {
            assert(raw_tokens(s) =~= Seq::<TokenModel>::empty());
            assert(s =~= Seq::<char>::empty());
        }
    } else {
        let before = s.take(i as int);
        let after = s.skip((i + 1) as int);
        let pre = if before.len() > 0 {
            seq![TokenModel::Text(before)]
        } else {
            Seq::empty()
        };
        assert(render(pre) == before) by {
            if before.len() > 0 {
                lemma_render_one(TokenModel::Text(before));
            } else {
                assert(before =~= Seq::<char>::empty());
            }
        }
        let j = text::first_where(after, is_colon());
        lemma_first_colon(after);
        assert(s =~= before + seq![':'] + after);
        if j >= after.len() || !is_emoji_name_spec(after.take(j as int)) {
            lemma_raw_render(after);
            lemma_render_one(colon_text());
            lemma_render_append(pre, seq![colon_text()]);
            lemma_render_append(pre + seq![colon_text()], raw_tokens(after));
        } else {
            let name = after.take(j as int);
            let rest = after.skip((j + 1) as int);
            lemma_raw_render(rest);
            lemma_render_one(TokenModel::Emoji(name));
            lemma_render_append(pre, seq![TokenModel::Emoji(name)]);
            lemma_render_append(pre + seq![TokenModel::Emoji(name)], raw_tokens(rest));
            assert(after =~= name + seq![':'] + rest);
        }
    }
}

/// Merging keeps the rendered text and the emoji names.
proof fn lemma_merged(s: Seq<TokenModel>)
    ensures
        render(merged(s)) == render(s),
        emoji_names(merged(s)) == emoji_names(s),
    decreases s.len(),
{
    if s.len() == 0 {
        assert(merged(s) =~= Seq::<TokenModel>::empty());
    } else {
        lemma_merged(s.drop_last());
        let acc = merged(s.drop_last());
        let t = s.last();
        assert(render(s) == render(s.drop_last()) + token_source(t));
        if acc.len() > 0 && acc.last() is Text && t is Text {
            let joined = TokenModel::Text(acc.last()->Text_0 + t->Text_0);
            assert(render(acc) == render(acc.drop_last()) + token_source(acc.last()));
            assert(acc.drop_last().push(joined).drop_last() =~= acc.drop_last());
            assert(acc.drop_last().push(joined).last() == joined);
            assert(render(merged(s)) =~= render(s));
            assert(emoji_names(acc) == emoji_names(acc.drop_last()));
            assert(emoji_names(merged(s)) == emoji_names(acc.drop_last()));
        } else {
            assert(merged(s) == acc.push(t));
            assert(acc.push(t).drop_last() =~= acc);
            assert(acc.push(t).last() == t);
            assert(render(merged(s)) =~= render(s));
            assert(emoji_names(merged(s)) =~= emoji_names(s));
        }
    }
}

/// No two adjacent texts after merging.
proof fn lemma_merged_no_adjacent_text(s: Seq<TokenModel>)
    ensures
        forall|k: int|
            0 <= k < merged(s).len() - 1 ==> !((#[trigger] merged(s)[k]) is Text && merged(s)[k + 1] is Text),
    decreases s.len(),
{
    if s.len() > 0 {
        lemma_merged_no_adjacent_text(s.drop_last());
        let acc = merged(s.drop_last());
        let m = merged(s);
        assert forall|k: int| 0 <= k < m.len() - 1 implies !((#[trigger] m[k]) is Text && m[k + 1] is Text) by {
            if acc.len() > 0 && acc.last() is Text && s.last() is Text {
                assert(m[k] == acc[k]);
                if k + 1 < acc.len() - 1 {
                    assert(m[k + 1] == acc[k + 1]);
                }
            } else {
                if k < acc.len() - 1 {
                    assert(m[k] == acc[k] && m[k + 1] == acc[k + 1]);
                } else {
                    assert(m[k] == acc.last());
                }
            }
        }
    }
}

/// The names found by the scanner are the emoji tokens, in order.
proof fn lemma_names_match(s: Seq<char>)
    ensures
        emoji_names(raw_tokens(s)) == names_spec(s),
    decreases s.len(),
{
    let i = text::first_where(s, is_colon());
    lemma_first_colon(s);
    if i >= s.len() {
        if s.len() > 0 {
            lemma_names_one(TokenModel::Text(s));
        } else {
            assert(emoji_names(Seq::<TokenModel>::empty()) =~= Seq::<Seq<char>>::empty());
        }
        assert(emoji_names(raw_tokens(s)) =~= names_spec(s));
    } else {
        let before = s.take(i as int);
        let after = s.skip((i + 1) as int);
        let pre = if before.len() > 0 {
            seq![TokenModel::Text(before)]
        } else {
            Seq::empty()
        };
        assert(emoji_names(pre) =~= Seq::<Seq<char>>::empty()) by {
            if before.len() > 0 {
                lemma_names_one(TokenModel::Text(before));
            } else {
                assert(emoji_names(Seq::<TokenModel>::empty()) =~= Seq::<Seq<char>>::empty());
            }
        }
        lemma_names_one(colon_text());
        let j = text::first_where(after, is_colon());
        lemma_first_colon(after);
        if j >= after.len() {
            lemma_names_append(pre, seq![colon_text()]);
            lemma_names_append(pre + seq![colon_text()], raw_tokens(after));
            lemma_names_match(after);
            assert(names_spec(after) =~= Seq::<Seq<char>>::empty()) by {
                assert(text::first_where(after, is_colon()) >= after.len());
            }
            assert(emoji_names(raw_tokens(s)) =~= names_spec(s));
        } else if is_emoji_name_spec(after.take(j as int)) {
            let name = after.take(j as int);
            let e = seq![TokenModel::Emoji(name)];
            lemma_names_one(TokenModel::Emoji(name));
            lemma_names_append(pre, e);
            lemma_names_append(pre + e, raw_tokens(after.skip((j + 1) as int)));
            lemma_names_match(after.skip((j + 1) as int));
            assert(emoji_names(raw_tokens(s)) =~= names_spec(s));
        } else {
            lemma_names_append(pre, seq![colon_text()]);
            lemma_names_append(pre + seq![colon_text()], raw_tokens(after));
            lemma_names_match(after);
            assert(emoji_names(raw_tokens(s)) =~= names_spec(s));
        }
    }
}

/// A token as the scanner makes it: a text is never empty, a name is a
/// valid shortcode name.
pub open spec fn token_ok(t: TokenModel) -> bool {
    match t {
        TokenModel::Text(x) => x.len() > 0,
        TokenModel::Emoji(n) => is_emoji_name_spec(n),
    }
}

pub open spec fn all_ok(s: Seq<TokenModel>) -> bool {
    forall|k: int| 0 <= k < s.len() ==> token_ok(#[trigger] s[k])
}

proof fn lemma_all_ok_append(a: Seq<TokenModel>, b: Seq<TokenModel>)
    requires
        all_ok(a),
        all_ok(b),
    ensures
        all_ok(a + b),
{
    assert forall|k: int| 0 <= k < (a + b).len() implies token_ok(#[trigger] (a + b)[k]) by {
        if k < a.len() {
            assert((a + b)[k] == a[k]);
        } else {
            assert((a + b)[k] == b[k - a.len()]);
        }
    }
}

proof fn lemma_raw_ok(s: Seq<char>)
    ensures
        all_ok(raw_tokens(s)),
    decreases s.len(),
{
    let i = text::first_where(s, is_colon());
    lemma_first_colon(s);
    if i < s.len() {
        let before = s.take(i as int);
        let after = s.skip((i + 1) as int);
        let pre = if before.len() > 0 {
            seq![TokenModel::Text(before)]
        } else {
            Seq::empty()
        };
        assert(all_ok(pre)) by {
            if before.len() > 0 {
                assert(pre[0] == TokenModel::Text(before));
            }
        }
        assert(all_ok(seq![colon_text()])) by {
            assert(seq![colon_text()][0] == colon_text());
        }
        let j = text::first_where(after, is_colon());
        lemma_first_colon(after);
        if j >= after.len() {
            lemma_raw_ok(after);
            lemma_all_ok_append(pre, seq![colon_text()]);
            lemma_all_ok_append(pre + seq![colon_text()], raw_tokens(after));
        } else if is_emoji_name_spec(after.take(j as int)) {
            let e = seq![TokenModel::Emoji(after.take(j as int))];
            assert(all_ok(e)) by {
                assert(e[0] == TokenModel::Emoji(after.take(j as int)));
            }
            lemma_raw_ok(after.skip((j + 1) as int));
            lemma_all_ok_append(pre, e);
            lemma_all_ok_append(pre + e, raw_tokens(after.skip((j + 1) as int)));
        } else {
            lemma_raw_ok(after);
            lemma_all_ok_append(pre, seq![colon_text()]);
            lemma_all_ok_append(pre + seq![colon_text()], raw_tokens(after));
        }
    } else if s.len() > 0 {
        assert(raw_tokens(s)[0] == TokenModel::Text(s));
    }
}

proof fn lemma_merged_ok(s: Seq<TokenModel>)
    requires
        all_ok(s),
    ensures
        all_ok(merged(s)),
    decreases s.len(),
{
    if s.len() > 0 {
        assert(all_ok(s.drop_last())) by {
            assert forall|k: int| 0 <= k < s.drop_last().len() implies token_ok(#[trigger] s.drop_last()[k]) by {
                assert(s.drop_last()[k] == s[k]);
            }
        }
        lemma_merged_ok(s.drop_last());
        let acc = merged(s.drop_last());
        let t = s.last();
        assert(token_ok(t));
        let m = merged(s);
        assert forall|k: int| 0 <= k < m.len() implies token_ok(#[trigger] m[k]) by {
            if k < acc.len() - 1 || (k == acc.len() - 1 && !(acc.len() > 0 && acc.last() is Text && t is Text)) {
                assert(m[k] == acc[k]);
            }
        }
    }
}

/// Every token is well formed: plain texts are never empty, and every
/// emoji name is a non-empty run of ASCII letters, digits, `_`, `-` and `+`.
pub proof fn law_tokens_are_well_formed(s: Seq<char>)
    ensures
        forall|k: int| 0 <= k < tokens_spec(s).len() ==> match #[trigger] tokens_spec(s)[k] {
            TokenModel::Text(x) => x.len() > 0,
            TokenModel::Emoji(n) => is_emoji_name_spec(n),
        },
{
    lemma_raw_ok(s);
    lemma_merged_ok(raw_tokens(s));
    assert forall|k: int| 0 <= k < tokens_spec(s).len() implies token_ok(#[trigger] tokens_spec(s)[k]) by {}
}

/// Splitting a text into tokens loses nothing: the plain texts and the
/// `:name:` shortcodes, in order, spell the original text.
pub proof fn law_tokens_spell_the_text(s: Seq<char>)
    ensures
        render(tokens_spec(s)) == s,
{
    lemma_raw_render(s);
    lemma_merged(raw_tokens(s));
}

/// The token list never holds two plain texts in a row.
pub proof fn law_tokens_are_merged(s: Seq<char>)
    ensures
        forall|k: int|
            0 <= k < tokens_spec(s).len() - 1 ==> !((#[trigger] tokens_spec(s)[k]) is Text
                && tokens_spec(s)[k + 1] is Text),
{
    lemma_merged_no_adjacent_text(raw_tokens(s));
}

/// `emoji_names_in_text` finds exactly the shortcodes that
/// `emoji_text_tokens` marks as emoji, in the same order.
pub proof fn law_names_are_the_emoji_tokens(s: Seq<char>)
    ensures
        names_spec(s) == emoji_names(tokens_spec(s)),
{
    lemma_names_match(s);
    lemma_merged(raw_tokens(s));
}

// ---------------------------------------------------------------------------
// Executable code
// ---------------------------------------------------------------------------

pub fn is_emoji_name(name: &[char]) -> (r: bool)
    ensures
        r == is_emoji_name_spec(name@),
{
    if name.len() == 0 {
        return false;
    }
    let mut i: usize = 0;
    while i < name.len()
        invariant
            i <= name@.len(),
            forall|k: int| 0 <= k < i ==> emoji_name_char(#[trigger] name@[k]),
        decreases name.len() - i,
    {
        let c = name[i];
        let ok = ('a' <= c && c <= 'z') || ('A' <= c && c <= 'Z') || ('0' <= c && c <= '9') || c
            == '_' || c == '-' || c == '+';
        if !ok {
            return false;
        }
        i = i + 1;
    }
    true
}

/// Index of the first `:` at or after `from`, or `v.len()`.
fn find_colon(v: &[char], from: usize) -> (r: usize)
    requires
        from <= v@.len(),
    ensures
        from <= r <= v@.len(),
        r - from == text::first_where(v@.skip(from as int), is_colon()),
{
    let mut i = from;
    while i < v.len() && v[i] != ':'
        invariant
            from <= i <= v@.len(),
            forall|k: int| from <= k < i ==> v@[k] != ':',
        decreases v.len() - i,
    {
        i = i + 1;
    }
    proof {
        let t = v@.skip(from as int);
        assert forall|k: int| 0 <= k < i - from implies !is_colon()(#[trigger] t[k]) by {
            assert(t[k] == v@[from + k]);
        }
        if i < v@.len() {
            assert(t[i - from] == v@[i as int]);
        }
        text::lemma_first_where(t, is_colon(), i - from);
    }
    i
}

fn text_token(v: &[char]) -> (t: EmojiTextToken)
    ensures
        t@ == TokenModel::Text(v@),
{
    EmojiTextToken::Text(text::from_chars(v))
}

fn colon_token() -> (t: EmojiTextToken)
    ensures
        t@ == colon_text(),
{
    let mut c = String::new();
    text::push_char(&mut c, ':');
    assert(c@ =~= seq![':']);
    EmojiTextToken::Text(c)
}

/// The raw (unmerged) tokens of a text.
fn raw_token_list(v: &[char]) -> (out: Vec<EmojiTextToken>)
    ensures
        tokens_view(out@) == raw_tokens(v@),
{
    let mut out: Vec<EmojiTextToken> = Vec::new();
    let mut pos: usize = 0;
    assert(v@.skip(0) =~= v@);
    while pos < v.len()
        invariant
            pos <= v@.len(),
            tokens_view(out@) + raw_tokens(v@.skip(pos as int)) == raw_tokens(v@),
        decreases v.len() - pos,
    {
        let ghost s = v@.skip(pos as int);
        let ghost prev = tokens_view(out@);
        let start = find_colon(v, pos);
        if start == v.len() {
            out.push(text_token(&v[pos..v.len()]));
            assert(v@.subrange(pos as int, v@.len() as int) =~= s);
            assert(tokens_view(out@) =~= prev + raw_tokens(s));
            assert(v@.skip(v@.len() as int) =~= Seq::<char>::empty());
            assert(raw_tokens(Seq::<char>::empty()) =~= Seq::<TokenModel>::empty());
            assert(tokens_view(out@) + raw_tokens(v@.skip(v@.len() as int)) =~= raw_tokens(v@));
            pos = v.len();
        } else {
        let ghost i = (start - pos) as int;
        let ghost before = s.take(i);
        let ghost after = s.skip((i + 1) as int);
        assert(v@.subrange(pos as int, start as int) =~= before);
        assert(v@.skip(start + 1) =~= after);
        let ghost pre = if before.len() > 0 {
            seq![TokenModel::Text(before)]
        } else {
            Seq::empty()
        };
        if start > pos {
            out.push(text_token(&v[pos..start]));
        }
        assert(tokens_view(out@) =~= prev + pre);
        let end = find_colon(v, start + 1);
        let ghost j = (end - start - 1) as int;
        if end == v.len() {
            out.push(colon_token());
            assert(tokens_view(out@) =~= prev + pre + seq![colon_text()]);
            assert(raw_tokens(s) == pre + seq![colon_text()] + raw_tokens(after));
            assert(tokens_view(out@) + raw_tokens(after) =~= prev + raw_tokens(s));
            pos = start + 1;
        } else {
            let name = &v[start + 1..end];
            assert(name@ =~= after.take(j));
            if is_emoji_name(name) {
                out.push(EmojiTextToken::Emoji(text::from_chars(name)));
                assert(v@.skip(end + 1) =~= after.skip((j + 1) as int));
                assert(tokens_view(out@) + raw_tokens(after.skip((j + 1) as int)) =~= prev + raw_tokens(s));
                pos = end + 1;
            } else {
                out.push(colon_token());
                assert(tokens_view(out@) + raw_tokens(after) =~= prev + raw_tokens(s));
                pos = start + 1;
            }
        }
        }
    }
    assert(v@.skip(pos as int) =~= Seq::<char>::empty());
    assert(raw_tokens(Seq::<char>::empty()) =~= Seq::<TokenModel>::empty());
    assert(tokens_view(out@) =~= raw_tokens(v@));
    out
}

/// Joins adjacent text tokens.
fn merge_text_tokens(tokens: Vec<EmojiTextToken>) -> (out: Vec<EmojiTextToken>)
    ensures
        tokens_view(out@) == merged(tokens_view(tokens@)),
{
    let mut out: Vec<EmojiTextToken> = Vec::new();
    let mut rest = tokens;
    let ghost all = tokens_view(rest@);
    let ghost mut done: Seq<TokenModel> = Seq::empty();
    while rest.len() > 0
        invariant
            all == done + tokens_view(rest@),
            tokens_view(out@) == merged(done),
        decreases rest.len(),
    {
        let ghost before = rest@;
        let t = rest.remove(0);
        assert(rest@ =~= before.drop_first());
        let ghost tm = t@;
        let ghost acc = tokens_view(out@);
        let last_is_text = out.len() > 0 && match &out[out.len() - 1] {
            EmojiTextToken::Text(_) => true,
            EmojiTextToken::Emoji(_) => false,
        };
        match t {
            EmojiTextToken::Text(next) => {
                if last_is_text {
                    let last = out.pop();
                    match last {
                        Some(EmojiTextToken::Text(mut existing)) => {
                            text::push_str(&mut existing, next.as_str());
                            out.push(EmojiTextToken::Text(existing));
                        },
                        _ => {},
                    }
                    assert(tokens_view(out@) =~= merge_push(acc, tm));
                } else {
                    out.push(EmojiTextToken::Text(next));
                    assert(tokens_view(out@) =~= merge_push(acc, tm));
                }
            },
            EmojiTextToken::Emoji(n) => {
                out.push(EmojiTextToken::Emoji(n));
                assert(tokens_view(out@) =~= merge_push(acc, tm));
            },
        }
        proof {
            assert((done.push(tm)).drop_last() =~= done);
            done = done.push(tm);
        }
        assert(all =~= done + tokens_view(rest@));
    }
    assert(done =~= all);
    out
}

/// Splits message text into plain text and `:shortcode:` emoji.
pub fn emoji_text_tokens(text: &str) -> (out: Vec<EmojiTextToken>)
    ensures
        tokens_view(out@) == tokens_spec(text@),
{
    let v = text::to_chars(text);
    let raw = raw_token_list(v.as_slice());
    merge_text_tokens(raw)
}

/// The shortcode names in a text, in order.
pub fn emoji_names_in_text(text: &str) -> (names: Vec<String>)
    ensures
        names@.map_values(|n: String| n@) == names_spec(text@),
{
    let v = text::to_chars(text);
    let mut names: Vec<String> = Vec::new();
    let mut pos: usize = 0;
    assert(v@.skip(0) =~= v@);
    while pos < v.len()
        invariant
            pos <= v@.len(),
            names@.map_values(|n: String| n@) + names_spec(v@.skip(pos as int)) == names_spec(v@),
        decreases v.len() - pos,
    {
        let ghost s = v@.skip(pos as int);
        let ghost prev = names@.map_values(|n: String| n@);
        let start = find_colon(v.as_slice(), pos);
        if start == v.len() {
            assert(names_spec(s) =~= Seq::<Seq<char>>::empty());
            assert(v@.skip(v@.len() as int) =~= Seq::<char>::empty());
            assert(names_spec(Seq::<char>::empty()) =~= Seq::<Seq<char>>::empty());
            pos = v.len();
            continue;
        }
        let ghost i = (start - pos) as int;
        let ghost after = s.skip((i + 1) as int);
        assert(v@.skip(start + 1) =~= after);
        let end = find_colon(v.as_slice(), start + 1);
        let ghost j = (end - start - 1) as int;
        if end == v.len() {
            assert(names_spec(s) =~= Seq::<Seq<char>>::empty());
            assert(v@.skip(v@.len() as int) =~= Seq::<char>::empty());
            assert(names_spec(Seq::<char>::empty()) =~= Seq::<Seq<char>>::empty());
            pos = v.len();
            continue;
        }
        let name = &v.as_slice()[start + 1..end];
        assert(name@ =~= after.take(j));
        if is_emoji_name(name) {
            names.push(text::from_chars(name));
            assert(v@.skip(end + 1) =~= after.skip((j + 1) as int));
            assert(names@.map_values(|n: String| n@) =~= prev.push(name@));
            assert(names@.map_values(|n: String| n@) + names_spec(after.skip((j + 1) as int)) =~= prev + names_spec(s));
            pos = end + 1;
        } else {
            pos = start + 1;
        }
    }
    assert(v@.skip(pos as int) =~= Seq::<char>::empty());
    assert(names_spec(Seq::<char>::empty()) =~= Seq::<Seq<char>>::empty());
    assert(names@.map_values(|n: String| n@) =~= names_spec(v@));
    names
}

// ---------------------------------------------------------------------------
// Glyphs
// ---------------------------------------------------------------------------

/// The emoji that a standard shortcode (such as `wave`) names, if any: the
/// result of the `emojis` crate's shortcode table, which depends on the
/// shortcode alone.
pub uninterp spec fn shortcode_emoji(shortcode: Seq<char>) -> Option<Seq<char>>;

/// `emojis::get_by_shortcode(shortcode)` and `Emoji::as_str`: looks the
/// shortcode up in the crate's fixed table. The contract says only that the
/// result is the table's entry for this shortcode (`shortcode_emoji`).
#[verifier::external_body]
fn lookup_shortcode(shortcode: &str) -> (r: Option<String>)
    ensures
        text::string_opt(r) == shortcode_emoji(shortcode@),
{
    emojis::get_by_shortcode(shortcode).map(emojis::Emoji::as_str).map(str::to_owned)
}

/// Index of the first `::` in `s`, or `s.len()`.
pub open spec fn double_colon_at(s: Seq<char>) -> nat
    decreases s.len(),
{
    if s.len() < 2 {
        s.len()
    } else if s[0] == ':' && s[1] == ':' {
        0
    } else {
        1 + double_colon_at(s.drop_first())
    }
}

/// `name.split("::").next()`: the name without a skin-tone suffix.
pub open spec fn base_name(s: Seq<char>) -> Seq<char> {
    s.take(double_colon_at(s) as int)
}

/// The glyph shown for an emoji name, given what the shortcode table holds
/// for its base name: that glyph, else `:name:`.
pub open spec fn glyph_from(name: Seq<char>, found: Option<Seq<char>>) -> Seq<char> {
    match found {
        Some(g) => g,
        None => seq![':'] + name + seq![':'],
    }
}

/// The glyph of an emoji name according to the shortcode table.
pub open spec fn glyph_spec(name: Seq<char>) -> Seq<char> {
    glyph_from(name, shortcode_emoji(base_name(name)))
}

proof fn lemma_double_colon(s: Seq<char>, i: int)
    requires
        0 <= i <= s.len(),
        forall|k: int| 0 <= k < i && k + 1 < s.len() ==> !(#[trigger] s[k] == ':' && s[k + 1] == ':'),
        i == s.len() || (i + 1 < s.len() && s[i] == ':' && s[i + 1] == ':'),
    ensures
        double_colon_at(s) == i,
    decreases s.len(),
{
    if s.len() >= 2 && i > 0 {
        assert(!(s[0] == ':' && s[1] == ':'));
        assert forall|k: int| 0 <= k < i - 1 && k + 1 < s.drop_first().len() implies !(
        #[trigger] s.drop_first()[k] == ':' && s.drop_first()[k + 1] == ':') by {
            assert(s.drop_first()[k] == s[k + 1]);
            assert(s.drop_first()[k + 1] == s[k + 2]);
        }
        lemma_double_colon(s.drop_first(), i - 1);
    }
}

/// `name.split("::").next()`.
pub fn base_of(name: &str) -> (r: &str)
    ensures
        r@ == base_name(name@),
{
    let v = text::to_chars(name);
    let n = v.len();
    if n < 2 {
        assert(v@.take(n as int) =~= v@);
        return name;
    }
    let mut i: usize = 0;
    while i + 1 < n && !(v[i] == ':' && v[i + 1] == ':')
        invariant
            n == v@.len(),
            n >= 2,
            i + 1 <= n,
            forall|k: int| 0 <= k < i && k + 1 < n ==> !(#[trigger] v@[k] == ':' && v@[k + 1] == ':'),
        decreases n - i,
    {
        i = i + 1;
    }
    if i + 1 == n {
        proof {
            lemma_double_colon(v@, n as int);
        }
        assert(v@.take(n as int) =~= v@);
        return name;
    }
    proof {
        lemma_double_colon(v@, i as int);
    }
    name.substring_char(0, i)
}

/// Builds the shown glyph from the shortcode table's answer.
pub fn glyph_from_lookup(name: &str, found: Option<String>) -> (r: String)
    ensures
        r@ == glyph_from(name@, text::string_opt(found)),
{
    match found {
        Some(g) => g,
        None => {
            let mut s = String::new();
            text::push_char(&mut s, ':');
            text::push_str(&mut s, name);
            text::push_char(&mut s, ':');
            assert(s@ =~= seq![':'] + name@ + seq![':']);
            s
        },
    }
}

/// Maps a Slack emoji name to its unicode glyph, falling back to `:name:`
/// for custom/unknown emoji. Skin-tone suffixes such as
/// `thumbsup::skin-tone-3` resolve by their base name.
pub fn emoji_glyph(name: &str) -> (r: String)
    ensures
        r@ == glyph_spec(name@),
{
    let base = base_of(name);
    glyph_from_lookup(name, lookup_shortcode(base))
}

/// Is this a standard (non-custom) emoji name?
pub fn is_standard_emoji(name: &str) -> (r: bool)
    ensures
        r == shortcode_emoji(base_name(name@)) is Some,
{
    lookup_shortcode(base_of(name)).is_some()
}

/// The text shown for a token list: texts as they are, emoji as glyphs.
pub open spec fn display_spec(s: Seq<TokenModel>) -> Seq<char>
    decreases s.len(),
{
    if s.len() == 0 {
        Seq::empty()
    } else {
        display_spec(s.drop_last()) + match s.last() {
            TokenModel::Text(t) => t,
            TokenModel::Emoji(n) => glyph_spec(n),
        }
    }
}

/// Message text with standard shortcodes replaced by their glyphs.
pub fn emoji_text_to_display(text: &str) -> (r: String)
    ensures
        r@ == display_spec(tokens_spec(text@)),
{
    let tokens = emoji_text_tokens(text);
    let mut out = String::new();
    for i in 0..tokens.len()
        invariant
            out@ == display_spec(tokens_view(tokens@).take(i as int)),
    {
        assert(tokens_view(tokens@).take(i + 1).drop_last() =~= tokens_view(tokens@).take(i as int));
        match &tokens[i] {
            EmojiTextToken::Text(t) => text::push_str(&mut out, t.as_str()),
            EmojiTextToken::Emoji(n) => {
                let g = emoji_glyph(n.as_str());
                text::push_str(&mut out, g.as_str());
            },
        }
    }
    assert(tokens_view(tokens@).take(tokens.len() as int) =~= tokens_view(tokens@));
    out
}

/// `team:name`, the cache key of a custom emoji image.
pub fn emoji_preview_key(team: &str, name: &str) -> (r: String)
    ensures
        r@ == team@ + seq![':'] + name@,
{
    let mut s = text::owned(team);
    text::push_char(&mut s, ':');
    text::push_str(&mut s, name);
    s
}

/// `👍 3`: a reaction's glyph and its count (at least 1).
pub fn reaction_summary(reaction: &crate::models::Reaction) -> (r: String)
    ensures
        r@ == glyph_spec(reaction.name@) + seq![' '] + text::decimal(
            if reaction.count == 0 {
                1
            } else {
                reaction.count as nat
            },
        ),
{
    let mut s = emoji_glyph(reaction.name.as_str());
    text::push_char(&mut s, ' ');
    let count: u32 = if reaction.count == 0 {
        1
    } else {
        reaction.count
    };
    text::push_decimal(&mut s, count as u64);
    s
}

/// Calls `visit` with each shortcode name of a text, in order, scanning for
/// `:name:` as `emoji_names_in_text` does.
pub fn visit_emoji_names_in_text<F: FnMut(&str)>(text: &str, visit: F)
    requires
        forall|s: &str| call_requires(visit, (s,)),
{
    let names = emoji_names_in_text(text);
    let mut visit = visit;
    for i in 0..names.len()
        invariant
            forall|s: &str| call_requires(visit, (s,)),
    {
        visit(names[i].as_str());
    }
}

} // verus!
