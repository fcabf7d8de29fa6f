//! Uploaded files: titles, summaries, download names, kinds and URLs.

use vstd::prelude::*;

use crate::labels::first_ne;
use crate::models::{File, lookup_str};
use crate::text;

verus! {

broadcast use vstd::string::group_string_axioms;

// ---------------------------------------------------------------------------
// Models
// ---------------------------------------------------------------------------

/// Index of the last `c` in `s`, or -1.
pub open spec fn last_index_of(s: Seq<char>, c: char) -> int
    decreases s.len(),
{
    if s.len() == 0 {
        -1
    } else if s.last() == c {
        s.len() - 1
    } else {
        last_index_of(s.drop_last(), c)
    }
}

/// `s.rsplit_once(c).map(|(_, after)| after)`.
pub open spec fn after_last(s: Seq<char>, c: char) -> Option<Seq<char>> {
    let i = last_index_of(s, c);
    if i < 0 {
        None
    } else {
        Some(s.subrange(i + 1, s.len() as int))
    }
}

/// `s.rsplit_once(c).map(|(before, _)| before)`.
pub open spec fn before_last(s: Seq<char>, c: char) -> Option<Seq<char>> {
    let i = last_index_of(s, c);
    if i < 0 {
        None
    } else {
        Some(s.subrange(0, i))
    }
}

/// A file's extension: its non-blank file type, else the text after the
/// last `.` of its trimmed name.
pub open spec fn extension(f: File) -> Option<Seq<char>> {
    if text::ne(f.filetype) is Some {
        text::ne(f.filetype)
    } else {
        match text::ne(f.name) {
            Some(n) => after_last(n, '.'),
            None => None,
        }
    }
}

pub open spec fn in_list(x: Seq<char>, list: Seq<Seq<char>>) -> bool {
    exists|i: int| 0 <= i < list.len() && list[i] == x
}

pub open spec fn image_extensions() -> Seq<Seq<char>> {
    seq![
        "avif"@,
        "bmp"@,
        "gif"@,
        "heic"@,
        "heif"@,
        "jpeg"@,
        "jpg"@,
        "png"@,
        "tif"@,
        "tiff"@,
        "webp"@,
    ]
}

pub open spec fn video_extensions() -> Seq<Seq<char>> {
    seq!["avi"@, "m4v"@, "mkv"@, "mov"@, "mp4"@, "webm"@]
}

/// The MIME type names an image (or video) in its top-level type.
pub open spec fn mime_starts(f: File, prefix: Seq<char>) -> bool {
    match text::ne(f.mimetype) {
        Some(m) => text::starts_with(m, prefix),
        None => false,
    }
}

pub open spec fn is_image_file_spec(f: File) -> bool {
    mime_starts(f, "image/"@) || match extension(f) {
        Some(e) => in_list(text::lower_spec(e), image_extensions()),
        None => false,
    }
}

pub open spec fn is_video_file_spec(f: File) -> bool {
    mime_starts(f, "video/"@) || match extension(f) {
        Some(e) => in_list(text::lower_spec(e), video_extensions()),
        None => false,
    }
}

/// HEIC/HEIF originals cannot be shown by the viewer.
pub open spec fn viewer_decodable_spec(f: File) -> bool {
    let kind_heif = match extension(f) {
        Some(e) => text::lower_spec(e) == "heic"@ || text::lower_spec(e) == "heif"@,
        None => false,
    };
    let mime_heif = text::ne(f.mimetype) == Some("image/heic"@) || text::ne(f.mimetype) == Some(
        "image/heif"@,
    );
    !kind_heif && !mime_heif
}

/// A string extra field of the file, non-blank and trimmed.
pub open spec fn extra_url(f: File, key: Seq<char>) -> Option<Seq<char>> {
    text::non_empty_spec(lookup_str(f.extra@, key))
}

pub open spec fn large_thumb(f: File) -> Option<Seq<char>> {
    if extra_url(f, "thumb_1024"@) is Some {
        extra_url(f, "thumb_1024"@)
    } else if extra_url(f, "thumb_960"@) is Some {
        extra_url(f, "thumb_960"@)
    } else if extra_url(f, "thumb_800"@) is Some {
        extra_url(f, "thumb_800"@)
    } else if extra_url(f, "thumb_720"@) is Some {
        extra_url(f, "thumb_720"@)
    } else {
        extra_url(f, "thumb_480"@)
    }
}

pub open spec fn or_opt(a: Option<Seq<char>>, b: Option<Seq<char>>) -> Option<Seq<char>> {
    if a is Some {
        a
    } else {
        b
    }
}

/// The preview image: for videos the video thumbnail first, else the
/// largest thumbnail first; then the fixed-size thumbnails.
pub open spec fn file_preview_url_spec(f: File) -> Option<Seq<char>> {
    let video = extra_url(f, "thumb_video"@);
    let first = if is_video_file_spec(f) {
        or_opt(video, large_thumb(f))
    } else {
        or_opt(large_thumb(f), video)
    };
    or_opt(first, first_ne(seq![f.thumb_360, f.thumb_160, f.thumb_80, f.thumb_64]))
}

// ---------------------------------------------------------------------------
// Lemmas
// ---------------------------------------------------------------------------

proof fn lemma_last_index_of(s: Seq<char>, c: char, i: int)
    requires
        -1 <= i < s.len(),
        forall|k: int| i < k < s.len() ==> #[trigger] s[k] != c,
        i == -1 || s[i] == c,
    ensures
        last_index_of(s, c) == i,
    decreases s.len(),
{
    if s.len() > 0 && i < s.len() - 1 {
        assert(s.last() != c);
        assert forall|k: int| i < k < s.drop_last().len() implies #[trigger] s.drop_last()[k] != c by {
            assert(s.drop_last()[k] == s[k]);
        }
        lemma_last_index_of(s.drop_last(), c, i);
    }
}

pub proof fn lemma_last_index_of_pub(s: Seq<char>, c: char, i: int)
    requires
        -1 <= i < s.len(),
        forall|k: int| i < k < s.len() ==> #[trigger] s[k] != c,
        i == -1 || s[i] == c,
    ensures
        last_index_of(s, c) == i,
{
    lemma_last_index_of(s, c, i);
}

// ---------------------------------------------------------------------------
// Executable helpers
// ---------------------------------------------------------------------------

/// `s.rsplit_once(c)`: the parts before and after the last `c`.
pub fn rsplit_once(s: &str, c: char) -> (r: Option<(&str, &str)>)
    ensures
        match r {
            Some((a, b)) => before_last(s@, c) == Some(a@) && after_last(s@, c) == Some(b@),
            None => last_index_of(s@, c) < 0,
        },
{
    let v = text::to_chars(s);
    let n = v.len();
    let mut i: usize = n;
    while i > 0 && v[i - 1] != c
        invariant
            i <= n,
            n == v@.len(),
            forall|k: int| i <= k < n ==> #[trigger] v@[k] != c,
        decreases i,
    {
        i = i - 1;
    }
    proof {
        lemma_last_index_of(v@, c, i - 1);
    }
    if i == 0 {
        return None;
    }
    Some((s.substring_char(0, i - 1), s.substring_char(i, n)))
}

/// Is `x` one of the strings of `list`?
fn one_of(x: &[char], list: &[&str]) -> (r: bool)
    ensures
        r == in_list(x@, list@.map_values(|t: &str| t@)),
{
    let ghost l = list@.map_values(|t: &str| t@);
    let mut i: usize = 0;
    while i < list.len()
        invariant
            i <= list@.len(),
            l == list@.map_values(|t: &str| t@),
            forall|k: int| 0 <= k < i ==> l[k] != x@,
        decreases list.len() - i,
    {
        let t = text::to_chars(list[i]);
        if text::chars_eq(x, t.as_slice()) {
            assert(l[i as int] == x@);
            return true;
        }
        i = i + 1;
    }
    false
}

pub fn extension_of(file: &File) -> (r: Option<&str>)
    ensures
        text::str_opt(r) == extension(*file),
{
    if let Some(ft) = text::ne_field(&file.filetype) {
        return Some(ft);
    }
    match text::ne_field(&file.name) {
        Some(n) => match rsplit_once(n, '.') {
            Some((_, ext)) => Some(ext),
            None => None,
        },
        None => None,
    }
}

fn mime_has_prefix(file: &File, prefix: &str) -> (r: bool)
    ensures
        r == (match text::ne(file.mimetype) {
            Some(m) => text::starts_with(m, prefix@),
            None => false,
        }),
{
    match text::ne_field(&file.mimetype) {
        Some(m) => text::str_starts_with(m, prefix),
        None => false,
    }
}

fn lowered_extension_in(file: &File, list: &[&str]) -> (r: bool)
    ensures
        r == (match extension(*file) {
            Some(e) => in_list(text::lower_spec(e), list@.map_values(|t: &str| t@)),
            None => false,
        }),
{
    match extension_of(file) {
        Some(e) => {
            let chars = text::to_chars(e);
            let lower = text::lower_chars(chars.as_slice());
            one_of(lower.as_slice(), list)
        },
        None => false,
    }
}

/// Images are recognised by MIME type or by extension.
pub fn is_image_file(file: &File) -> (r: bool)
    ensures
        r == is_image_file_spec(*file),
{
    if mime_has_prefix(file, "image/") {
        return true;
    }
    let list = ["avif", "bmp", "gif", "heic", "heif", "jpeg", "jpg", "png", "tif", "tiff", "webp"];
    let r = lowered_extension_in(file, &list);
    assert(list@.map_values(|t: &str| t@) =~= image_extensions());
    r
}

/// Videos are recognised by MIME type or by extension.
pub fn is_video_file(file: &File) -> (r: bool)
    ensures
        r == is_video_file_spec(*file),
{
    if mime_has_prefix(file, "video/") {
        return true;
    }
    let list = ["avi", "m4v", "mkv", "mov", "mp4", "webm"];
    let r = lowered_extension_in(file, &list);
    assert(list@.map_values(|t: &str| t@) =~= video_extensions());
    r
}

/// Whether the original upload can be decoded by the image viewer.
pub fn file_original_is_viewer_decodable(file: &File) -> (r: bool)
    ensures
        r == viewer_decodable_spec(*file),
{
    let kind_heif = match extension_of(file) {
        Some(e) => {
            let chars = text::to_chars(e);
            let lower = text::lower_chars(chars.as_slice());
            let heic = text::to_chars("heic");
            let heif = text::to_chars("heif");
            text::chars_eq(lower.as_slice(), heic.as_slice()) || text::chars_eq(
                lower.as_slice(),
                heif.as_slice(),
            )
        },
        None => false,
    };
    let mime_heif = match text::ne_field(&file.mimetype) {
        Some(m) => text::str_eq(m, "image/heic") || text::str_eq(m, "image/heif"),
        None => false,
    };
    !kind_heif && !mime_heif
}

/// A non-blank string extra field, trimmed.
pub fn extra_url_of<'a>(file: &'a File, key: &str) -> (r: Option<&'a str>)
    ensures
        text::str_opt(r) == extra_url(*file, key@),
{
    text::non_empty(crate::models::get_str(&file.extra, key))
}

fn large_thumb_of(file: &File) -> (r: Option<&str>)
    ensures
        text::str_opt(r) == large_thumb(*file),
{
    if let Some(u) = extra_url_of(file, "thumb_1024") {
        return Some(u);
    }
    if let Some(u) = extra_url_of(file, "thumb_960") {
        return Some(u);
    }
    if let Some(u) = extra_url_of(file, "thumb_800") {
        return Some(u);
    }
    if let Some(u) = extra_url_of(file, "thumb_720") {
        return Some(u);
    }
    extra_url_of(file, "thumb_480")
}

/// The best preview image of a file.
pub fn file_preview_url(file: &File) -> (r: Option<&str>)
    ensures
        text::str_opt(r) == file_preview_url_spec(*file),
{
    proof {
        crate::labels::lemma_first_ne4(file.thumb_360, file.thumb_160, file.thumb_80, file.thumb_64);
    }
    let video = extra_url_of(file, "thumb_video");
    let large = large_thumb_of(file);
    let first = if is_video_file(file) {
        match video {
            Some(v) => Some(v),
            None => large,
        }
    } else {
        match large {
            Some(l) => Some(l),
            None => video,
        }
    };
    if first.is_some() {
        return first;
    }
    if let Some(u) = text::ne_field(&file.thumb_360) {
        return Some(u);
    }
    if let Some(u) = text::ne_field(&file.thumb_160) {
        return Some(u);
    }
    if let Some(u) = text::ne_field(&file.thumb_80) {
        return Some(u);
    }
    text::ne_field(&file.thumb_64)
}

/// What the image viewer opens: a raster preview for HEIC/HEIF images, the
/// `mp4` rendition for videos, else the original.
pub open spec fn file_viewer_url_spec(f: File) -> Option<Seq<char>> {
    let original = text::ne(f.url_private);
    if is_image_file_spec(f) && !viewer_decodable_spec(f) {
        or_opt(file_preview_url_spec(f), original)
    } else if is_video_file_spec(f) {
        or_opt(extra_url(f, "mp4"@), original)
    } else {
        original
    }
}

pub fn file_viewer_url(file: &File) -> (r: Option<&str>)
    ensures
        text::str_opt(r) == file_viewer_url_spec(*file),
{
    let original = text::ne_field(&file.url_private);
    if is_image_file(file) && !file_original_is_viewer_decodable(file) {
        match file_preview_url(file) {
            Some(u) => Some(u),
            None => original,
        }
    } else if is_video_file(file) {
        match extra_url_of(file, "mp4") {
            Some(u) => Some(u),
            None => original,
        }
    } else {
        original
    }
}

/// The download URL: `url_private_download`, else the private URL.
pub fn file_download_url(file: &File) -> (r: Option<&str>)
    ensures
        text::str_opt(r) == or_opt(extra_url(*file, "url_private_download"@), text::ne(file.url_private)),
{
    match extra_url_of(file, "url_private_download") {
        Some(u) => Some(u),
        None => text::ne_field(&file.url_private),
    }
}

/// A file's heading: its title, name or id, else "file".
pub fn file_title(file: &File) -> (r: String)
    ensures
        r@ == match first_ne(seq![file.title, file.name, file.id]) {
            Some(t) => t,
            None => "file"@,
        },
{
    proof {
        crate::labels::lemma_first_ne3(file.title, file.name, file.id);
    }
    if let Some(t) = text::ne_field(&file.title) {
        return text::owned(t);
    }
    if let Some(t) = text::ne_field(&file.name) {
        return text::owned(t);
    }
    if let Some(t) = text::ne_field(&file.id) {
        return text::owned(t);
    }
    text::owned("file")
}

/// The cache key of a file's preview: its id, else its preview URL.
pub fn file_preview_key_ref(file: &File) -> (r: Option<&str>)
    ensures
        text::str_opt(r) == or_opt(text::ne(file.id), file_preview_url_spec(*file)),
{
    match text::ne_field(&file.id) {
        Some(id) => Some(id),
        None => file_preview_url(file),
    }
}

pub fn file_preview_key(file: &File) -> (r: Option<String>)
    ensures
        text::string_opt(r) == or_opt(text::ne(file.id), file_preview_url_spec(*file)),
{
    match file_preview_key_ref(file) {
        Some(k) => Some(text::owned(k)),
        None => None,
    }
}

/// The first of `user`, `user_id`, `uploader` that holds a string, when
/// that string is not blank.
pub open spec fn uploader_spec(f: File) -> Option<Seq<char>> {
    let a = lookup_str(f.extra@, "user"@);
    let b = lookup_str(f.extra@, "user_id"@);
    let c = lookup_str(f.extra@, "uploader"@);
    text::non_empty_spec(
        if a is Some {
            a
        } else if b is Some {
            b
        } else {
            c
        },
    )
}

pub fn file_uploader_id(file: &File) -> (r: Option<&str>)
    ensures
        text::str_opt(r) == uploader_spec(*file),
{
    let found = match crate::models::get_str(&file.extra, "user") {
        Some(u) => Some(u),
        None => match crate::models::get_str(&file.extra, "user_id") {
            Some(u) => Some(u),
            None => crate::models::get_str(&file.extra, "uploader"),
        },
    };
    text::non_empty(found)
}

/// Characters that cannot appear in a file name on common file systems.
pub open spec fn bad_file_char(c: char) -> bool {
    (c as u32) < 0x20 || (c as u32) == 0x7f || c == '/' || c == '\\' || c == ':' || c == '*'
        || c == '?' || c == '"' || c == '<' || c == '>' || c == '|'
}

pub open spec fn sanitized_chars(s: Seq<char>) -> Seq<char> {
    s.map_values(|c: char| if bad_file_char(c) { '_' } else { c })
}

pub open spec fn is_space_or_dot(c: char) -> bool {
    c == ' ' || c == '.'
}

/// `s` without leading and trailing spaces and dots.
pub open spec fn trim_space_dot(s: Seq<char>) -> Seq<char> {
    let lo = text::first_where(s, |c: char| !is_space_or_dot(c));
    if lo == s.len() {
        Seq::empty()
    } else {
        s.subrange(lo as int, s.len() - trail_space_dot(s))
    }
}

pub open spec fn trail_space_dot(s: Seq<char>) -> nat
    decreases s.len(),
{
    if s.len() == 0 {
        0
    } else if is_space_or_dot(s.last()) {
        1 + trail_space_dot(s.drop_last())
    } else {
        0
    }
}

/// Unsafe characters replaced by `_`, outer spaces and dots removed;
/// "download" when nothing is left.
pub open spec fn sanitize_spec(s: Seq<char>) -> Seq<char> {
    let t = trim_space_dot(sanitized_chars(s));
    if t.len() == 0 {
        "download"@
    } else {
        t
    }
}

proof fn lemma_trail_space_dot(s: Seq<char>, j: int)
    requires
        0 <= j <= s.len(),
        forall|k: int| j <= k < s.len() ==> is_space_or_dot(#[trigger] s[k]),
        j == 0 || !is_space_or_dot(s[j - 1]),
    ensures
        trail_space_dot(s) == s.len() - j,
    decreases s.len(),
{
    if s.len() > 0 && j < s.len() {
        assert(is_space_or_dot(s[s.len() - 1]));
        assert forall|k: int| j <= k < s.drop_last().len() implies is_space_or_dot(#[trigger] s.drop_last()[k]) by {
            assert(s.drop_last()[k] == s[k]);
        }
        lemma_trail_space_dot(s.drop_last(), j);
    }
}

pub fn sanitize_file_name(name: &str) -> (r: String)
    ensures
        r@ == sanitize_spec(name@),
{
    let v = text::to_chars(name);
    let mut m: Vec<char> = Vec::new();
    for i in 0..v.len()
        invariant
            m@ == sanitized_chars(v@.take(i as int)),
    {
        let c = v[i];
        let code = c as u32;
        let bad = code < 0x20 || code == 0x7f || c == '/' || c == '\\' || c == ':' || c == '*' || c
            == '?' || c == '"' || c == '<' || c == '>' || c == '|';
        m.push(if bad { '_' } else { c });
        assert(m@ =~= sanitized_chars(v@.take(i + 1)));
    }
    assert(v@.take(v.len() as int) =~= v@);
    let n = m.len();
    let mut i: usize = 0;
    while i < n && (m[i] == ' ' || m[i] == '.')
        invariant
            i <= n,
            n == m@.len(),
            forall|k: int| 0 <= k < i ==> is_space_or_dot(#[trigger] m@[k]),
        decreases n - i,
    {
        i = i + 1;
    }
    proof {
        text::lemma_first_where(m@, |c: char| !is_space_or_dot(c), i as int);
    }
    if i == n {
        return text::owned("download");
    }
    let mut j: usize = n;
    while j > i && (m[j - 1] == ' ' || m[j - 1] == '.')
        invariant
            i < n,
            i <= j <= n,
            n == m@.len(),
            !is_space_or_dot(m@[i as int]),
            forall|k: int| j <= k < n ==> is_space_or_dot(#[trigger] m@[k]),
        decreases j,
    {
        j = j - 1;
    }
    proof {
        lemma_trail_space_dot(m@, j as int);
    }
    text::from_chars(&m.as_slice()[i..j])
}

/// The name a download is saved under.
pub fn file_download_name(file: &File) -> (r: String)
    ensures
        r@ == sanitize_spec(
            match first_ne(seq![file.name, file.title, file.id]) {
                Some(t) => t,
                None => "download"@,
            },
        ),
{
    proof {
        crate::labels::lemma_first_ne3(file.name, file.title, file.id);
    }
    if let Some(t) = text::ne_field(&file.name) {
        return sanitize_file_name(t);
    }
    if let Some(t) = text::ne_field(&file.title) {
        return sanitize_file_name(t);
    }
    if let Some(t) = text::ne_field(&file.id) {
        return sanitize_file_name(t);
    }
    sanitize_file_name("download")
}

/// "PDF - 1.5 MB": the file's kind and size, or "attachment".
pub open spec fn file_summary_spec(f: File) -> Seq<char> {
    let kind = first_ne(seq![f.pretty_type, f.filetype, f.mimetype]);
    match (kind, f.size) {
        (Some(k), Some(b)) => k + " - "@ + crate::size::file_size_text(b as nat),
        (Some(k), None) => k,
        (None, Some(b)) => crate::size::file_size_text(b as nat),
        (None, None) => "attachment"@,
    }
}

pub fn file_summary(file: &File) -> (r: String)
    ensures
        r@ == file_summary_spec(*file),
{
    proof {
        crate::labels::lemma_first_ne3(file.pretty_type, file.filetype, file.mimetype);
    }
    let kind = if let Some(k) = text::ne_field(&file.pretty_type) {
        Some(k)
    } else if let Some(k) = text::ne_field(&file.filetype) {
        Some(k)
    } else {
        text::ne_field(&file.mimetype)
    };
    match (kind, file.size) {
        (Some(k), Some(b)) => {
            let mut s = text::owned(k);
            text::push_str(&mut s, " - ");
            let size = crate::size::format_file_size(b);
            text::push_str(&mut s, size.as_str());
            s
        },
        (Some(k), None) => text::owned(k),
        (None, Some(b)) => crate::size::format_file_size(b),
        (None, None) => text::owned("attachment"),
    }
}

/// Which viewer opens a file.
#[derive(Debug, Clone, Copy, PartialEq, Eq, Structural)]
pub enum MediaKind {
    Video,
    Image,
}

/// The viewer of a file: video first, then image; none for other files.
pub fn media_kind(file: &File) -> (r: Option<MediaKind>)
    ensures
        r == (if is_video_file_spec(*file) {
            Some(MediaKind::Video)
        } else if is_image_file_spec(*file) {
            Some(MediaKind::Image)
        } else {
            None
        }),
{
    if is_video_file(file) {
        Some(MediaKind::Video)
    } else if is_image_file(file) {
        Some(MediaKind::Image)
    } else {
        None
    }
}

/// How a file or image URL is fetched: with the Slack session, or openly.
#[derive(Debug, Clone, Copy, PartialEq, Eq, Structural)]
pub enum FetchAuth {
    Slack,
    Public,
}

/// Slack's own file hosts need the session; other hosts are fetched openly.
pub fn fetch_auth(url: &str) -> (r: FetchAuth)
    ensures
        r == (if crate::urls::is_slack_authenticated_url_spec(url@) {
            FetchAuth::Slack
        } else {
            FetchAuth::Public
        }),
{
    if crate::urls::is_slack_authenticated_url(url) {
        FetchAuth::Slack
    } else {
        FetchAuth::Public
    }
}

/// The name a file's row shows: its file name when not blank, else its title.
pub fn row_title(file: &File) -> (r: String)
    ensures
        r@ == match text::ne(file.name) {
            Some(n) => n,
            None => match first_ne(seq![file.title, file.name, file.id]) {
                Some(t) => t,
                None => "file"@,
            },
        },
{
    match text::ne_field(&file.name) {
        Some(n) => text::owned(n),
        None => file_title(file),
    }
}

} // verus!
