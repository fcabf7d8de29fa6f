//! Images carried by message attachments (link unfurls, GIF pickers).

use vstd::prelude::*;

use crate::files::{or_opt, sanitize_spec};
use crate::models::{Attachment, JsonScalar, field_str, lookup_field, scalars};
use crate::text;
use crate::urls::{before_first, query_end, after_last_or_all, is_gif_url_spec};

verus! {

broadcast use vstd::string::group_string_axioms;

/// An image of an attachment.
#[derive(Debug, Clone, Copy, PartialEq, Eq)]
pub struct AttachmentImage<'a> {
    pub preview_url: &'a str,
    pub full_url: &'a str,
    pub width: Option<u32>,
    pub height: Option<u32>,
    pub animated: bool,
    pub alt_text: Option<&'a str>,
}

/// Model of an `AttachmentImage`.
pub struct ImageModel {
    pub preview_url: Seq<char>,
    pub full_url: Seq<char>,
    pub width: Option<u32>,
    pub height: Option<u32>,
    pub animated: bool,
    pub alt_text: Option<Seq<char>>,
}

impl<'a> View for AttachmentImage<'a> {
    type V = ImageModel;

    open spec fn view(&self) -> ImageModel {
        ImageModel {
            preview_url: self.preview_url@,
            full_url: self.full_url@,
            width: self.width,
            height: self.height,
            animated: self.animated,
            alt_text: text::str_opt(self.alt_text),
        }
    }
}

pub open spec fn images_view(s: Seq<AttachmentImage>) -> Seq<ImageModel> {
    s.map_values(|i: AttachmentImage| i@)
}

// ---------------------------------------------------------------------------
// Model
// ---------------------------------------------------------------------------

/// The top-level preview: the thumbnail, else the image.
pub open spec fn top_preview(att: Attachment) -> Option<Seq<char>> {
    or_opt(text::ne(att.thumb_url), text::ne(att.image_url))
}

/// The top-level full image: the image, else the thumbnail.
pub open spec fn top_full(att: Attachment) -> Option<Seq<char>> {
    or_opt(text::ne(att.image_url), top_preview(att))
}

pub open spec fn top_image(att: Attachment) -> Option<ImageModel> {
    match (top_preview(att), top_full(att)) {
        (Some(p), Some(f)) => Some(
            ImageModel {
                preview_url: p,
                full_url: f,
                width: None,
                height: None,
                animated: is_gif_url_spec(f),
                alt_text: text::ne(att.title),
            },
        ),
        _ => None,
    }
}

/// A positive pixel size that fits in `u32`.
pub open spec fn dimension(fields: Seq<(String, JsonScalar)>, key: Seq<char>) -> Option<u32> {
    match lookup_field(fields, key) {
        Some(JsonScalar::Number(Some(n))) => if 0 < n && n <= u32::MAX {
            Some(n as u32)
        } else {
            None
        },
        _ => None,
    }
}

/// Some block before index `k` names the image URL `u`.
pub open spec fn earlier_block_has(att: Attachment, k: int, u: Seq<char>) -> bool {
    exists|j: int| 0 <= j < k && field_str(#[trigger] scalars(att.blocks@[j].members@), "image_url"@) == Some(u)
}

/// The image of the `k`-th block: an `image` block with a URL that neither
/// the top-level image nor an earlier block already shows.
pub open spec fn block_image(att: Attachment, k: int) -> Option<ImageModel> {
    let b = scalars(att.blocks@[k].members@);
    if field_str(b, "type"@) != Some("image"@) {
        None
    } else {
        match text::non_empty_spec(field_str(b, "image_url"@)) {
            None => None,
            Some(u) => if top_preview(att) == Some(u) || top_full(att) == Some(u)
                || earlier_block_has(att, k, u) {
                None
            } else {
                Some(
                    ImageModel {
                        preview_url: u,
                        full_url: u,
                        width: dimension(b, "image_width"@),
                        height: dimension(b, "image_height"@),
                        animated: match lookup_field(b, "is_animated"@) {
                            Some(JsonScalar::Bool(x)) => x,
                            _ => is_gif_url_spec(u),
                        },
                        alt_text: text::non_empty_spec(field_str(b, "alt_text"@)),
                    },
                )
            },
        }
    }
}

/// The images of the first `n` blocks.
pub open spec fn block_images(att: Attachment, n: int) -> Seq<ImageModel>
    decreases n,
{
    if n <= 0 {
        Seq::empty()
    } else {
        match block_image(att, n - 1) {
            Some(i) => block_images(att, n - 1).push(i),
            None => block_images(att, n - 1),
        }
    }
}

/// All images of an attachment: the top-level one, then the block images.
pub open spec fn images_spec(att: Attachment) -> Seq<ImageModel> {
    let top = match top_image(att) {
        Some(i) => seq![i],
        None => Seq::empty(),
    };
    top + block_images(att, att.blocks@.len() as int)
}

// ---------------------------------------------------------------------------
// Code
// ---------------------------------------------------------------------------

fn dimension_of(fields: &crate::models::JsonMap, key: &str) -> (r: Option<u32>)
    ensures
        r == dimension(scalars(fields@), key@),
{
    match crate::models::get_field(fields, key) {
        Some(JsonScalar::Number(Some(n))) => {
            if 0 < *n && *n <= 0xffff_ffff {
                Some(*n as u32)
            } else {
                None
            }
        },
        _ => None,
    }
}

fn earlier_has(att: &Attachment, k: usize, u: &str) -> (r: bool)
    requires
        k <= att.blocks@.len(),
    ensures
        r == earlier_block_has(*att, k as int, u@),
{
    let mut j: usize = 0;
    while j < k
        invariant
            k <= att.blocks@.len(),
            j <= k,
            forall|i: int| 0 <= i < j ==> field_str(#[trigger] scalars(att.blocks@[i].members@), "image_url"@) != Some(u@),
        decreases k - j,
    {
        match crate::models::get_field_str(&att.blocks[j].members, "image_url") {
            Some(prev) => {
                if text::str_eq(prev, u) {
                    return true;
                }
            },
            None => {},
        }
        j = j + 1;
    }
    false
}

fn same_opt(a: Option<&str>, b: &str) -> (r: bool)
    ensures
        r == (text::str_opt(a) == Some(b@)),
{
    match a {
        Some(x) => text::str_eq(x, b),
        None => false,
    }
}

fn top_preview_of(att: &Attachment) -> (r: Option<&str>)
    ensures
        text::str_opt(r) == top_preview(*att),
{
    match text::ne_field(&att.thumb_url) {
        Some(t) => Some(t),
        None => text::ne_field(&att.image_url),
    }
}

fn top_full_of(att: &Attachment) -> (r: Option<&str>)
    ensures
        text::str_opt(r) == top_full(*att),
{
    match text::ne_field(&att.image_url) {
        Some(t) => Some(t),
        None => top_preview_of(att),
    }
}

/// The images of an attachment, top-level first.
pub fn attachment_images(att: &Attachment) -> (out: Vec<AttachmentImage<'_>>)
    ensures
        images_view(out@) == images_spec(*att),
{
    let preview = top_preview_of(att);
    let full = top_full_of(att);
    let mut out: Vec<AttachmentImage<'_>> = Vec::new();
    match (preview, full) {
        (Some(p), Some(f)) => {
            out.push(
                AttachmentImage {
                    preview_url: p,
                    full_url: f,
                    width: None,
                    height: None,
                    animated: crate::urls::is_gif_url(f),
                    alt_text: text::ne_field(&att.title),
                },
            );
        },
        _ => {},
    }
    let ghost top = images_view(out@);
    assert(top == match top_image(*att) {
        Some(i) => seq![i],
        None => Seq::<ImageModel>::empty(),
    });
    for k in 0..att.blocks.len()
        invariant
            images_view(out@) == top + block_images(*att, k as int),
            text::str_opt(preview) == top_preview(*att),
            text::str_opt(full) == top_full(*att),
    {
        let ghost before = images_view(out@);
        let b = &att.blocks[k].members;
        let is_image = match crate::models::get_field_str(b, "type") {
            Some(t) => text::str_eq(t, "image"),
            None => false,
        };
        assert(scalars(b@) == scalars(att.blocks@[k as int].members@));
        assert(is_image == (field_str(scalars(b@), "type"@) == Some("image"@)));
        assert(block_images(*att, k + 1) == match block_image(*att, k as int) {
            Some(i) => block_images(*att, k as int).push(i),
            None => block_images(*att, k as int),
        });
        if !is_image {
            assert(block_image(*att, k as int) is None);
        }
        if is_image {
            match text::non_empty(crate::models::get_field_str(b, "image_url")) {
                Some(u) => {
                    if !(same_opt(preview, u) || same_opt(full, u) || earlier_has(att, k, u)) {
                        let animated = match crate::models::get_field(b, "is_animated") {
                            Some(JsonScalar::Bool(x)) => *x,
                            _ => crate::urls::is_gif_url(u),
                        };
                        let img = AttachmentImage {
                            preview_url: u,
                            full_url: u,
                            width: dimension_of(b, "image_width"),
                            height: dimension_of(b, "image_height"),
                            animated,
                            alt_text: text::non_empty(crate::models::get_field_str(b, "alt_text")),
                        };
                        assert(block_image(*att, k as int) == Some(img@));
                        out.push(img);
                        assert(images_view(out@) =~= before.push(img@));
                    } else {
                        assert(block_image(*att, k as int) is None);
                    }
                },
                None => {
                    assert(block_image(*att, k as int) is None);
                },
            }
        }
        assert(images_view(out@) =~= top + block_images(*att, k + 1));
    }
    out
}

pub open spec fn first_preview(att: Attachment) -> Option<Seq<char>> {
    if images_spec(att).len() > 0 {
        Some(images_spec(att)[0].preview_url)
    } else {
        None
    }
}

pub open spec fn first_full(att: Attachment) -> Option<Seq<char>> {
    if images_spec(att).len() > 0 {
        Some(images_spec(att)[0].full_url)
    } else {
        None
    }
}

/// The preview of the attachment's first image.
pub fn attachment_preview_url(att: &Attachment) -> (r: Option<&str>)
    ensures
        text::str_opt(r) == first_preview(*att),
{
    let images = attachment_images(att);
    if images.len() > 0 {
        Some(images[0].preview_url)
    } else {
        None
    }
}

/// The full-size URL of the attachment's first image.
pub fn attachment_viewer_url(att: &Attachment) -> (r: Option<&str>)
    ensures
        text::str_opt(r) == first_full(*att),
{
    let images = attachment_images(att);
    if images.len() > 0 {
        Some(images[0].full_url)
    } else {
        None
    }
}

/// The last path segment of a URL, without query or fragment.
pub open spec fn url_file_name(u: Seq<char>) -> Seq<char> {
    after_last_or_all(before_first(u, query_end()), '/')
}

/// The name an attachment image is saved under: its title, else the file
/// name of its URL, else "image"; sanitized.
pub open spec fn attachment_download_name_spec(att: Attachment) -> Seq<char> {
    match text::ne(att.title) {
        Some(t) => sanitize_spec(t),
        None => {
            let from_url = match first_full(att) {
                Some(u) => text::non_empty_spec(Some(url_file_name(u))),
                None => None,
            };
            sanitize_spec(
                match from_url {
                    Some(n) => n,
                    None => "image"@,
                },
            )
        },
    }
}

pub fn attachment_download_name(att: &Attachment) -> (r: String)
    ensures
        r@ == attachment_download_name_spec(*att),
{
    if let Some(title) = text::ne_field(&att.title) {
        return crate::files::sanitize_file_name(title);
    }
    let from_url: Option<&str> = match attachment_viewer_url(att) {
        Some(u) => {
            let v = text::to_chars(u);
            let q = crate::urls::first_query_mark(v.as_slice());
            let cut = crate::urls::after_last_slash(&v.as_slice()[0..q]);
            let name = u.substring_char(cut, q);
            assert(name@ =~= url_file_name(u@));
            text::non_empty(Some(name))
        },
        None => None,
    };
    match from_url {
        Some(n) => crate::files::sanitize_file_name(n),
        None => crate::files::sanitize_file_name("image"),
    }
}

/// The text an attachment shows above its images, each piece trimmed and
/// left out when blank.
#[derive(Debug, Clone)]
pub struct AttachmentText {
    pub service: Option<String>,
    pub author: Option<String>,
    pub title: Option<String>,
    /// Where the title links to, when it does.
    pub title_link: Option<String>,
    pub body: Option<String>,
    /// One line per field: `title: value`, or whichever of the two is set.
    pub fields: Vec<String>,
}

/// The line of a field, if it has a title or a value.
pub open spec fn field_line_spec(title: Option<String>, value: Option<String>) -> Option<Seq<char>> {
    match (text::ne(title), text::ne(value)) {
        (Some(t), Some(v)) => Some(t + ": "@ + v),
        (Some(t), None) => Some(t),
        (None, Some(v)) => Some(v),
        (None, None) => None,
    }
}

/// The lines of the fields, in order, those with neither title nor value
/// left out.
pub open spec fn field_lines_spec(fields: Seq<crate::models::AttachmentField>) -> Seq<Seq<char>>
    decreases fields.len(),
{
    if fields.len() == 0 {
        Seq::empty()
    } else {
        let prev = field_lines_spec(fields.drop_last());
        match field_line_spec(fields.last().title, fields.last().value) {
            Some(l) => prev.push(l),
            None => prev,
        }
    }
}

fn field_line(title: &Option<String>, value: &Option<String>) -> (r: Option<String>)
    ensures
        text::string_opt(r) == field_line_spec(*title, *value),
{
    proof {
        reveal_strlit(": ");
    }
    match (text::ne_field(title), text::ne_field(value)) {
        (Some(t), Some(v)) => {
            let mut l = text::owned(t);
            text::push_str(&mut l, ": ");
            text::push_str(&mut l, v);
            Some(l)
        },
        (Some(t), None) => Some(text::owned(t)),
        (None, Some(v)) => Some(text::owned(v)),
        (None, None) => None,
    }
}

fn ne_owned(s: &Option<String>) -> (r: Option<String>)
    ensures
        text::string_opt(r) == text::ne(*s),
{
    match text::ne_field(s) {
        Some(t) => Some(text::owned(t)),
        None => None,
    }
}

/// The text of an attachment: service, author, title and its link, body and
/// field lines.
pub fn attachment_text(att: &Attachment) -> (r: AttachmentText)
    ensures
        text::string_opt(r.service) == text::ne(att.service_name),
        text::string_opt(r.author) == text::ne(att.author_name),
        text::string_opt(r.title) == text::ne(att.title),
        text::string_opt(r.title_link) == (if text::ne(att.title) is Some {
            text::ne(att.title_link)
        } else {
            None
        }),
        text::string_opt(r.body) == text::ne(att.text),
        crate::models::strings_view(r.fields@) == field_lines_spec(att.fields@),
{
    let title = ne_owned(&att.title);
    let title_link = if title.is_some() {
        ne_owned(&att.title_link)
    } else {
        None
    };
    let mut fields: Vec<String> = Vec::new();
    for i in 0..att.fields.len()
        invariant
            crate::models::strings_view(fields@) == field_lines_spec(att.fields@.take(i as int)),
    {
        assert(att.fields@.take(i + 1).drop_last() =~= att.fields@.take(i as int));
        match field_line(&att.fields[i].title, &att.fields[i].value) {
            Some(l) => {
                let ghost before = fields@;
                fields.push(l);
                assert(crate::models::strings_view(fields@) =~= crate::models::strings_view(before).push(l@));
            },
            None => {},
        }
    }
    assert(att.fields@.take(att.fields@.len() as int) =~= att.fields@);
    AttachmentText {
        service: ne_owned(&att.service_name),
        author: ne_owned(&att.author_name),
        title,
        title_link,
        body: ne_owned(&att.text),
        fields,
    }
}

} // verus!
