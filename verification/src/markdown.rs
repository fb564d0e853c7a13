use pulldown_cmark::CowStr;
use pulldown_cmark::Event;
use pulldown_cmark::Parser;
use pulldown_cmark::Tag;
use vstd::prelude::*;

use crate::media::resolve::normalize_path_spec;
use crate::media::resolve::MediaResolver;
use crate::text::append_chars;
use crate::text::chars_eq;
use crate::text::chars_of;
use crate::text::contains;
use crate::text::contains_scheme_sep;
use crate::text::decimal;
use crate::text::decimal_chars;
use crate::text::ends_with_chars;
use crate::text::has_prefix;
use crate::text::has_suffix;
use crate::text::scheme_sep;
use crate::text::split_chars;
use crate::text::split_on;
use crate::text::starts_with_chars;
use crate::text::string_from_chars;

verus! {

// ----------------------------------------------------------------------------
// What pulldown-cmark computes.
// ----------------------------------------------------------------------------

/// The images of a Markdown text, in order, as `(destination, title)`
/// pairs, as pulldown-cmark parses them.
pub uninterp spec fn image_refs(markdown: Seq<char>) -> Seq<(Seq<char>, Seq<char>)>;

/// The HTML pulldown-cmark renders for `markdown`, where its `k`-th image is
/// replaced as `images[k]` says: `(true, html)` by the raw HTML `html`,
/// `(false, url)` by the same image with destination `url`.
pub uninterp spec fn markdown_html(markdown: Seq<char>, images: Seq<(bool, Seq<char>)>) -> Seq<char>;

/// A Markdown image reference.
pub struct ImageRef {
    pub dest_url: String,
    pub title: String,
}

/// What an image of a Markdown text is rendered as.
pub enum ImageRender {
    /// Raw HTML in place of the image.
    Html(String),
    /// The image, with this destination URL.
    Image(String),
}

impl View for ImageRender {
    type V = (bool, Seq<char>);

    open spec fn view(&self) -> (bool, Seq<char>) {
        match self {
            ImageRender::Html(h) => (true, h@),
            ImageRender::Image(u) => (false, u@),
        }
    }
}

/// pulldown-cmark's `Parser`: the images of `markdown`, in order, with
/// their destinations and titles. The contract names the result.
#[verifier::external_body]
pub(crate) fn markdown_image_refs(markdown: &str) -> (r: Vec<ImageRef>)
    ensures
        r@.map_values(|i: ImageRef| (i.dest_url@, i.title@)) == image_refs(markdown@),
{
    Parser::new(markdown).filter_map(|event| match event {
        Event::Start(Tag::Image { dest_url, title, .. }) => Some(
            ImageRef { dest_url: dest_url.to_string(), title: title.to_string() },
        ),
        _ => None,
    }).collect()
}

/// The renders of a text's images, handed out one by one in order.
pub struct ImageQueue {
    renders: Vec<ImageRender>,
    next: usize,
}

fn copy_render(x: &ImageRender) -> (r: ImageRender)
    ensures
        r@ == x@,
{
    match x {
        ImageRender::Html(h) => ImageRender::Html(string_from_chars(chars_of(h.as_str()).as_slice())),
        ImageRender::Image(u) => ImageRender::Image(string_from_chars(chars_of(u.as_str()).as_slice())),
    }
}

impl ImageQueue {
    /// The renders not yet handed out, in order.
    pub closed spec fn remaining(&self) -> Seq<(bool, Seq<char>)> {
        if self.next <= self.renders@.len() {
            self.renders@.map_values(|i: ImageRender| i@).skip(self.next as int)
        } else {
            seq![]
        }
    }

    /// A queue handing out `renders` in order.
    pub fn new(renders: Vec<ImageRender>) -> (r: ImageQueue)
        ensures
            r.remaining() == renders@.map_values(|i: ImageRender| i@),
    {
        let r = ImageQueue { renders, next: 0 };
        assert(r.renders@.map_values(|i: ImageRender| i@).skip(0) =~= r.renders@.map_values(|i: ImageRender| i@));
        r
    }

    /// The render of the next image, `None` once all are handed out.
    pub fn next_render(&mut self) -> (r: Option<ImageRender>)
        ensures
            old(self).remaining().len() == 0 ==> r is None && final(self).remaining() == old(self).remaining(),
            old(self).remaining().len() > 0 ==> (r matches Some(x) && x@ == old(self).remaining()[0]
                && final(self).remaining() == old(self).remaining().drop_first()),
    {
        if self.next < self.renders.len() {
            let x = copy_render(&self.renders[self.next]);
            let ghost before = self.remaining();
            assert(before[0] == self.renders@[self.next as int]@);
            self.next = self.next + 1;
            assert(self.remaining() =~= before.drop_first());
            Some(x)
        } else {
            None
        }
    }
}

/// pulldown-cmark's `Parser` and `html::push_html`: the HTML of `markdown`,
/// each image event in turn replaced by what `ImageQueue::next_render`
/// hands out (as raw HTML, or as the image with that destination; kept
/// when nothing is left). The contract names the result.
#[verifier::external_body]
pub(crate) fn render_markdown(markdown: &str, images: Vec<ImageRender>) -> (r: String)
    ensures
        r@ == markdown_html(markdown@, images@.map_values(|i: ImageRender| i@)),
{
    let mut queue = ImageQueue::new(images);
    let events = Parser::new(markdown).map(|event| match event {
        Event::Start(Tag::Image { link_type, title, dest_url, id }) => match queue.next_render() {
            Some(ImageRender::Html(h)) => Event::Html(CowStr::from(h)),
            Some(ImageRender::Image(u)) => Event::Start(Tag::Image { link_type, title, dest_url: CowStr::from(u), id }),
            None => Event::Start(Tag::Image { link_type, title, dest_url, id }),
        },
        other => other,
    });
    let mut html = String::new();
    pulldown_cmark::html::push_html(&mut html, events);
    html
}

/// The images of a Markdown text, in order, each with the position (in
/// characters) where its event starts and its destination, as
/// pulldown-cmark's offset iterator gives them.
pub uninterp spec fn image_starts(markdown: Seq<char>) -> Seq<(int, Seq<char>)>;

/// An image of a Markdown text with the position where it starts.
pub struct ImageStart {
    pub start: usize,
    pub dest_url: String,
}

/// pulldown-cmark's `Parser::into_offset_iter`: the images of `markdown`,
/// in order, each with the character position where its event starts. The
/// contract names the result and says the positions lie in the text.
#[verifier::external_body]
pub(crate) fn markdown_image_starts(markdown: &str) -> (r: Vec<ImageStart>)
    ensures
        r@.map_values(|i: ImageStart| (i.start as int, i.dest_url@)) == image_starts(markdown@),
        forall|k: int| 0 <= k < r@.len() ==> #[trigger] r@[k].start <= markdown@.len(),
{
    Parser::new(markdown).into_offset_iter().filter_map(|(event, range)| match event {
        Event::Start(Tag::Image { dest_url, .. }) => Some(
            ImageStart { start: markdown[..range.start].chars().count(), dest_url: dest_url.to_string() },
        ),
        _ => None,
    }).collect()
}

// ----------------------------------------------------------------------------
// Media URLs.
// ----------------------------------------------------------------------------

/// Does the URL name an audio file (by the text after its last `.`)?
pub open spec fn is_audio(url: Seq<char>) -> bool {
    let ext = split_on(url, '.').last();
    ext == "mp3"@ || ext == "wav"@ || ext == "ogg"@
}

/// The URL an image's destination is served at: external URLs unchanged,
/// other paths normalized (or kept as written where that fails) and served
/// by the local file server.
pub open spec fn served_url(url: Seq<char>, port: u16, root: Seq<char>, deck_path: Seq<char>) -> Seq<char> {
    if contains(url, scheme_sep()) {
        url
    } else {
        let normalized = match normalize_path_spec(root, url, deck_path) {
            Ok(n) => n,
            Err(_) => url,
        };
        "http://localhost:"@ + decimal(port as nat) + "/file/"@ + normalized
    }
}

/// How an image is rendered: audio files as an HTML5 audio element, other
/// files as the image with its served URL.
pub open spec fn image_render(
    dest: Seq<char>,
    title: Seq<char>,
    port: u16,
    root: Seq<char>,
    deck_path: Seq<char>,
) -> (bool, Seq<char>) {
    let url = served_url(dest, port, root, deck_path);
    if is_audio(url) {
        (true, "<audio controls src=\""@ + url + "\" title=\""@ + title + "\"></audio>"@)
    } else {
        (false, url)
    }
}

/// The HTML of a card's Markdown.
pub open spec fn markdown_to_html_spec(markdown: Seq<char>, port: u16, root: Seq<char>, deck_path: Seq<char>) -> Seq<char> {
    markdown_html(
        markdown,
        image_refs(markdown).map_values(
            |i: (Seq<char>, Seq<char>)| image_render(i.0, i.1, port, root, deck_path),
        ),
    )
}

/// The HTML without the paragraph around it, when it is one paragraph.
pub open spec fn strip_paragraph(html: Seq<char>) -> Seq<char> {
    if has_prefix(html, "<p>"@) && has_suffix(html, "</p>\n"@) {
        html.subrange(3, html.len() - 5)
    } else {
        html
    }
}

/// Is the URL an audio file?
pub fn is_audio_file(url: &str) -> (r: bool)
    ensures
        r == is_audio(url@),
{
    let u = chars_of(url);
    let pieces = split_chars(u.as_slice(), '.');
    let ext = &pieces[pieces.len() - 1];
    assert(ext@ == split_on(url@, '.').last());
    let mp3 = chars_of("mp3");
    let wav = chars_of("wav");
    let ogg = chars_of("ogg");
    chars_eq(ext.as_slice(), mp3.as_slice()) || chars_eq(ext.as_slice(), wav.as_slice()) || chars_eq(
        ext.as_slice(),
        ogg.as_slice(),
    )
}

/// The URL an image's destination is served at.
pub fn modify_url(url: &str, port: u16, resolver: &MediaResolver, deck_path: &str) -> (r: String)
    ensures
        r@ == served_url(url@, port, resolver.root@, deck_path@),
{
    let u = chars_of(url);
    if contains_scheme_sep(u.as_slice()) {
        return url.to_owned();
    }
    let normalized = match resolver.normalize_path(url, deck_path) {
        Ok(n) => n,
        Err(_) => url.to_owned(),
    };
    let mut out = chars_of("http://localhost:");
    let digits = decimal_chars(port as u64);
    append_chars(&mut out, digits.as_slice());
    let file = chars_of("/file/");
    append_chars(&mut out, file.as_slice());
    let n = chars_of(normalized.as_str());
    append_chars(&mut out, n.as_slice());
    string_from_chars(out.as_slice())
}

fn render_image(image: &ImageRef, port: u16, resolver: &MediaResolver, deck_path: &str) -> (r: ImageRender)
    ensures
        r@ == image_render(image.dest_url@, image.title@, port, resolver.root@, deck_path@),
{
    let url = modify_url(image.dest_url.as_str(), port, resolver, deck_path);
    if is_audio_file(url.as_str()) {
        let mut out = chars_of("<audio controls src=\"");
        let u = chars_of(url.as_str());
        append_chars(&mut out, u.as_slice());
        let mid = chars_of("\" title=\"");
        append_chars(&mut out, mid.as_slice());
        let t = chars_of(image.title.as_str());
        append_chars(&mut out, t.as_slice());
        let end = chars_of("\"></audio>");
        append_chars(&mut out, end.as_slice());
        ImageRender::Html(string_from_chars(out.as_slice()))
    } else {
        ImageRender::Image(url)
    }
}

/// Render a card's Markdown to HTML. Images are served by the local file
/// server; audio files become HTML5 audio elements.
pub fn markdown_to_html(markdown: &str, port: u16, collection_root: &str, deck_path: &str) -> (r: String)
    ensures
        r@ == markdown_to_html_spec(markdown@, port, collection_root@, deck_path@),
{
    let resolver = MediaResolver { root: collection_root.to_owned() };
    let images = markdown_image_refs(markdown);
    let ghost refs = images@.map_values(|i: ImageRef| (i.dest_url@, i.title@));
    let mut renders: Vec<ImageRender> = Vec::new();
    let mut k: usize = 0;
    while k < images.len()
        invariant
            k <= images@.len(),
            renders@.len() == k,
            refs.len() == images@.len(),
            refs == images@.map_values(|i: ImageRef| (i.dest_url@, i.title@)),
            resolver.root@ == collection_root@,
            renders@.map_values(|i: ImageRender| i@) == refs.take(k as int).map_values(
                |i: (Seq<char>, Seq<char>)| image_render(i.0, i.1, port, collection_root@, deck_path@),
            ),
        decreases images.len() - k,
    {
        assert(refs[k as int] == (images@[k as int].dest_url@, images@[k as int].title@));
        let r = render_image(&images[k], port, &resolver, deck_path);
        let ghost before = renders@;
        renders.push(r);
        k = k + 1;
        proof {
            let lhs = renders@.map_values(|i: ImageRender| i@);
            let rhs = refs.take(k as int).map_values(
                |i: (Seq<char>, Seq<char>)| image_render(i.0, i.1, port, collection_root@, deck_path@),
            );
            let prev = refs.take(k - 1).map_values(
                |i: (Seq<char>, Seq<char>)| image_render(i.0, i.1, port, collection_root@, deck_path@),
            );
            assert(lhs.len() == rhs.len());
            assert forall|j: int| 0 <= j < lhs.len() implies lhs[j] == rhs[j] by {
                if j < k - 1 {
                    assert(lhs[j] == before[j]@);
                    assert(before.map_values(|i: ImageRender| i@)[j] == prev[j]);
                    assert(refs.take(k as int)[j] == refs.take(k - 1)[j]);
                }
            }
            assert(lhs =~= rhs);
        }
    }
    assert(refs.take(refs.len() as int) =~= refs);
    render_markdown(markdown, renders)
}

/// Render Markdown to HTML, without the paragraph tags around it when the
/// HTML is a single paragraph.
pub fn markdown_to_html_inline(markdown: &str, port: u16, collection_root: &str, deck_path: &str) -> (r: String)
    ensures
        r@ == strip_paragraph(markdown_to_html_spec(markdown@, port, collection_root@, deck_path@)),
{
    let text = markdown_to_html(markdown, port, collection_root, deck_path);
    let t = chars_of(text.as_str());
    let open = chars_of("<p>");
    let close = chars_of("</p>\n");
    if starts_with_chars(t.as_slice(), open.as_slice()) && ends_with_chars(t.as_slice(), close.as_slice()) {
        proof {
            reveal_strlit("<p>");
            reveal_strlit("</p>\n");
            assert("<p>"@ =~= seq!['<', 'p', '>']);
            assert("</p>\n"@ =~= seq!['<', '/', 'p', '>', '\n']);
            lemma_paragraph_bounds(t@);
        }
        let inner = crate::text::sub_chars(t.as_slice(), 3, t.len() - 5);
        string_from_chars(inner.as_slice())
    } else {
        text
    }
}

/// A text beginning with `<p>` and ending with `</p>\n` has at least eight
/// characters: the two cannot overlap.
proof fn lemma_paragraph_bounds(t: Seq<char>)
    requires
        has_prefix(t, seq!['<', 'p', '>']),
        has_suffix(t, seq!['<', '/', 'p', '>', '\n']),
    ensures
        t.len() >= 8,
{
    assert(t.take(3)[0] == '<');
    assert(t.skip(t.len() - 5)[0] == '<');
    assert(t.skip(t.len() - 5)[1] == '/');
    assert(t.take(3)[1] == 'p');
    if t.len() < 8 {
        assert(t[0] == '<' && t[1] == 'p' && t[2] == '>');
        assert(t[t.len() - 5] == '<' && t[t.len() - 4] == '/' && t[t.len() - 3] == 'p');
    }
}

} // verus!
