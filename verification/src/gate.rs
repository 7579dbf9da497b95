//! Scraping helpers for download gates: finding the free-download link on a
//! track page, reading form fields out of a gate page, and turning share
//! links into direct-download links.
//!
//! Offsets are byte offsets into the page, as with `str::find`; a window cut
//! out of the page must start and end on character boundaries, as slicing a
//! `str` requires.

use vstd::prelude::*;
use vstd::utf8::*;
use vstd::string::StringSliceAdditionalSpecFns;
use crate::url_parts::{UrlParts, parse_url, parsed_url, opt_string_view};
use crate::text::{str_eq, starts_with, starts_with_bytes, 
    as_int_opt, find_bytes, first_match, holds, contains_bytes, lemma_ascii_boundaries,
    lemma_ascii_str, lemma_found, lemma_str_valid, piece, push_bytes, rfind_byte,
    last_index_of, lemma_last_index, ends_with, ends_with_bytes, replace_spec, replace_all,
    append_str, lemma_string_bytes, to_lowercase, unicode_lowercase, lemma_holds_at,
    ascii_lowercase, matches_at,
};

verus! {

/// How far past the link container the page is searched for the link.
pub const PURCHASE_WINDOW: usize = 1500;

/// The end of a window of `len` bytes starting at `start`, cut short by the end of the page.
pub open spec fn window_end(start: int, len: int, total: int) -> int {
    if start + len < total {
        start + len
    } else {
        total
    }
}

/// The free-download link of a track page, by the bytes of the page.
pub open spec fn purchase_link_spec(h: Seq<u8>) -> Option<Seq<u8>> {
    match first_match(h, "purchaseLink__container".spec_bytes()) {
        None => None,
        Some(start) => {
            let window = h.subrange(start, window_end(start, PURCHASE_WINDOW as int, h.len() as int));
            match first_match(window, "href=\"".spec_bytes()) {
                None => None,
                Some(hp) => {
                    let after = window.subrange(hp + "href=\"".spec_bytes().len(), window.len() as int);
                    match first_match(after, "\"".spec_bytes()) {
                        None => None,
                        Some(e) => {
                            let href = after.subrange(0, e);
                            if holds(href, "gate.sc".spec_bytes()) || holds(
                                href,
                                "hypeddit.com".spec_bytes(),
                            ) {
                                Some(href)
                            } else {
                                None
                            }
                        },
                    }
                },
            }
        },
    }
}

/// The window after the link container ends on a character boundary.
pub open spec fn purchase_window_ok(h: Seq<u8>) -> bool {
    match first_match(h, "purchaseLink__container".spec_bytes()) {
        None => true,
        Some(start) => is_char_boundary(h, window_end(start, PURCHASE_WINDOW as int, h.len() as int)),
    }
}

/// The `href` of the first link after the track page's purchase-link
/// container (searched within 1500 bytes of it), if that link leads to a
/// gate.sc or hypeddit.com download gate.
pub fn extract_purchase_link(html: &str) -> (r: Option<String>)
    requires
        purchase_window_ok(html.spec_bytes()),
    ensures
        match r {
            Some(s) => purchase_link_spec(html.spec_bytes()) == Some(encode_utf8(s@)),
            None => purchase_link_spec(html.spec_bytes()) is None,
        },
        r matches Some(s) ==> holds(encode_utf8(s@), "gate.sc".spec_bytes()) || holds(
            encode_utf8(s@),
            "hypeddit.com".spec_bytes(),
        ),
{
    let ghost hb = html.spec_bytes();
    let h = html.as_bytes();
    let mark = "purchaseLink__container";
    let href_eq = "href=\"";
    let quote = "\"";
    proof {
        lemma_str_valid(html);
        reveal_strlit("href=\"");
        reveal_strlit("\"");
        lemma_ascii_str(href_eq);
        lemma_ascii_str(quote);
    }
    let start = match find_bytes(h, mark.as_bytes()) {
        Some(s) => s,
        None => return None,
    };
    proof {
        lemma_found(hb, mark.spec_bytes(), start as int);
    }
    let end = if h.len() - start > PURCHASE_WINDOW {
        start + PURCHASE_WINDOW
    } else {
        h.len()
    };
    let window = &h[start..end];
    let hp = match find_bytes(window, href_eq.as_bytes()) {
        Some(p) => p,
        None => return None,
    };
    proof {
        lemma_found(window@, href_eq.spec_bytes(), hp as int);
    }
    let a_rel = hp + href_eq.as_bytes().len();
    let after = &window[a_rel..window.len()];
    let e = match find_bytes(after, quote.as_bytes()) {
        Some(p) => p,
        None => return None,
    };
    proof {
        lemma_found(after@, quote.spec_bytes(), e as int);
    }
    let href = &after[0..e];
    if contains_bytes(href, "gate.sc".as_bytes()) || contains_bytes(href, "hypeddit.com".as_bytes()) {
        let a = start + a_rel;
        let b = a + e;
        proof {
            assert(hb[a - 1] == window@[a_rel - 1]);
            assert(hb[a - 1] == href_eq.spec_bytes()[5]);
            assert(hb[b as int] == quote.spec_bytes()[0]);
            lemma_ascii_boundaries(hb, a - 1);
            lemma_ascii_boundaries(hb, b as int);
        }
        let s = piece(html, a, b);
        proof {
            assert(s.spec_bytes() =~= href@);
        }
        Some(s.to_owned())
    } else {
        None
    }
}

/// Whether `extract_purchase_link` can cut its window out of `html` (the
/// window must end on a character boundary).
pub fn purchase_window_fits(html: &str) -> (r: bool)
    ensures
        r == purchase_window_ok(html.spec_bytes()),
{
    attr_window_fits(html, "purchaseLink__container".as_bytes(), PURCHASE_WINDOW)
}

/// Whether the window of `width` bytes from the first `marker` in `html`
/// ends on a character boundary.
pub(crate) fn attr_window_fits(html: &str, marker: &[u8], width: usize) -> (r: bool)
    ensures
        r == attr_window_ok(html.spec_bytes(), marker@, width as int),
{
    let h = html.as_bytes();
    match find_bytes(h, marker) {
        None => true,
        Some(pos) => {
            proof {
                lemma_found(h@, marker@, pos as int);
            }
            let end = if h.len() - pos > width {
                pos + width
            } else {
                h.len()
            };
            html.is_char_boundary(end)
        },
    }
}

/// The byte `<` that opens a tag.
pub const TAG_OPEN: u8 = 0x3c;

/// How far before the field name an input tag is searched for.
pub const INPUT_LOOKBACK: usize = 200;

/// How far after the field name an input tag is searched for.
pub const INPUT_LOOKAHEAD: usize = 400;

/// How far after a meta tag's name its content is searched for.
pub const META_WINDOW: usize = 300;

/// `name="<name>"`, the attribute that names a form field or a meta tag.
pub open spec fn name_attr(name: Seq<u8>) -> Seq<u8> {
    "name=\"".spec_bytes() + name + "\"".spec_bytes()
}

/// The text after `value=<q>` up to the next `q` in `tag`.
pub open spec fn quoted_value(tag: Seq<u8>, q: Seq<u8>) -> Option<Seq<u8>> {
    let prefix = "value=".spec_bytes() + q;
    match first_match(tag, prefix) {
        None => None,
        Some(vs) => {
            let after = tag.subrange(vs + prefix.len(), tag.len() as int);
            match first_match(after, q) {
                None => None,
                Some(ve) => Some(after.subrange(0, ve)),
            }
        },
    }
}

/// Start of the look-around chunk for a field found at `pos`.
pub open spec fn input_chunk_lo(pos: int) -> int {
    if pos >= INPUT_LOOKBACK { pos - INPUT_LOOKBACK } else { 0 }
}

/// Where the tag lies within a chunk: from its last `<` (or the chunk's
/// start) to its first `>` (or the chunk's end), when the one comes before
/// the other.
pub open spec fn tag_span(chunk: Seq<u8>) -> Option<(int, int)> {
    let tag_start = match last_index_of(chunk, TAG_OPEN) {
        Some(i) => i,
        None => 0,
    };
    let tag_end = match first_match(chunk, ">".spec_bytes()) {
        Some(i) => i,
        None => chunk.len() as int,
    };
    if tag_start >= tag_end {
        None
    } else {
        Some((tag_start, tag_end))
    }
}

/// The `value` attribute of a tag, in double quotes, else in single quotes.
pub open spec fn tag_value(tag: Seq<u8>) -> Option<Seq<u8>> {
    match quoted_value(tag, "\"".spec_bytes()) {
        Some(v) => Some(v),
        None => quoted_value(tag, "'".spec_bytes()),
    }
}

/// The value of the form field `name` in a page, by the bytes of the page.
pub open spec fn input_value_spec(h: Seq<u8>, name: Seq<u8>) -> Option<Seq<u8>> {
    match first_match(h, name_attr(name)) {
        None => None,
        Some(pos) => {
            let chunk = h.subrange(
                input_chunk_lo(pos),
                window_end(pos, INPUT_LOOKAHEAD as int, h.len() as int),
            );
            match tag_span(chunk) {
                None => None,
                Some((ts, te)) => tag_value(chunk.subrange(ts, te)),
            }
        },
    }
}

/// The look-around chunk of the field starts and ends on character boundaries.
pub open spec fn input_window_ok(h: Seq<u8>, name: Seq<u8>) -> bool {
    match first_match(h, name_attr(name)) {
        None => true,
        Some(pos) => is_char_boundary(h, input_chunk_lo(pos)) && is_char_boundary(
            h,
            window_end(pos, INPUT_LOOKAHEAD as int, h.len() as int),
        ),
    }
}

/// Whether `extract_input_value` can cut its look-around chunk out of
/// `html` (the chunk must start and end on character boundaries).
pub fn input_window_fits(html: &str, name: &str) -> (r: bool)
    ensures
        r == input_window_ok(html.spec_bytes(), name.spec_bytes()),
{
    let h = html.as_bytes();
    let needle = name_attr_bytes(name);
    match find_bytes(h, needle.as_slice()) {
        None => true,
        Some(pos) => {
            proof {
                lemma_found(h@, needle@, pos as int);
            }
            let lo = if pos >= INPUT_LOOKBACK {
                pos - INPUT_LOOKBACK
            } else {
                0
            };
            let hi = if h.len() - pos > INPUT_LOOKAHEAD {
                pos + INPUT_LOOKAHEAD
            } else {
                h.len()
            };
            html.is_char_boundary(lo) && html.is_char_boundary(hi)
        },
    }
}

/// Whether `extract_meta_content` can cut its window out of `html`.
pub fn meta_window_fits(html: &str, meta_name: &str) -> (r: bool)
    ensures
        r == attr_window_ok(html.spec_bytes(), name_attr(meta_name.spec_bytes()), META_WINDOW as int),
{
    let needle = name_attr_bytes(meta_name);
    attr_window_fits(html, needle.as_slice(), META_WINDOW)
}

/// `name="<name>"` as bytes.
fn name_attr_bytes(name: &str) -> (r: Vec<u8>)
    ensures
        r@ == name_attr(name.spec_bytes()),
{
    let mut v: Vec<u8> = Vec::new();
    push_bytes(&mut v, "name=\"".as_bytes());
    push_bytes(&mut v, name.as_bytes());
    push_bytes(&mut v, "\"".as_bytes());
    proof {
        assert(v@ =~= name_attr(name.spec_bytes()));
    }
    v
}

/// Looks in `html[lo..hi]` for `value=<q>...<q>` and gives the offsets of the
/// quoted text.
fn quoted_value_at(html: &str, lo: usize, hi: usize, q: &str) -> (r: Option<(usize, usize)>)
    requires
        lo <= hi <= html.spec_bytes().len(),
        q.spec_bytes().len() == 1,
        q.spec_bytes()[0] < 0x80,
        "value=".spec_bytes().len() == 6,
        forall|i: int| 0 <= i < 6 ==> #[trigger] "value=".spec_bytes()[i] < 0x80,
    ensures
        match r {
            Some((a, b)) => {
                &&& lo < a <= b < hi
                &&& quoted_value(html.spec_bytes().subrange(lo as int, hi as int), q.spec_bytes())
                    == Some(html.spec_bytes().subrange(a as int, b as int))
                &&& html.spec_bytes()[a - 1] < 0x80
                &&& html.spec_bytes()[b as int] < 0x80
            },
            None => quoted_value(html.spec_bytes().subrange(lo as int, hi as int), q.spec_bytes())
                is None,
        },
{
    let ghost hb = html.spec_bytes();
    let h = html.as_bytes();
    let tag = &h[lo..hi];
    let mut prefix: Vec<u8> = Vec::new();
    push_bytes(&mut prefix, "value=".as_bytes());
    push_bytes(&mut prefix, q.as_bytes());
    let vs = match find_bytes(tag, prefix.as_slice()) {
        Some(p) => p,
        None => return None,
    };
    proof {
        lemma_found(tag@, prefix@, vs as int);
    }
    let a_rel = vs + prefix.len();
    let after = &tag[a_rel..tag.len()];
    let ve = match find_bytes(after, q.as_bytes()) {
        Some(p) => p,
        None => return None,
    };
    proof {
        lemma_found(after@, q.spec_bytes(), ve as int);
        assert(hb[lo + a_rel - 1] == prefix@[6]);
        assert(hb[lo + a_rel + ve] == q.spec_bytes()[0]);
        assert(after@.subrange(0, ve as int) =~= hb.subrange(lo + a_rel, lo + a_rel + ve));
    }
    Some((lo + a_rel, lo + a_rel + ve))
}

/// The value of the hidden form field called `name`: the first
/// `name="<name>"` in the page is found, the input tag around it is cut out
/// of the 200 bytes before and 400 bytes after it, and the tag's `value`
/// attribute (in double, else single quotes) is read.  A chunk in which a
/// `>` comes before the last `<` holds no tag.
pub fn extract_input_value(html: &str, name: &str) -> (r: Option<String>)
    requires
        input_window_ok(html.spec_bytes(), name.spec_bytes()),
    ensures
        match r {
            Some(s) => input_value_spec(html.spec_bytes(), name.spec_bytes()) == Some(
                encode_utf8(s@),
            ),
            None => input_value_spec(html.spec_bytes(), name.spec_bytes()) is None,
        },
{
    let ghost hb = html.spec_bytes();
    let h = html.as_bytes();
    let dq = "\"";
    let sq = "'";
    proof {
        lemma_str_valid(html);
        reveal_strlit("\"");
        reveal_strlit("'");
        reveal_strlit("value=");
        lemma_ascii_str(dq);
        lemma_ascii_str(sq);
        lemma_ascii_str("value=");
    }
    let needle = name_attr_bytes(name);
    let pos = match find_bytes(h, needle.as_slice()) {
        Some(p) => p,
        None => return None,
    };
    proof {
        lemma_found(hb, needle@, pos as int);
    }
    let lo = if pos >= INPUT_LOOKBACK {
        pos - INPUT_LOOKBACK
    } else {
        0
    };
    let hi = if h.len() - pos > INPUT_LOOKAHEAD {
        pos + INPUT_LOOKAHEAD
    } else {
        h.len()
    };
    let (t_lo, t_hi) = match tag_span_at(h, lo, hi) {
        Some(t) => t,
        None => return None,
    };
    proof {
        let chunk = hb.subrange(lo as int, hi as int);
        assert(chunk.subrange(t_lo - lo, t_hi - lo) =~= hb.subrange(t_lo as int, t_hi as int));
    }
    let found = match quoted_value_at(html, t_lo, t_hi, dq) {
        Some(ab) => Some(ab),
        None => quoted_value_at(html, t_lo, t_hi, sq),
    };
    match found {
        Some((a, b)) => {
            proof {
                lemma_ascii_boundaries(hb, a - 1);
                lemma_ascii_boundaries(hb, b as int);
            }
            Some(piece(html, a, b).to_owned())
        },
        None => None,
    }
}

/// The span of the tag in `h[lo..hi]`, as offsets into `h`.
fn tag_span_at(h: &[u8], lo: usize, hi: usize) -> (r: Option<(usize, usize)>)
    requires
        lo <= hi <= h@.len(),
    ensures
        match r {
            Some((a, b)) => {
                &&& lo <= a < b <= hi
                &&& tag_span(h@.subrange(lo as int, hi as int)) == Some((a - lo, b - lo))
                &&& (a == lo || h@[a as int] == TAG_OPEN)
                &&& (b == hi || h@[b as int] == ">".spec_bytes()[0])
            },
            None => tag_span(h@.subrange(lo as int, hi as int)) is None,
        },
{
    let gt = ">";
    proof {
        reveal_strlit(">");
        lemma_ascii_str(gt);
    }
    let chunk = &h[lo..hi];
    let tag_start = match rfind_byte(chunk, TAG_OPEN) {
        Some(i) => i,
        None => 0,
    };
    let tag_end = match find_bytes(chunk, gt.as_bytes()) {
        Some(i) => i,
        None => chunk.len(),
    };
    proof {
        lemma_last_index(chunk@, TAG_OPEN);
        if let Some(i) = first_match(chunk@, gt.spec_bytes()) {
            lemma_found(chunk@, gt.spec_bytes(), i);
        }
    }
    if tag_start >= tag_end {
        None
    } else {
        Some((lo + tag_start, lo + tag_end))
    }
}

/// The quoted text after `key` within `width` bytes of the first `marker`:
/// from just after `key` up to the next `"`.
pub open spec fn attr_after(h: Seq<u8>, marker: Seq<u8>, width: int, key: Seq<u8>) -> Option<
    Seq<u8>,
> {
    match first_match(h, marker) {
        None => None,
        Some(pos) => {
            let window = h.subrange(pos, window_end(pos, width, h.len() as int));
            match first_match(window, key) {
                None => None,
                Some(cs) => {
                    let after = window.subrange(cs + key.len(), window.len() as int);
                    match first_match(after, "\"".spec_bytes()) {
                        None => None,
                        Some(ce) => Some(after.subrange(0, ce)),
                    }
                },
            }
        },
    }
}

/// The window after the first `marker` ends on a character boundary.
pub open spec fn attr_window_ok(h: Seq<u8>, marker: Seq<u8>, width: int) -> bool {
    match first_match(h, marker) {
        None => true,
        Some(pos) => is_char_boundary(h, window_end(pos, width, h.len() as int)),
    }
}

/// The `content` of the meta tag called `name`, by the bytes of the page.
pub open spec fn meta_content_spec(h: Seq<u8>, name: Seq<u8>) -> Option<Seq<u8>> {
    attr_after(h, name_attr(name), META_WINDOW as int, "content=\"".spec_bytes())
}

/// The quoted text after `key` within `width` bytes of the first `marker`.
pub(crate) fn attr_after_in(html: &str, marker: &[u8], width: usize, key: &str) -> (r: Option<String>)
    requires
        attr_window_ok(html.spec_bytes(), marker@, width as int),
        key.spec_bytes().len() > 0,
        key.spec_bytes().last() < 0x80,
    ensures
        match r {
            Some(s) => attr_after(html.spec_bytes(), marker@, width as int, key.spec_bytes())
                == Some(encode_utf8(s@)),
            None => attr_after(html.spec_bytes(), marker@, width as int, key.spec_bytes()) is None,
        },
{
    let ghost hb = html.spec_bytes();
    let h = html.as_bytes();
    let quote = "\"";
    proof {
        lemma_str_valid(html);
        reveal_strlit("\"");
        lemma_ascii_str(quote);
    }
    let pos = match find_bytes(h, marker) {
        Some(p) => p,
        None => return None,
    };
    proof {
        lemma_found(hb, marker@, pos as int);
    }
    let end = if h.len() - pos > width {
        pos + width
    } else {
        h.len()
    };
    let window = &h[pos..end];
    let cs = match find_bytes(window, key.as_bytes()) {
        Some(p) => p,
        None => return None,
    };
    proof {
        lemma_found(window@, key.spec_bytes(), cs as int);
    }
    let a_rel = cs + key.as_bytes().len();
    let after = &window[a_rel..window.len()];
    let ce = match find_bytes(after, quote.as_bytes()) {
        Some(p) => p,
        None => return None,
    };
    proof {
        lemma_found(after@, quote.spec_bytes(), ce as int);
    }
    let a = pos + a_rel;
    let b = a + ce;
    proof {
        assert(hb[a - 1] == key.spec_bytes().last());
        assert(hb[b as int] == quote.spec_bytes()[0]);
        lemma_ascii_boundaries(hb, a - 1);
        lemma_ascii_boundaries(hb, b as int);
    }
    let s = piece(html, a, b);
    proof {
        assert(s.spec_bytes() =~= after@.subrange(0, ce as int));
    }
    Some(s.to_owned())
}

/// The `content` attribute of the meta tag called `meta_name`: the text
/// between `content="` and the next `"` within 300 bytes of the first
/// `name="<meta_name>"`.
pub fn extract_meta_content(html: &str, meta_name: &str) -> (r: Option<String>)
    requires
        attr_window_ok(html.spec_bytes(), name_attr(meta_name.spec_bytes()), META_WINDOW as int),
    ensures
        match r {
            Some(s) => meta_content_spec(html.spec_bytes(), meta_name.spec_bytes()) == Some(
                encode_utf8(s@),
            ),
            None => meta_content_spec(html.spec_bytes(), meta_name.spec_bytes()) is None,
        },
{
    proof {
        reveal_strlit("content=\"");
        lemma_ascii_str("content=\"");
    }
    let needle = name_attr_bytes(meta_name);
    attr_after_in(html, needle.as_slice(), META_WINDOW, "content=\"")
}

/// The part of a link before its query string (before the first `?`).
pub open spec fn before_query(h: Seq<u8>) -> Seq<u8> {
    match first_match(h, "?".spec_bytes()) {
        Some(i) => h.subrange(0, i),
        None => h,
    }
}

/// The path ends with one of the audio file extensions.
pub open spec fn has_audio_extension(p: Seq<u8>) -> bool {
    ||| ends_with(p, ".mp3".spec_bytes())
    ||| ends_with(p, ".wav".spec_bytes())
    ||| ends_with(p, ".flac".spec_bytes())
    ||| ends_with(p, ".aiff".spec_bytes())
    ||| ends_with(p, ".aif".spec_bytes())
    ||| ends_with(p, ".m4a".spec_bytes())
    ||| ends_with(p, ".ogg".spec_bytes())
    ||| ends_with(p, ".opus".spec_bytes())
    ||| ends_with(p, ".aac".spec_bytes())
}

/// The lowercased part of a link before its query string ends with a known
/// audio extension.
pub open spec fn direct_audio(h: Seq<u8>) -> bool {
    has_audio_extension(encode_utf8(unicode_lowercase(decode_utf8(before_query(h)))))
}

/// The link points straight at an audio file: the lowercased part before
/// the query string ends with a known audio extension.
pub fn is_direct_audio_url(url: &str) -> (r: bool)
    ensures
        r == direct_audio(url.spec_bytes()),
        is_ascii_chars(decode_utf8(before_query(url.spec_bytes()))) ==> r == has_audio_extension(
            encode_utf8(ascii_lowercase(decode_utf8(before_query(url.spec_bytes())))),
        ),
{
    let ghost hb = url.spec_bytes();
    let h = url.as_bytes();
    let q = "?";
    proof {
        lemma_str_valid(url);
        reveal_strlit("?");
        lemma_ascii_str(q);
        is_char_boundary_start_end_of_seq(hb);
    }
    let end = match find_bytes(h, q.as_bytes()) {
        Some(i) => {
            proof {
                lemma_found(hb, q.spec_bytes(), i as int);
                assert(hb[i as int] == q.spec_bytes()[0]);
                lemma_ascii_boundaries(hb, i as int);
            }
            i
        },
        None => h.len(),
    };
    let path = piece(url, 0, end);
    proof {
        assert(path.spec_bytes() =~= before_query(hb));
        lemma_string_bytes(path);
    }
    let lower = to_lowercase(path);
    let lb = lower.as_str().as_bytes();
    ends_with_bytes(lb, ".mp3".as_bytes()) || ends_with_bytes(lb, ".wav".as_bytes())
        || ends_with_bytes(lb, ".flac".as_bytes()) || ends_with_bytes(lb, ".aiff".as_bytes())
        || ends_with_bytes(lb, ".aif".as_bytes()) || ends_with_bytes(lb, ".m4a".as_bytes())
        || ends_with_bytes(lb, ".ogg".as_bytes()) || ends_with_bytes(lb, ".opus".as_bytes())
        || ends_with_bytes(lb, ".aac".as_bytes())
}

/// Host of Dropbox's direct-download links.
pub open spec fn dropbox_direct_host() -> Seq<u8> {
    "dl.dropboxusercontent.com".spec_bytes()
}

/// The direct-download form of a Dropbox share link, by bytes.
pub open spec fn dropbox_direct_spec(h: Seq<u8>) -> Seq<u8> {
    if holds(h, dropbox_direct_host()) {
        h
    } else {
        let u = replace_spec(h, "www.dropbox.com".spec_bytes(), dropbox_direct_host());
        if holds(u, "dl=0".spec_bytes()) {
            replace_spec(u, "dl=0".spec_bytes(), "dl=1".spec_bytes())
        } else if holds(u, "?".spec_bytes()) {
            u + "&dl=1".spec_bytes()
        } else {
            u + "?dl=1".spec_bytes()
        }
    }
}

/// Turns a Dropbox share link into a direct-download link: the host becomes
/// `dl.dropboxusercontent.com` and the query asks for `dl=1`.  A link that is
/// already direct is returned as it is.
pub fn convert_dropbox_url(url: &str) -> (r: String)
    ensures
        encode_utf8(r@) == dropbox_direct_spec(url.spec_bytes()),
{
    let direct = "dl.dropboxusercontent.com";
    if contains_bytes(url.as_bytes(), direct.as_bytes()) {
        proof {
            lemma_string_bytes(url);
        }
        return url.to_owned();
    }
    proof {
        reveal_strlit("www.dropbox.com");
        reveal_strlit("dl=0");
        lemma_ascii_str("www.dropbox.com");
        lemma_ascii_str("dl=0");
    }
    let u = replace_all(url, "www.dropbox.com", direct);
    let ub = u.as_str().as_bytes();
    if contains_bytes(ub, "dl=0".as_bytes()) {
        replace_all(u.as_str(), "dl=0", "dl=1")
    } else if contains_bytes(ub, "?".as_bytes()) {
        let mut out = u.clone();
        append_str(&mut out, "&dl=1");
        out
    } else {
        let mut out = u.clone();
        append_str(&mut out, "?dl=1");
        out
    }
}

/// Google Drive's direct-download address, before the file id.
pub open spec fn gdrive_download_prefix() -> Seq<u8> {
    "https://drive.google.com/uc?export=download&id=".spec_bytes()
}

/// The non-empty text after the first `marker`, up to the first `stop` after it.
pub open spec fn id_after(h: Seq<u8>, marker: Seq<u8>, stop: Seq<u8>) -> Option<Seq<u8>> {
    match first_match(h, marker) {
        None => None,
        Some(s) => {
            let after = h.subrange(s + marker.len(), h.len() as int);
            let end = match first_match(after, stop) {
                Some(e) => e,
                None => after.len() as int,
            };
            if end > 0 {
                Some(after.subrange(0, end))
            } else {
                None
            }
        },
    }
}

/// The Google Drive file id of a share link, by bytes: taken from
/// `/file/d/<id>/...`, else from `id=<id>&...`.
pub open spec fn gdrive_id(h: Seq<u8>) -> Option<Seq<u8>> {
    match id_after(h, "/file/d/".spec_bytes(), "/".spec_bytes()) {
        Some(id) => Some(id),
        None => id_after(h, "id=".spec_bytes(), "&".spec_bytes()),
    }
}

/// Offsets in `s` of the non-empty text after the first `marker`, up to the
/// first `stop` after it.
fn id_span(s: &str, marker: &str, stop: &str) -> (r: Option<(usize, usize)>)
    requires
        marker.spec_bytes().len() > 0,
        marker.spec_bytes().last() < 0x80,
        stop.spec_bytes().len() == 1,
        stop.spec_bytes()[0] < 0x80,
    ensures
        match r {
            Some((a, b)) => {
                &&& 0 < a < b <= s.spec_bytes().len()
                &&& id_after(s.spec_bytes(), marker.spec_bytes(), stop.spec_bytes()) == Some(
                    s.spec_bytes().subrange(a as int, b as int),
                )
                &&& is_char_boundary(s.spec_bytes(), a as int)
                &&& is_char_boundary(s.spec_bytes(), b as int)
            },
            None => id_after(s.spec_bytes(), marker.spec_bytes(), stop.spec_bytes()) is None,
        },
{
    let ghost hb = s.spec_bytes();
    let h = s.as_bytes();
    let hl = h.len();
    proof {
        lemma_str_valid(s);
        is_char_boundary_start_end_of_seq(hb);
    }
    let m = match find_bytes(h, marker.as_bytes()) {
        Some(m) => m,
        None => return None,
    };
    proof {
        lemma_found(hb, marker.spec_bytes(), m as int);
    }
    let a = m + marker.as_bytes().len();
    let after = &h[a..hl];
    let end = match find_bytes(after, stop.as_bytes()) {
        Some(e) => {
            proof {
                lemma_found(after@, stop.spec_bytes(), e as int);
                assert(hb[a + e] == stop.spec_bytes()[0]);
                lemma_ascii_boundaries(hb, a + e);
            }
            e
        },
        None => after.len(),
    };
    if end == 0 {
        return None;
    }
    proof {
        assert(hb[a - 1] == marker.spec_bytes().last());
        lemma_ascii_boundaries(hb, a - 1);
        assert(after@.subrange(0, end as int) =~= hb.subrange(a as int, a + end));
    }
    Some((a, a + end))
}

/// The direct-download link of a Google Drive share link.
pub fn convert_gdrive_url(url: &str) -> (r: Option<String>)
    ensures
        match r {
            Some(s) => gdrive_id(url.spec_bytes()) matches Some(id) && encode_utf8(s@)
                == gdrive_download_prefix() + id,
            None => gdrive_id(url.spec_bytes()) is None,
        },
{
    proof {
        reveal_strlit("/file/d/");
        reveal_strlit("/");
        reveal_strlit("id=");
        reveal_strlit("&");
        lemma_ascii_str("/file/d/");
        lemma_ascii_str("/");
        lemma_ascii_str("id=");
        lemma_ascii_str("&");
    }
    let span = match id_span(url, "/file/d/", "/") {
        Some(sp) => Some(sp),
        None => id_span(url, "id=", "&"),
    };
    match span {
        Some((a, b)) => {
            let id = piece(url, a, b);
            let mut out = "https://drive.google.com/uc?export=download&id=".to_owned();
            proof {
                lemma_string_bytes("https://drive.google.com/uc?export=download&id=");
            }
            append_str(&mut out, id);
            Some(out)
        },
        None => None,
    }
}

/// The value of the first query pair called `key`.
pub open spec fn query_value(pairs: Seq<(Seq<char>, Seq<char>)>, key: Seq<char>) -> Option<
    Seq<char>,
>
    decreases pairs.len(),
{
    if pairs.len() == 0 {
        None
    } else if pairs[0].0 == key {
        Some(pairs[0].1)
    } else {
        query_value(pairs.drop_first(), key)
    }
}

/// The link that a gate.sc link forwards to: the value of its first `url`
/// query parameter.
pub fn gate_inner_url(parts: &UrlParts) -> (r: Option<String>)
    ensures
        opt_string_view(r) == query_value(parts@.2, "url"@),
{
    let ghost all = parts@.2;
    let n = parts.query.len();
    let mut i: usize = 0;
    proof {
        assert(all.skip(0) =~= all);
    }
    while i < n
        invariant
            i <= n,
            n == parts.query@.len(),
            all == parts@.2,
            query_value(all, "url"@) == query_value(all.skip(i as int), "url"@),
        decreases n - i,
    {
        let (k, v) = &parts.query[i];
        proof {
            assert(all.skip(i as int)[0] == (k@, v@));
        }
        if str_eq(k.as_str(), "url") {
            return Some(v.clone());
        }
        proof {
            assert(all.skip(i as int).drop_first() =~= all.skip(i + 1));
        }
        i = i + 1;
    }
    None
}

/// What to do next with a link found behind a download gate.
#[derive(Debug, Clone, PartialEq)]
pub enum GateStep {
    /// Resolve this link instead (a gate.sc link forwards to it).
    Follow(String),
    /// Try to pass the hypeddit gate at this link.
    Hypeddit(String),
    /// This is the direct-download link.
    Found(String),
    /// The link leads nowhere usable.
    Unresolvable,
    /// Ask the server whether this link serves audio.
    Probe(String),
}

/// Decides how a gate link is resolved: gate.sc links forward to their `url`
/// parameter, hypeddit links need the hypeddit bypass, Dropbox share links
/// are turned into direct links (whatever file they name), other links to
/// audio files are final, Google Drive share links are turned into direct
/// links, and any other link is probed for an audio content type.
pub fn gate_step(url: &str) -> (r: GateStep)
    ensures
        ({
            let h = url.spec_bytes();
            if holds(h, "gate.sc".spec_bytes()) {
                let inner = match parsed_url(url@) {
                    Some(p) => query_value(p.2, "url"@),
                    None => None,
                };
                match r {
                    GateStep::Follow(u) => inner == Some(u@),
                    GateStep::Unresolvable => inner is None,
                    _ => false,
                }
            } else if holds(h, "hypeddit.com".spec_bytes()) {
                r matches GateStep::Hypeddit(u) && u@ == url@
            } else if holds(h, "dropbox.com".spec_bytes()) {
                r matches GateStep::Found(u) && encode_utf8(u@) == dropbox_direct_spec(h)
            } else if direct_audio(h) {
                r matches GateStep::Found(u) && u@ == url@
            } else if holds(h, "drive.google.com".spec_bytes()) {
                match r {
                    GateStep::Found(u) => gdrive_id(h) matches Some(id) && encode_utf8(u@)
                        == gdrive_download_prefix() + id,
                    GateStep::Unresolvable => gdrive_id(h) is None,
                    _ => false,
                }
            } else {
                r matches GateStep::Probe(u) && u@ == url@
            }
        }),
{
    let h = url.as_bytes();
    if contains_bytes(h, "gate.sc".as_bytes()) {
        let inner = match parse_url(url) {
            Some(parts) => gate_inner_url(&parts),
            None => None,
        };
        return match inner {
            Some(u) => GateStep::Follow(u),
            None => GateStep::Unresolvable,
        };
    }
    if contains_bytes(h, "hypeddit.com".as_bytes()) {
        return GateStep::Hypeddit(url.to_owned());
    }
    if contains_bytes(h, "dropbox.com".as_bytes()) {
        return GateStep::Found(convert_dropbox_url(url));
    }
    if is_direct_audio_url(url) {
        return GateStep::Found(url.to_owned());
    }
    if contains_bytes(h, "drive.google.com".as_bytes()) {
        return match convert_gdrive_url(url) {
            Some(u) => GateStep::Found(u),
            None => GateStep::Unresolvable,
        };
    }
    GateStep::Probe(url.to_owned())
}

/// A `Content-Type` that marks a response as an audio file: any `audio/`
/// type, or `application/octet-stream`.
pub fn is_audio_content_type(content_type: &str) -> (r: bool)
    ensures
        r == (starts_with(content_type.spec_bytes(), "audio/".spec_bytes()) || content_type@
            == "application/octet-stream"@),
{
    starts_with_bytes(content_type.as_bytes(), "audio/".as_bytes()) || str_eq(
        content_type,
        "application/octet-stream",
    )
}

/// A share link that is not yet direct comes out asking for a direct
/// download (`dl=1`).
pub proof fn law_dropbox_link_requests_download(h: Seq<u8>)
    requires
        !holds(h, dropbox_direct_host()),
    ensures
        holds(dropbox_direct_spec(h), "dl=1".spec_bytes()),
{
    let u = replace_spec(h, "www.dropbox.com".spec_bytes(), dropbox_direct_host());
    let dl0 = "dl=0".spec_bytes();
    let dl1 = "dl=1".spec_bytes();
    reveal_strlit("dl=0");
    reveal_strlit("dl=1");
    reveal_strlit("&dl=1");
    reveal_strlit("?dl=1");
    lemma_ascii_str("dl=0");
    lemma_ascii_str("dl=1");
    lemma_ascii_str("&dl=1");
    lemma_ascii_str("?dl=1");
    if holds(u, dl0) {
        let i = first_match(u, dl0)->0;
        lemma_found(u, dl0, i);
        let out = replace_spec(u, dl0, dl1);
        let rest = replace_spec(u.subrange(i + dl0.len(), u.len() as int), dl0, dl1);
        assert(out == u.subrange(0, i) + dl1 + rest);
        assert(out.subrange(i, i + dl1.len()) =~= dl1);
        lemma_holds_at(out, dl1, i);
    } else if holds(u, "?".spec_bytes()) {
        let out = u + "&dl=1".spec_bytes();
        assert(out.subrange(u.len() + 1int, u.len() + 5int) =~= dl1);
        lemma_holds_at(out, dl1, u.len() + 1int);
    } else {
        let out = u + "?dl=1".spec_bytes();
        assert(out.subrange(u.len() + 1int, u.len() + 5int) =~= dl1);
        lemma_holds_at(out, dl1, u.len() + 1int);
    }
}


/// Text cut off at the first double quote holds no double quote, and the
/// quote is where it was cut.
proof fn lemma_up_to_quote(after: Seq<u8>, e: int)
    requires
        first_match(after, "\"".spec_bytes()) == Some(e),
    ensures
        0 <= e < after.len(),
        after[e] == 0x22,
        forall|k: int| 0 <= k < e ==> after[k] != 0x22,
{
    let q = "\"".spec_bytes();
    reveal_strlit("\"");
    lemma_ascii_str("\"");
    lemma_found(after, q, e);
    assert(after[e + 0] == q[0]);
    assert forall|k: int| 0 <= k < e implies after[k] != 0x22 by {
        if after[k] == 0x22 {
            assert(after.subrange(k, k + 1) =~= q);
            assert(matches_at(after, q, k));
        }
    }
}

/// The quoted text after `key` in the window behind `marker` ends at the
/// first double quote: it holds no double quote, and in the page it stands
/// right after an occurrence of `key` at or after the first `marker`, with a
/// double quote right after it.
pub proof fn law_attr_value_ends_at_first_quote(h: Seq<u8>, marker: Seq<u8>, width: int, key: Seq<u8>)
    requires
        0 <= width,
    ensures
        attr_after(h, marker, width, key) matches Some(c) ==> {
            &&& forall|k: int| 0 <= k < c.len() ==> c[k] != 0x22
            &&& exists|i: int|
                #![trigger matches_at(h, key, i)]
                first_match(h, marker) matches Some(pos) && pos <= i && matches_at(h, key, i)
                    && h.subrange(i + key.len(), i + key.len() + c.len()) == c && h[i + key.len()
                    + c.len()] == 0x22
        },
{
    if let Some(c) = attr_after(h, marker, width, key) {
        let pos = first_match(h, marker)->0;
        lemma_found(h, marker, pos);
        let end = window_end(pos, width, h.len() as int);
        let window = h.subrange(pos, end);
        let cs = first_match(window, key)->0;
        lemma_found(window, key, cs);
        let after = window.subrange(cs + key.len(), window.len() as int);
        let ce = first_match(after, "\"".spec_bytes())->0;
        lemma_up_to_quote(after, ce);
        let i = pos + cs;
        assert(h.subrange(i, i + key.len()) =~= key) by {
            assert forall|k: int| 0 <= k < key.len() implies h.subrange(i, i + key.len())[k]
                == key[k] by {
                assert(window[cs + k] == key[k]);
            }
        }
        assert(matches_at(h, key, i));
        assert(h.subrange(i + key.len(), i + key.len() + c.len()) =~= c);
        assert(h[i + key.len() + c.len()] == after[ce]);
    }
}

/// The `content` of a meta tag ends at the first double quote after
/// `content="`: it holds no double quote, follows `content="` in the page
/// (at or after the tag's name) and is followed by `"`.
pub proof fn law_meta_content_ends_at_first_quote(h: Seq<u8>, name: Seq<u8>)
    ensures
        meta_content_spec(h, name) matches Some(c) ==> {
            &&& forall|k: int| 0 <= k < c.len() ==> c[k] != 0x22
            &&& exists|i: int|
                #![trigger matches_at(h, "content=\"".spec_bytes(), i)]
                first_match(h, name_attr(name)) matches Some(pos) && pos <= i && matches_at(
                    h,
                    "content=\"".spec_bytes(),
                    i,
                ) && h.subrange(i + 9, i + 9 + c.len()) == c && h[i + 9 + c.len()] == 0x22
        },
{
    reveal_strlit("content=\"");
    lemma_ascii_str("content=\"");
    law_attr_value_ends_at_first_quote(h, name_attr(name), META_WINDOW as int, "content=\"".spec_bytes());
}

/// The free-download link is the text between `href="` and the next double
/// quote: it holds no double quote, follows `href="` at or after the
/// purchase-link container, is followed by `"`, and names a gate.sc or
/// hypeddit.com gate.
pub proof fn law_purchase_link_ends_at_first_quote(h: Seq<u8>)
    ensures
        purchase_link_spec(h) matches Some(href) ==> {
            &&& forall|k: int| 0 <= k < href.len() ==> href[k] != 0x22
            &&& exists|i: int|
                #![trigger matches_at(h, "href=\"".spec_bytes(), i)]
                first_match(h, "purchaseLink__container".spec_bytes()) matches Some(pos) && pos <= i
                    && matches_at(h, "href=\"".spec_bytes(), i) && h.subrange(
                    i + 6,
                    i + 6 + href.len(),
                ) == href && h[i + 6 + href.len()] == 0x22
            &&& holds(href, "gate.sc".spec_bytes()) || holds(href, "hypeddit.com".spec_bytes())
        },
{
    reveal_strlit("href=\"");
    lemma_ascii_str("href=\"");
    let mark = "purchaseLink__container".spec_bytes();
    let key = "href=\"".spec_bytes();
    assert(purchase_link_spec(h) is Some ==> attr_after(h, mark, PURCHASE_WINDOW as int, key)
        == purchase_link_spec(h));
    law_attr_value_ends_at_first_quote(h, mark, PURCHASE_WINDOW as int, key);
}

} // verus!
