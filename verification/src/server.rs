//! The content checks of the knotwork gallery: recognizing images and text,
//! and escaping text for HTML.
use vstd::prelude::*;
use crate::utils::bytes::{spec_starts_with, starts_with};

verus! {

/// PNG, JPEG, GIF and WebP signatures.
pub const PNG_MAGIC: [u8; 4] = [0x89, 0x50, 0x4E, 0x47];
pub const JPEG_MAGIC: [u8; 3] = [0xFF, 0xD8, 0xFF];
pub const GIF87A_MAGIC: [u8; 6] = [0x47, 0x49, 0x46, 0x38, 0x37, 0x61];
pub const GIF89A_MAGIC: [u8; 6] = [0x47, 0x49, 0x46, 0x38, 0x39, 0x61];
pub const GIF_MAGIC: [u8; 3] = [0x47, 0x49, 0x46];
pub const RIFF_MAGIC: [u8; 4] = [0x52, 0x49, 0x46, 0x46];
pub const WEBP_MAGIC: [u8; 4] = [0x57, 0x45, 0x42, 0x50];

/// The signatures as sequences.
pub open spec fn png_magic() -> Seq<u8> {
    seq![0x89u8, 0x50u8, 0x4Eu8, 0x47u8]
}

pub open spec fn jpeg_magic() -> Seq<u8> {
    seq![0xFFu8, 0xD8u8, 0xFFu8]
}

pub open spec fn gif87a_magic() -> Seq<u8> {
    seq![0x47u8, 0x49u8, 0x46u8, 0x38u8, 0x37u8, 0x61u8]
}

pub open spec fn gif89a_magic() -> Seq<u8> {
    seq![0x47u8, 0x49u8, 0x46u8, 0x38u8, 0x39u8, 0x61u8]
}

pub open spec fn gif_magic() -> Seq<u8> {
    seq![0x47u8, 0x49u8, 0x46u8]
}

pub open spec fn riff_magic() -> Seq<u8> {
    seq![0x52u8, 0x49u8, 0x46u8, 0x46u8]
}

pub open spec fn webp_magic() -> Seq<u8> {
    seq![0x57u8, 0x45u8, 0x42u8, 0x50u8]
}

/// Whether `d` is a WebP file: longer than 12 bytes, "RIFF" at the start and
/// "WEBP" at byte 8.
pub open spec fn spec_is_webp(d: Seq<u8>) -> bool {
    d.len() > 12 && d.take(4) == riff_magic() && d.subrange(8, 12) == webp_magic()
}

/// Whether `d` is an image: at least four bytes, and a PNG, JPEG, GIF87a,
/// GIF89a or WebP signature.
pub open spec fn spec_is_image(d: Seq<u8>) -> bool {
    &&& d.len() >= 4
    &&& {
        ||| spec_starts_with(d, png_magic())
        ||| spec_starts_with(d, jpeg_magic())
        ||| spec_starts_with(d, gif87a_magic())
        ||| spec_starts_with(d, gif89a_magic())
        ||| spec_is_webp(d)
    }
}

/// Checks whether bytes at 8 to 12 are "WEBP".
fn webp_tag_at_8(data: &[u8]) -> (r: bool)
    requires
        data@.len() > 12,
    ensures
        r == (data@.subrange(8, 12) == webp_magic()),
{
    let r = starts_with(&data[8..12], &WEBP_MAGIC);
    assert(WEBP_MAGIC@ == webp_magic());
    assert(data@.subrange(8, 12).take(4) =~= data@.subrange(8, 12));
    r
}

/// Checks for common image magic bytes.
pub fn is_image(data: &[u8]) -> (r: bool)
    ensures
        r == spec_is_image(data@),
{
    assert(PNG_MAGIC@ == png_magic());
    assert(JPEG_MAGIC@ == jpeg_magic());
    assert(GIF87A_MAGIC@ == gif87a_magic());
    assert(GIF89A_MAGIC@ == gif89a_magic());
    assert(RIFF_MAGIC@ == riff_magic());
    if data.len() < 4 {
        return false;
    }
    if starts_with(data, &PNG_MAGIC) {
        return true;
    }
    if starts_with(data, &JPEG_MAGIC) {
        return true;
    }
    if starts_with(data, &GIF87A_MAGIC) || starts_with(data, &GIF89A_MAGIC) {
        return true;
    }
    if data.len() > 12 && starts_with(data, &RIFF_MAGIC) && webp_tag_at_8(data) {
        return true;
    }
    false
}

/// The MIME type of image data: PNG, JPEG, GIF ("GIF" at the start), WebP
/// ("WEBP" at byte 8 of more than 12 bytes), else a byte stream.
pub open spec fn spec_image_mime(d: Seq<u8>) -> Seq<char> {
    if spec_starts_with(d, png_magic()) {
        "image/png"@
    } else if spec_starts_with(d, jpeg_magic()) {
        "image/jpeg"@
    } else if spec_starts_with(d, gif_magic()) {
        "image/gif"@
    } else if d.len() > 12 && d.subrange(8, 12) == webp_magic() {
        "image/webp"@
    } else {
        "application/octet-stream"@
    }
}

/// Detects the MIME type of image data from its signature.
pub fn detect_image_mime(data: &[u8]) -> (r: &'static str)
    ensures
        r@ == spec_image_mime(data@),
{
    assert(PNG_MAGIC@ == png_magic());
    assert(JPEG_MAGIC@ == jpeg_magic());
    assert(GIF_MAGIC@ == gif_magic());
    if starts_with(data, &PNG_MAGIC) {
        "image/png"
    } else if starts_with(data, &JPEG_MAGIC) {
        "image/jpeg"
    } else if starts_with(data, &GIF_MAGIC) {
        "image/gif"
    } else if data.len() > 12 && webp_tag_at_8(data) {
        "image/webp"
    } else {
        "application/octet-stream"
    }
}

/// Whether a byte is printable ASCII, a tab, a line feed or a carriage return.
pub open spec fn spec_is_printable(b: u8) -> bool {
    (0x20 <= b && b <= 0x7E) || b == 0x09 || b == 0x0A || b == 0x0D
}

/// The number of printable bytes of `d`.
pub open spec fn spec_printable_count(d: Seq<u8>) -> nat
    decreases d.len(),
{
    if d.len() == 0 {
        0
    } else {
        spec_printable_count(d.drop_last()) + if spec_is_printable(d.last()) {
            1nat
        } else {
            0nat
        }
    }
}

/// Counts the printable bytes of `data`, the measure by which text is recognized.
pub fn printable_count(data: &[u8]) -> (r: usize)
    ensures
        r == spec_printable_count(data@),
{
    let mut count: usize = 0;
    let mut i: usize = 0;
    assert(data@.take(0) =~= Seq::<u8>::empty());
    while i < data.len()
        invariant
            i <= data@.len(),
            count == spec_printable_count(data@.take(i as int)),
            count <= i,
        decreases data@.len() - i,
    {
        let b = data[i];
        assert(data@.take(i + 1).drop_last() =~= data@.take(i as int));
        if (b >= 0x20 && b <= 0x7E) || b == 0x09 || b == 0x0A || b == 0x0D {
            count = count + 1;
        }
        i = i + 1;
    }
    assert(data@.take(i as int) =~= data@);
    count
}

/// The HTML escape of one character: `&`, `<`, `>`, `"` and `'` become
/// entities, every other character stays.
pub open spec fn spec_escape_char(c: char) -> Seq<char> {
    if c == '&' {
        seq!['&', 'a', 'm', 'p', ';']
    } else if c == '<' {
        seq!['&', 'l', 't', ';']
    } else if c == '>' {
        seq!['&', 'g', 't', ';']
    } else if c == '"' {
        seq!['&', 'q', 'u', 'o', 't', ';']
    } else if c == '\'' {
        seq!['&', '#', 'x', '2', '7', ';']
    } else {
        seq![c]
    }
}

/// The HTML escape of a text, character by character.
pub open spec fn spec_html_escape(s: Seq<char>) -> Seq<char>
    decreases s.len(),
{
    if s.len() == 0 {
        Seq::empty()
    } else {
        spec_html_escape(s.drop_last()) + spec_escape_char(s.last())
    }
}

/// Appends the characters of `src` to `dst`.
fn push_chars(dst: &mut Vec<char>, src: &[char])
    ensures
        final(dst)@ == old(dst)@ + src@,
{
    let ghost start = dst@;
    let mut i: usize = 0;
    while i < src.len()
        invariant
            i <= src@.len(),
            dst@ == start + src@.take(i as int),
        decreases src@.len() - i,
    {
        dst.push(src[i]);
        i = i + 1;
        assert(src@.take(i as int) =~= src@.take((i - 1) as int).push(src@[i - 1]));
    }
    assert(src@.take(src@.len() as int) =~= src@);
}

/// Calls `String::from_iter` on the characters of `chars`. The contract claims
/// what its documentation says: the string holds those characters in order.
#[verifier::external_body]
fn string_from_chars(chars: &Vec<char>) -> (r: String)
    ensures
        r@ == chars@,
{
    String::from_iter(chars.iter())
}

/// Calls `str::chars` and collects the characters. The contract claims what
/// its documentation says: the characters of the string, in order.
#[verifier::external_body]
fn chars_of(s: &str) -> (r: Vec<char>)
    ensures
        r@ == s@,
{
    s.chars().collect()
}

/// Escapes `&`, `<`, `>`, `"` and `'` for HTML.
pub fn html_escape(s: &str) -> (r: String)
    ensures
        r@ == spec_html_escape(s@),
{
    let chars = chars_of(s);
    let mut out: Vec<char> = Vec::new();
    let mut i: usize = 0;
    assert(chars@.take(0) =~= Seq::<char>::empty());
    while i < chars.len()
        invariant
            i <= chars@.len(),
            out@ == spec_html_escape(chars@.take(i as int)),
        decreases chars@.len() - i,
    {
        let c = chars[i];
        if c == '&' {
            push_chars(&mut out, &['&', 'a', 'm', 'p', ';']);
        } else if c == '<' {
            push_chars(&mut out, &['&', 'l', 't', ';']);
        } else if c == '>' {
            push_chars(&mut out, &['&', 'g', 't', ';']);
        } else if c == '"' {
            push_chars(&mut out, &['&', 'q', 'u', 'o', 't', ';']);
        } else if c == '\'' {
            push_chars(&mut out, &['&', '#', 'x', '2', '7', ';']);
        } else {
            out.push(c);
        }
        assert(chars@.take(i + 1).drop_last() =~= chars@.take(i as int));
        assert(out@ =~= spec_html_escape(chars@.take(i + 1)));
        i = i + 1;
    }
    assert(chars@.take(i as int) =~= chars@);
    string_from_chars(&out)
}


/// Whether `order` lists the positions of `heights` newest first: every
/// position once, by height from highest to lowest, equal heights in their
/// original order.
pub open spec fn spec_newest_first(heights: Seq<u64>, order: Seq<usize>) -> bool {
    &&& order.len() == heights.len()
    &&& forall|i: int| 0 <= i < order.len() ==> #[trigger] order[i] < heights.len()
    &&& forall|i: int, j: int| 0 <= i < j < order.len() ==> order[i] != order[j]
    &&& forall|i: int, j: int|
        0 <= i < j < order.len() ==> heights[order[i] as int] >= heights[order[j] as int]
    &&& forall|i: int, j: int|
        0 <= i < j < order.len() && heights[order[i] as int] == heights[order[j] as int] ==> order[i] < order[j]
}

/// The order in which the gallery lists knotworks of the given block heights:
/// newest first, knotworks of one block in the order they were read.
pub fn order_newest_first(heights: &[u64]) -> (r: Vec<usize>)
    ensures
        spec_newest_first(heights@, r@),
{
    let ghost h = heights@;
    let mut order: Vec<usize> = Vec::new();
    let mut k: usize = 0;
    while k < heights.len()
        invariant
            k <= h.len(),
            h == heights@,
            order@.len() == k,
            forall|i: int| 0 <= i < order@.len() ==> #[trigger] order@[i] < k,
            forall|i: int, j: int| 0 <= i < j < order@.len() ==> order@[i] != order@[j],
            forall|i: int, j: int|
                0 <= i < j < order@.len() ==> h[order@[i] as int] >= h[order@[j] as int],
            forall|i: int, j: int|
                0 <= i < j < order@.len() && h[order@[i] as int] == h[order@[j] as int] ==> order@[i] < order@[j],
        decreases h.len() - k,
    {
        let hk = heights[k];
        let mut p: usize = order.len();
        while p > 0 && heights[order[p - 1]] < hk
            invariant
                p <= order@.len(),
                h == heights@,
                hk == h[k as int],
                forall|i: int| 0 <= i < order@.len() ==> #[trigger] order@[i] < k,
                k < h.len(),
                forall|q: int| p <= q < order@.len() ==> h[#[trigger] order@[q] as int] < hk,
            decreases p,
        {
            p = p - 1;
        }
        let ghost old_order = order@;
        proof {
            assert forall|q: int| 0 <= q < p implies h[#[trigger] old_order[q] as int] >= hk by {
                if q < p - 1 {
                    assert(h[old_order[q] as int] >= h[old_order[p - 1] as int]);
                }
            }
        }
        order.insert(p, k);
        proof {
            let o = order@;
            assert(o == old_order.insert(p as int, k));
            assert forall|i: int| 0 <= i < o.len() implies #[trigger] o[i] < k + 1 by {
                if i < p {
                    assert(o[i] == old_order[i]);
                } else if i > p {
                    assert(o[i] == old_order[i - 1]);
                }
            }
            assert forall|i: int, j: int| 0 <= i < j < o.len() implies o[i] != o[j] && h[o[i] as int]
                >= h[o[j] as int] && (h[o[i] as int] == h[o[j] as int] ==> o[i] < o[j]) by {
                if i < p && j < p {
                    assert(o[i] == old_order[i] && o[j] == old_order[j]);
                } else if i < p && j == p {
                    assert(o[i] == old_order[i]);
                    assert(h[old_order[i] as int] >= hk);
                } else if i < p && j > p {
                    assert(o[i] == old_order[i] && o[j] == old_order[j - 1]);
                } else if i == p {
                    assert(o[j] == old_order[j - 1]);
                    assert(h[old_order[j - 1] as int] < hk);
                } else {
                    assert(o[i] == old_order[i - 1] && o[j] == old_order[j - 1]);
                }
            }
        }
        k = k + 1;
    }
    order
}


/// How the gallery shows a transaction id: ids longer than 16 characters as
/// their first 8 characters, `...` and their last 8.
pub open spec fn spec_short_txid(s: Seq<char>) -> Seq<char> {
    if s.len() > 16 {
        s.take(8) + seq!['.', '.', '.'] + s.skip(s.len() - 8)
    } else {
        s
    }
}

/// Shortens a transaction id for display. The id is ASCII (hexadecimal), so
/// its characters are its bytes.
pub fn short_txid(txid: &str) -> (r: String)
    requires
        crate::techniques::spec_is_ascii(txid@),
    ensures
        r@ == spec_short_txid(txid@),
{
    let chars = chars_of(txid);
    let n = chars.len();
    if n <= 16 {
        return string_from_chars(&chars);
    }
    let mut out: Vec<char> = Vec::new();
    let mut i: usize = 0;
    while i < 8
        invariant
            i <= 8,
            n == chars@.len(),
            n > 16,
            out@ == chars@.take(i as int),
        decreases 8 - i,
    {
        out.push(chars[i]);
        i = i + 1;
        assert(out@ =~= chars@.take(i as int));
    }
    push_chars(&mut out, &['.', '.', '.']);
    let mut j: usize = n - 8;
    let ghost head = out@;
    while j < n
        invariant
            n - 8 <= j <= n,
            n == chars@.len(),
            n > 16,
            head == chars@.take(8) + seq!['.', '.', '.'],
            out@ == head + chars@.subrange(n - 8, j as int),
        decreases n - j,
    {
        let ghost before = out@;
        out.push(chars[j]);
        assert(out@ == before.push(chars@[j as int]));
        assert(chars@.subrange(n - 8, j + 1) =~= chars@.subrange(n - 8, j as int).push(chars@[j as int]));
        j = j + 1;
        assert(out@ =~= head + chars@.subrange(n - 8, j as int));
    }
    assert(chars@.subrange(n - 8, n as int) =~= chars@.skip(n - 8));
    string_from_chars(&out)
}


/// Data of at least four bytes that opens with a PNG, JPEG (FF D8 FF, whatever
/// the fourth byte: JFIF, EXIF and the others), GIF87a or GIF89a signature is
/// an image, with the MIME type of that format.
pub proof fn law_signatures_are_images(d: Seq<u8>)
    requires
        d.len() >= 4,
    ensures
        d.take(4) == seq![0x89u8, 0x50, 0x4E, 0x47] ==> spec_is_image(d) && spec_image_mime(d) == "image/png"@,
        d.take(3) == seq![0xFFu8, 0xD8, 0xFF] ==> spec_is_image(d) && spec_image_mime(d) == "image/jpeg"@,
        d.len() >= 6 && (d.take(6) == seq![0x47u8, 0x49, 0x46, 0x38, 0x37, 0x61] || d.take(6) == seq![
            0x47u8,
            0x49,
            0x46,
            0x38,
            0x39,
            0x61,
        ]) ==> spec_is_image(d) && spec_image_mime(d) == "image/gif"@,
{
    if d.len() >= 6 && (d.take(6) == gif87a_magic() || d.take(6) == gif89a_magic()) {
        assert(d.take(3) =~= d.take(6).take(3));
        assert(d.take(3) =~= gif_magic());
        assert(d.take(4) != png_magic()) by {
            assert(d.take(4)[0] == d[0]);
        }
        assert(d.take(3) != jpeg_magic()) by {
            assert(d.take(3)[0] == d[0]);
        }
    }
    if d.take(3) == jpeg_magic() {
        assert(d.take(4) != png_magic()) by {
            assert(d.take(4)[0] == d.take(3)[0]);
        }
    }
}


/// Whether `c` must be escaped in HTML.
pub open spec fn spec_html_special(c: char) -> bool {
    c == '&' || c == '<' || c == '>' || c == '"' || c == '\''
}

/// Escaped text holds no `<`, `>`, `"` or `'`, and every `&` in it opens an
/// entity; text without special characters is left as it is.
pub proof fn law_escaped_text_is_safe(s: Seq<char>)
    ensures
        forall|i: int|
            0 <= i < spec_html_escape(s).len() ==> {
                let c = #[trigger] spec_html_escape(s)[i];
                c != '<' && c != '>' && c != '"' && c != '\''
            },
        (forall|i: int| 0 <= i < s.len() ==> !spec_html_special(#[trigger] s[i])) ==> spec_html_escape(s) == s,
        spec_html_escape(s).len() >= s.len(),
    decreases s.len(),
{
    if s.len() > 0 {
        law_escaped_text_is_safe(s.drop_last());
        let e0 = spec_html_escape(s.drop_last());
        let t = spec_escape_char(s.last());
        assert(spec_html_escape(s) == e0 + t);
        assert forall|i: int| 0 <= i < (e0 + t).len() implies {
            let c = #[trigger] (e0 + t)[i];
            c != '<' && c != '>' && c != '"' && c != '\''
        } by {
            if i >= e0.len() {
                assert((e0 + t)[i] == t[i - e0.len()]);
            } else {
                assert((e0 + t)[i] == e0[i]);
            }
        }
        if forall|i: int| 0 <= i < s.len() ==> !spec_html_special(#[trigger] s[i]) {
            assert(!spec_html_special(s[s.len() - 1]));
            assert forall|i: int| 0 <= i < s.drop_last().len() implies !spec_html_special(#[trigger] s.drop_last()[i]) by {
                assert(s.drop_last()[i] == s[i]);
            }
            assert(s.drop_last() + seq![s.last()] =~= s);
        }
    }
}

/// Data of more than 12 bytes with "RIFF" at the start and "WEBP" at byte 8
/// is an image of type WebP.
pub proof fn law_webp_is_image(d: Seq<u8>)
    requires
        d.len() > 12,
        d.take(4) == seq![0x52u8, 0x49, 0x46, 0x46],
        d.subrange(8, 12) == seq![0x57u8, 0x45, 0x42, 0x50],
    ensures
        spec_is_image(d),
        spec_image_mime(d) == "image/webp"@,
{
    assert(d.take(4) != png_magic()) by {
        assert(d.take(4)[0] == d[0]);
    }
    assert(d.take(3) != jpeg_magic()) by {
        assert(d.take(3)[0] == d[0]);
    }
    assert(d.take(3) != gif_magic()) by {
        assert(d.take(3)[0] == d[0]);
    }
}

} // verus!
