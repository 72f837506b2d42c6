//! Image-set ingestion rules: raster orientation, accepted file types and the
//! decoding of orientation metadata embedded in EXIF and XMP.

use vstd::prelude::*;
use crate::text::{
    ascii_lower_seq, chars_ascii_lower, chars_eq, chars_find_from, find_first, find_from,
    lemma_skip_white_space_bounds, str_chars, string_from_chars, trim_bounds, trimmed,
    trimmed_start,
};

verus! {

/// EXIF 0x0112 image raster orientation (how the physical image is rotated on disk).
#[derive(Debug, Clone, Copy, PartialEq, Eq, Structural)]
pub enum ImageOrientation {
    /// Normal (1): no rotation, top-left origin.
    Normal,
    /// Flipped horizontally (2).
    FlipHorizontal,
    /// Rotated 180° (3).
    Rotate180,
    /// Flipped vertically (4).
    FlipVertical,
    /// Rotated 90° CCW, then flipped horizontally (5).
    Rotate270FlipH,
    /// Rotated 90° CW (6).
    Rotate90,
    /// Rotated 90° CW, then flipped horizontally (7).
    Rotate90FlipH,
    /// Rotated 270° CW (8).
    Rotate270,
}

/// Whether an orientation turns the raster by a quarter turn, exchanging its
/// width and height.
pub open spec fn swaps_axes(o: ImageOrientation) -> bool {
    o is Rotate90 || o is Rotate270 || o is Rotate270FlipH || o is Rotate90FlipH
}

/// The orientation that an EXIF orientation tag value names; values outside
/// 1..=8 mean no transformation.
pub open spec fn orientation_for_tag(tag: u16) -> ImageOrientation {
    if tag == 2 {
        ImageOrientation::FlipHorizontal
    } else if tag == 3 {
        ImageOrientation::Rotate180
    } else if tag == 4 {
        ImageOrientation::FlipVertical
    } else if tag == 5 {
        ImageOrientation::Rotate270FlipH
    } else if tag == 6 {
        ImageOrientation::Rotate90
    } else if tag == 7 {
        ImageOrientation::Rotate90FlipH
    } else if tag == 8 {
        ImageOrientation::Rotate270
    } else {
        ImageOrientation::Normal
    }
}

impl ImageOrientation {
    /// Get the oriented (output) dimensions from raw (input) pixel dimensions.
    /// Swaps width/height for 90° and 270° rotations.
    pub fn oriented_dimensions(&self, raw_width: u32, raw_height: u32) -> (r: (u32, u32))
        ensures
            r == (if swaps_axes(*self) {
                (raw_height, raw_width)
            } else {
                (raw_width, raw_height)
            }),
    {
        match self {
            ImageOrientation::Rotate90
            | ImageOrientation::Rotate270
            | ImageOrientation::Rotate270FlipH
            | ImageOrientation::Rotate90FlipH => (raw_height, raw_width),
            _ => (raw_width, raw_height),
        }
    }

    /// The orientation named by the value of the EXIF orientation tag.
    pub fn from_exif_tag(tag: u16) -> (r: ImageOrientation)
        ensures
            r == orientation_for_tag(tag),
    {
        match tag {
            2 => ImageOrientation::FlipHorizontal,
            3 => ImageOrientation::Rotate180,
            4 => ImageOrientation::FlipVertical,
            5 => ImageOrientation::Rotate270FlipH,
            6 => ImageOrientation::Rotate90,
            7 => ImageOrientation::Rotate90FlipH,
            8 => ImageOrientation::Rotate270,
            _ => ImageOrientation::Normal,
        }
    }
}

impl Default for ImageOrientation {
    fn default() -> (r: ImageOrientation)
        ensures
            r == ImageOrientation::Normal,
    {
        ImageOrientation::Normal
    }
}

/// Provenance for an optional per-frame camera attitude prior.
#[derive(Debug, Clone, Copy, PartialEq, Eq, Structural)]
pub enum OrientationPriorSource {
    /// Standard EXIF `GPSImgDirection` tag.
    ExifGpsImageDirection,
    /// Standard EXIF `GPSTrack` tag.
    ExifGpsTrack,
    /// Generic XMP yaw/pitch/roll fields.
    XmpGeneric,
    /// DJI XMP yaw/pitch/roll fields.
    XmpDji,
    /// DJI MakerNote fallback.
    DjiMakerNote,
}

/// Whether a file extension, compared without regard to ASCII case, is one
/// of the accepted drone image types: jpg, jpeg, png, tif, tiff.
pub open spec fn is_accepted_extension_spec(ext: Seq<char>) -> bool {
    let e = ascii_lower_seq(ext);
    e == "jpg"@ || e == "jpeg"@ || e == "png"@ || e == "tif"@ || e == "tiff"@
}

/// Whether a file with extension `ext` is taken as an input image.
pub fn is_accepted_extension(ext: &str) -> (r: bool)
    ensures
        r == is_accepted_extension_spec(ext@),
{
    let e = chars_ascii_lower(&str_chars(ext));
    chars_eq(&e, &str_chars("jpg")) || chars_eq(&e, &str_chars("jpeg")) || chars_eq(
        &e,
        &str_chars("png"),
    ) || chars_eq(&e, &str_chars("tif")) || chars_eq(&e, &str_chars("tiff"))
}

/// The XMP packet inside `text`: from the first `<x:xmpmeta` (or, when there
/// is none, the first `<?xpacket`) up to and including the first
/// `</x:xmpmeta>` after it, or to the end of the text when that is missing.
pub open spec fn xmp_block(text: Seq<char>) -> Option<Seq<char>> {
    let start = match find_first(text, "<x:xmpmeta"@) {
        Some(i) => Some(i),
        None => find_first(text, "<?xpacket"@),
    };
    match start {
        None => None,
        Some(s) => {
            let end = match find_from(text, "</x:xmpmeta>"@, s) {
                Some(k) => k + "</x:xmpmeta>"@.len(),
                None => text.len() as int,
            };
            Some(text.subrange(s, end))
        },
    }
}

/// Returns the XMP packet embedded in `text`, if any.
pub fn extract_xmp_block(text: &str) -> (r: Option<String>)
    ensures
        match xmp_block(text@) {
            Some(b) => r matches Some(s) && s@ == b,
            None => r is None,
        },
{
    let v = str_chars(text);
    let n = v.len();
    let open = str_chars("<x:xmpmeta");
    let packet = str_chars("<?xpacket");
    let close = str_chars("</x:xmpmeta>");
    let start = match chars_find_from(&v, &open, 0) {
        Some(i) => Some(i),
        None => chars_find_from(&v, &packet, 0),
    };
    match start {
        None => None,
        Some(s) => {
            proof {
                crate::text::lemma_find_from_first(v@, open@, 0);
                crate::text::lemma_find_from_first(v@, packet@, 0);
            }
            let end = match chars_find_from(&v, &close, s) {
                Some(k) => {
                    proof {
                        crate::text::lemma_find_from_first(v@, close@, s as int);
                    }
                    k + close.len()
                },
                None => v.len(),
            };
            Some(string_from_chars(&v, s, end))
        },
    }
}

/// The text of the XMP attribute `key`: after the first occurrence of `key`,
/// the first `=`, then optional white space and a quote (`"` or `'`); the
/// value runs to the next occurrence of that quote and is given without
/// surrounding white space.
pub open spec fn xmp_attr_text(text: Seq<char>, key: Seq<char>) -> Option<Seq<char>> {
    match find_first(text, key) {
        None => None,
        Some(anchor) => {
            let after_key = text.subrange(anchor + key.len(), text.len() as int);
            match find_first(after_key, seq!['=']) {
                None => None,
                Some(eq) => {
                    let after_eq = trimmed_start(
                        after_key.subrange(eq + 1, after_key.len() as int),
                    );
                    if after_eq.len() == 0 {
                        None
                    } else {
                        let quote = after_eq[0];
                        if quote != '"' && quote != '\'' {
                            None
                        } else {
                            let after_quote = after_eq.subrange(1, after_eq.len() as int);
                            match find_first(after_quote, seq![quote]) {
                                None => None,
                                Some(end) => Some(trimmed(after_quote.subrange(0, end))),
                            }
                        }
                    }
                },
            }
        },
    }
}

/// The characters of `v[from..]`.
fn chars_tail(v: &Vec<char>, from: usize) -> (r: Vec<char>)
    requires
        from <= v@.len(),
    ensures
        r@ == v@.subrange(from as int, v@.len() as int),
{
    let mut r: Vec<char> = Vec::new();
    let mut i: usize = from;
    while i < v.len()
        invariant
            from <= i <= v@.len(),
            r@ == v@.subrange(from as int, i as int),
        decreases v.len() - i,
    {
        r.push(v[i]);
        assert(v@.subrange(from as int, i + 1) == v@.subrange(from as int, i as int).push(
            v@[i as int],
        ));
        i = i + 1;
    }
    r
}

/// Returns the value text of the XMP attribute `key` in `text`, if present
/// and quoted.
pub fn extract_single_xmp_attr_text(text: &str, key: &str) -> (r: Option<String>)
    ensures
        match xmp_attr_text(text@, key@) {
            Some(t) => r matches Some(s) && s@ == t,
            None => r is None,
        },
{
    let v = str_chars(text);
    let n = v.len();
    let k = str_chars(key);
    let anchor = match chars_find_from(&v, &k, 0) {
        None => return None,
        Some(a) => a,
    };
    proof {
        crate::text::lemma_find_from_first(v@, k@, 0);
    }
    let after_key = chars_tail(&v, anchor + k.len());
    let mut eq_pat: Vec<char> = Vec::new();
    eq_pat.push('=');
    assert(eq_pat@ == seq!['=']);
    let eq = match chars_find_from(&after_key, &eq_pat, 0) {
        None => return None,
        Some(e) => e,
    };
    proof {
        crate::text::lemma_find_from_first(after_key@, eq_pat@, 0);
    }
    let m = after_key.len();
    assert(eq + 1 <= m);
    let after_eq_raw = chars_tail(&after_key, eq + 1);
    let (ws_end, _) = trim_bounds(&after_eq_raw);
    proof {
        lemma_skip_white_space_bounds(after_eq_raw@, 0);
    }
    let after_eq = chars_tail(&after_eq_raw, ws_end);
    assert(after_eq@ == trimmed_start(after_eq_raw@));
    if after_eq.len() == 0 {
        return None;
    }
    let quote = after_eq[0];
    if quote != '"' && quote != '\'' {
        return None;
    }
    let after_quote = chars_tail(&after_eq, 1);
    let mut quote_pat: Vec<char> = Vec::new();
    quote_pat.push(quote);
    assert(quote_pat@ == seq![quote]);
    let end = match chars_find_from(&after_quote, &quote_pat, 0) {
        None => return None,
        Some(e) => e,
    };
    proof {
        crate::text::lemma_find_from_first(after_quote@, quote_pat@, 0);
    }
    let value = chars_head(&after_quote, end);
    let (a, b) = trim_bounds(&value);
    Some(string_from_chars(&value, a, b))
}

/// The characters of `v[..to]`.
fn chars_head(v: &Vec<char>, to: usize) -> (r: Vec<char>)
    requires
        to <= v@.len(),
    ensures
        r@ == v@.subrange(0, to as int),
{
    let mut r: Vec<char> = Vec::new();
    let mut i: usize = 0;
    while i < to
        invariant
            i <= to <= v@.len(),
            r@ == v@.subrange(0, i as int),
        decreases to - i,
    {
        r.push(v[i]);
        assert(v@.subrange(0, i + 1) == v@.subrange(0, i as int).push(v@[i as int]));
        i = i + 1;
    }
    r
}

/// The little-endian 16-bit value at `b[i..i + 2]`.
pub open spec fn le_u16(b: Seq<u8>, i: int) -> int {
    b[i] + 256 * b[i + 1]
}

/// The little-endian 32-bit value at `b[i..i + 4]`.
pub open spec fn le_u32(b: Seq<u8>, i: int) -> int {
    b[i] + 256 * b[i + 1] + 65536 * b[i + 2] + 16777216 * b[i + 3]
}

/// The heading bits found among the maker-note entries `e..count`. Entries
/// follow a two-byte count and take twelve bytes each: tag, type, value
/// count, value. The heading is the first entry with tag 7, type 11 (a
/// 32-bit float) and one value; the search stops at the first entry that
/// runs past the end of the data.
pub open spec fn dji_heading_from(b: Seq<u8>, count: int, e: int) -> Option<u32>
    decreases count - e,
{
    if e < 0 || e >= count || 2 + 12 * e + 12 > b.len() {
        None
    } else {
        let o = 2 + 12 * e;
        if le_u16(b, o) == 7 && le_u16(b, o + 2) == 11 && le_u32(b, o + 4) == 1 {
            Some(le_u32(b, o + 8) as u32)
        } else {
            dji_heading_from(b, count, e + 1)
        }
    }
}

/// The bits of the 32-bit float heading in a DJI maker note, if present.
pub open spec fn dji_makernote_heading_bits(b: Seq<u8>) -> Option<u32> {
    if b.len() < 2 {
        None
    } else {
        dji_heading_from(b, le_u16(b, 0), 0)
    }
}

/// Finds the heading entry of a DJI maker note and returns the bits of its
/// little-endian 32-bit float value.
pub fn parse_dji_makernote_heading_bits(bytes: &[u8]) -> (r: Option<u32>)
    ensures
        r == dji_makernote_heading_bits(bytes@),
{
    let n = bytes.len();
    if n < 2 {
        return None;
    }
    let count: usize = bytes[0] as usize + (bytes[1] as usize) * 256;
    let mut offset: usize = 2;
    let mut e: usize = 0;
    while e < count
        invariant
            n == bytes@.len(),
            2 <= n,
            count == le_u16(bytes@, 0),
            count <= 65535,
            e <= count,
            offset == 2 + 12 * e,
            dji_heading_from(bytes@, count as int, e as int) == dji_heading_from(
                bytes@,
                count as int,
                0,
            ),
        decreases count - e,
    {
        if offset + 12 > n {
            return None;
        }
        let tag: u32 = bytes[offset] as u32 + (bytes[offset + 1] as u32) * 256;
        let field_type: u32 = bytes[offset + 2] as u32 + (bytes[offset + 3] as u32) * 256;
        let value_count: u32 = bytes[offset + 4] as u32 + (bytes[offset + 5] as u32) * 256
            + (bytes[offset + 6] as u32) * 65536 + (bytes[offset + 7] as u32) * 16777216;
        if tag == 7 && field_type == 11 && value_count == 1 {
            let bits: u32 = bytes[offset + 8] as u32 + (bytes[offset + 9] as u32) * 256
                + (bytes[offset + 10] as u32) * 65536 + (bytes[offset + 11] as u32) * 16777216;
            return Some(bits);
        }
        e = e + 1;
        offset = offset + 12;
    }
    None
}

} // verus!
