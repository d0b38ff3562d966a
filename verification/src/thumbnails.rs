//! Course thumbnail naming. Images (user-picked or pasted) are stored in the
//! app data dir content-addressed by hash, so identical images dedupe and get
//! a stable path. Writing the file happens outside the library.

use vstd::prelude::*;
use crate::error::DeskemyError;
use crate::hashing::{blake3_of, blake3_digest, hex_lower, to_hex};
use crate::text::{
    lowercase, to_lowercase, chars_of, string_of, slice_chars, append_chars, eq_chars, last_of,
    last_char_before, lemma_last_of,
};

verus! {

/// Whether `b` begins with the bytes `p`.
pub open spec fn has_prefix(b: Seq<u8>, p: Seq<u8>) -> bool {
    p.len() <= b.len() && b.subrange(0, p.len() as int) == p
}

pub open spec fn png_magic() -> Seq<u8> {
    seq![0x89u8, 0x50u8, 0x4Eu8, 0x47u8, 0x0Du8, 0x0Au8, 0x1Au8, 0x0Au8]
}

pub open spec fn jpg_magic() -> Seq<u8> {
    seq![0xFFu8, 0xD8u8, 0xFFu8]
}

/// `GIF87a`.
pub open spec fn gif87_magic() -> Seq<u8> {
    seq![0x47u8, 0x49u8, 0x46u8, 0x38u8, 0x37u8, 0x61u8]
}

/// `GIF89a`.
pub open spec fn gif89_magic() -> Seq<u8> {
    seq![0x47u8, 0x49u8, 0x46u8, 0x38u8, 0x39u8, 0x61u8]
}

/// `RIFF`.
pub open spec fn riff_tag() -> Seq<u8> {
    seq![0x52u8, 0x49u8, 0x46u8, 0x46u8]
}

/// `WEBP`.
pub open spec fn webp_tag() -> Seq<u8> {
    seq![0x57u8, 0x45u8, 0x42u8, 0x50u8]
}

/// `BM`.
pub open spec fn bmp_magic() -> Seq<u8> {
    seq![0x42u8, 0x4Du8]
}

/// The image type named by the bytes' magic number, checked in the order
/// PNG, JPEG, GIF, WebP, BMP.
pub open spec fn sniff_spec(b: Seq<u8>) -> Option<Seq<char>> {
    if has_prefix(b, png_magic()) {
        Some("png"@)
    } else if has_prefix(b, jpg_magic()) {
        Some("jpg"@)
    } else if has_prefix(b, gif87_magic()) || has_prefix(b, gif89_magic()) {
        Some("gif"@)
    } else if b.len() >= 12 && b.subrange(0, 4) == riff_tag() && b.subrange(8, 12)
        == webp_tag() {
        Some("webp"@)
    } else if has_prefix(b, bmp_magic()) {
        Some("bmp"@)
    } else {
        None
    }
}

/// Whether `b[at..at + p.len()]` equals `p`.
fn bytes_at(b: &[u8], at: usize, p: &[u8]) -> (r: bool)
    requires
        at + p@.len() <= usize::MAX,
    ensures
        r == (at + p@.len() <= b@.len() && b@.subrange(at as int, at + p@.len()) == p@),
{
    if b.len() < p.len() || b.len() - p.len() < at {
        return false;
    }
    let mut i: usize = 0;
    while i < p.len()
        invariant
            i <= p@.len(),
            at + p@.len() <= b@.len(),
            b@.len() == b.len(),
            forall|k: int| 0 <= k < i ==> b@[at + k] == p@[k],
        decreases p.len() - i,
    {
        if b[at + i] != p[i] {
            assert(b@.subrange(at as int, at + p@.len())[i as int] != p@[i as int]);
            return false;
        }
        i += 1;
    }
    assert(b@.subrange(at as int, at + p@.len()) =~= p@);
    true
}

/// Best-effort image type detection from magic bytes.
pub fn sniff_ext(bytes: &[u8]) -> (r: Option<&'static str>)
    ensures
        match r {
            Some(s) => sniff_spec(bytes@) == Some(s@),
            None => sniff_spec(bytes@).is_none(),
        },
{
    let png: [u8; 8] = [0x89, 0x50, 0x4E, 0x47, 0x0D, 0x0A, 0x1A, 0x0A];
    let jpg: [u8; 3] = [0xFF, 0xD8, 0xFF];
    let gif87: [u8; 6] = [0x47, 0x49, 0x46, 0x38, 0x37, 0x61];
    let gif89: [u8; 6] = [0x47, 0x49, 0x46, 0x38, 0x39, 0x61];
    let riff: [u8; 4] = [0x52, 0x49, 0x46, 0x46];
    let webp: [u8; 4] = [0x57, 0x45, 0x42, 0x50];
    let bmp: [u8; 2] = [0x42, 0x4D];
    assert(png@ =~= png_magic());
    assert(jpg@ =~= jpg_magic());
    assert(gif87@ =~= gif87_magic());
    assert(gif89@ =~= gif89_magic());
    assert(riff@ =~= riff_tag());
    assert(webp@ =~= webp_tag());
    assert(bmp@ =~= bmp_magic());
    if bytes_at(bytes, 0, &png) {
        Some("png")
    } else if bytes_at(bytes, 0, &jpg) {
        Some("jpg")
    } else if bytes_at(bytes, 0, &gif87) || bytes_at(bytes, 0, &gif89) {
        Some("gif")
    } else if bytes.len() >= 12 && bytes_at(bytes, 0, &riff) && bytes_at(bytes, 8, &webp) {
        Some("webp")
    } else if bytes_at(bytes, 0, &bmp) {
        Some("bmp")
    } else {
        None
    }
}

/// First index at or after `i` that is not a `.`.
pub open spec fn skip_dots(s: Seq<char>, i: int) -> int
    decreases s.len() - i,
{
    if 0 <= i < s.len() && s[i] == '.' {
        skip_dots(s, i + 1)
    } else {
        i
    }
}

proof fn lemma_skip_dots(s: Seq<char>, i: int)
    requires
        0 <= i <= s.len(),
    ensures
        i <= skip_dots(s, i) <= s.len(),
    decreases s.len() - i,
{
    if i < s.len() && s[i] == '.' {
        lemma_skip_dots(s, i + 1);
    }
}

/// `s` without its leading dots (`str::trim_start_matches('.')`).
pub open spec fn strip_leading_dots(s: Seq<char>) -> Seq<char> {
    s.subrange(skip_dots(s, 0), s.len() as int)
}

/// The part after the last `/` (all of `s` when it has none).
pub open spec fn after_last_slash(s: Seq<char>) -> Seq<char> {
    s.subrange(last_of(s, '/', s.len() as int) + 1, s.len() as int)
}

/// A known image extension for a bare lower-case name, png otherwise.
pub open spec fn known_image_ext(n: Seq<char>) -> Seq<char> {
    if n == seq!['j', 'p', 'e', 'g'] || n == seq!['j', 'p', 'g'] {
        "jpg"@
    } else if n == seq!['p', 'n', 'g'] {
        "png"@
    } else if n == seq!['g', 'i', 'f'] {
        "gif"@
    } else if n == seq!['w', 'e', 'b', 'p'] {
        "webp"@
    } else if n == seq!['b', 'm', 'p'] {
        "bmp"@
    } else {
        "png"@
    }
}

/// An extension or MIME hint (".JPEG", "image/png") normalised to a known
/// image extension: leading dots dropped, lower-cased, the part after the
/// last `/` taken.
pub open spec fn sanitize_spec(hint: Seq<char>) -> Seq<char> {
    known_image_ext(after_last_slash(lowercase(strip_leading_dots(hint))))
}

/// Normalize an extension/MIME hint (e.g. ".JPEG" or "image/png") to a bare,
/// known image extension, defaulting to png.
pub fn sanitize_ext(hint: &str) -> (r: &'static str)
    ensures
        r@ == sanitize_spec(hint@),
{
    let v = chars_of(hint);
    let mut i: usize = 0;
    while i < v.len() && v[i] == '.'
        invariant
            i <= v@.len(),
            skip_dots(v@, 0) == skip_dots(v@, i as int),
        decreases v.len() - i,
    {
        i += 1;
    }
    proof {
        lemma_skip_dots(v@, 0);
    }
    let stripped = slice_chars(&v, i, v.len());
    let lower = to_lowercase(&stripped);
    proof {
        lemma_last_of(lower@, '/', lower@.len() as int);
    }
    let start = match last_char_before(&lower, '/', lower.len()) {
        Some(k) => k + 1,
        None => 0,
    };
    let name = slice_chars(&lower, start, lower.len());
    assert(name@ == after_last_slash(lower@));
    if eq_chars(&name, &['j', 'p', 'e', 'g']) || eq_chars(&name, &['j', 'p', 'g']) {
        "jpg"
    } else if eq_chars(&name, &['p', 'n', 'g']) {
        "png"
    } else if eq_chars(&name, &['g', 'i', 'f']) {
        "gif"
    } else if eq_chars(&name, &['w', 'e', 'b', 'p']) {
        "webp"
    } else if eq_chars(&name, &['b', 'm', 'p']) {
        "bmp"
    } else {
        "png"
    }
}

/// The extension a stored thumbnail gets: from the magic number when
/// recognizable, else from the hint, else png.
pub open spec fn chosen_ext(bytes: Seq<u8>, hint: Option<Seq<char>>) -> Seq<char> {
    match sniff_spec(bytes) {
        Some(e) => e,
        None => match hint {
            Some(h) => sanitize_spec(h),
            None => "png"@,
        },
    }
}

/// The file name a thumbnail is stored under: the first 16 hex digits of
/// the BLAKE3 digest of its bytes, a dot, and the chosen extension.
pub open spec fn thumbnail_name_spec(bytes: Seq<u8>, hint: Option<Seq<char>>) -> Seq<char> {
    hex_lower(blake3_of(bytes)).take(16) + seq!['.'] + chosen_ext(bytes, hint)
}

/// The content-addressed file name for thumbnail `bytes`. Empty data is
/// refused.
pub fn thumbnail_name(bytes: &[u8], ext_hint: Option<&str>) -> (r: Result<String, DeskemyError>)
    ensures
        match r {
            Ok(name) => bytes@.len() > 0 && name@ == thumbnail_name_spec(
                bytes@,
                match ext_hint {
                    Some(h) => Some(h@),
                    None => None,
                },
            ),
            Err(e) => bytes@.len() == 0 && (e matches DeskemyError::Other(m) && m@
                == "empty image data"@),
        },
{
    if bytes.len() == 0 {
        return Err(DeskemyError::Other("empty image data".to_owned()));
    }
    let ext: &str = match sniff_ext(bytes) {
        Some(e) => e,
        None => match ext_hint {
            Some(h) => sanitize_ext(h),
            None => "png",
        },
    };
    let digest = blake3_digest(bytes);
    let hex = to_hex(&digest);
    let mut name = slice_chars(&hex, 0, 16);
    assert(name@ == hex_lower(blake3_of(bytes@)).take(16));
    name.push('.');
    let e = chars_of(ext);
    append_chars(&mut name, &e);
    Ok(string_of(&name))
}

/// Identical image data whose type the magic number reveals is stored under
/// one name whatever extension hint came with it, so such copies dedupe.
pub proof fn law_recognized_images_dedupe(
    bytes: Seq<u8>,
    hint_a: Option<Seq<char>>,
    hint_b: Option<Seq<char>>,
)
    requires
        sniff_spec(bytes).is_some(),
    ensures
        thumbnail_name_spec(bytes, hint_a) == thumbnail_name_spec(bytes, hint_b),
{
}


/// Image types by magic number: bytes starting `89 50 4E 47 0D 0A 1A 0A` are
/// PNG, `FF D8 FF` JPEG, `GIF87a`/`GIF89a` GIF, `RIFF....WEBP` WebP and `BM`
/// BMP.
pub proof fn law_magic_numbers(b: Seq<u8>)
    ensures
        b.len() >= 8 && b[0] == 0x89 && b[1] == 0x50 && b[2] == 0x4E && b[3] == 0x47 && b[4] == 0x0D
            && b[5] == 0x0A && b[6] == 0x1A && b[7] == 0x0A ==> sniff_spec(b) == Some(
            seq!['p', 'n', 'g'],
        ),
        b.len() >= 3 && b[0] == 0xFF && b[1] == 0xD8 && b[2] == 0xFF ==> sniff_spec(b) == Some(
            seq!['j', 'p', 'g'],
        ),
        b.len() >= 6 && b[0] == 0x47 && b[1] == 0x49 && b[2] == 0x46 && b[3] == 0x38 && (b[4] == 0x37
            || b[4] == 0x39) && b[5] == 0x61 ==> sniff_spec(b) == Some(seq!['g', 'i', 'f']),
        b.len() >= 12 && b[0] == 0x52 && b[1] == 0x49 && b[2] == 0x46 && b[3] == 0x46 && b[8] == 0x57
            && b[9] == 0x45 && b[10] == 0x42 && b[11] == 0x50 ==> sniff_spec(b) == Some(
            seq!['w', 'e', 'b', 'p'],
        ),
        b.len() >= 2 && b[0] == 0x42 && b[1] == 0x4D ==> sniff_spec(b) == Some(seq!['b', 'm', 'p']),
{
    reveal_strlit("png");
    reveal_strlit("jpg");
    reveal_strlit("gif");
    reveal_strlit("webp");
    reveal_strlit("bmp");
    if b.len() >= 8 {
        assert(b[0] == 0x89 && b[1] == 0x50 && b[2] == 0x4E && b[3] == 0x47 && b[4] == 0x0D && b[5]
            == 0x0A && b[6] == 0x1A && b[7] == 0x0A ==> b.subrange(0, 8) =~= png_magic());
    }
    if b.len() >= 3 {
        assert(b[0] == 0xFF && b[1] == 0xD8 && b[2] == 0xFF ==> b.subrange(0, 3) =~= jpg_magic());
    }
    if b.len() >= 6 {
        assert(b[0] == 0x47 && b[1] == 0x49 && b[2] == 0x46 && b[3] == 0x38 && b[4] == 0x37 && b[5]
            == 0x61 ==> b.subrange(0, 6) =~= gif87_magic());
        assert(b[0] == 0x47 && b[1] == 0x49 && b[2] == 0x46 && b[3] == 0x38 && b[4] == 0x39 && b[5]
            == 0x61 ==> b.subrange(0, 6) =~= gif89_magic());
    }
    if b.len() >= 12 {
        assert(b[0] == 0x52 && b[1] == 0x49 && b[2] == 0x46 && b[3] == 0x46 ==> b.subrange(0, 4)
            =~= riff_tag());
        assert(b[8] == 0x57 && b[9] == 0x45 && b[10] == 0x42 && b[11] == 0x50 ==> b.subrange(8, 12)
            =~= webp_tag());
    }
    if b.len() >= 2 {
        assert(b[0] == 0x42 && b[1] == 0x4D ==> b.subrange(0, 2) =~= bmp_magic());
    }
    // a different first byte rules out the earlier magic numbers
    if b.len() >= 1 {
        assert(b.len() >= 8 ==> b.subrange(0, 8)[0] == b[0]);
        assert(b.len() >= 3 ==> b.subrange(0, 3)[0] == b[0]);
        assert(b.len() >= 6 ==> b.subrange(0, 6)[0] == b[0]);
        assert(b.len() >= 4 ==> b.subrange(0, 4)[0] == b[0]);
    }
}

} // verus!
