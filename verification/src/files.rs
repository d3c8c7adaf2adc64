//! Which file names are offered as pictures.

use vstd::prelude::*;
use vstd::string::StringSliceAdditionalSpecFns;

verus! {

/// `s` ends with `suffix`.
pub open spec fn ends_with(s: Seq<u8>, suffix: Seq<u8>) -> bool {
    suffix.len() <= s.len() && s.subrange(s.len() - suffix.len(), s.len() as int) == suffix
}

/// The UTF-8 bytes of ".png".
pub open spec fn png_suffix() -> Seq<u8> {
    seq![46u8, 112u8, 110u8, 103u8]
}

/// The UTF-8 bytes of ".jpg".
pub open spec fn jpg_suffix() -> Seq<u8> {
    seq![46u8, 106u8, 112u8, 103u8]
}

/// The UTF-8 bytes of ".jpeg".
pub open spec fn jpeg_suffix() -> Seq<u8> {
    seq![46u8, 106u8, 112u8, 101u8, 103u8]
}

/// The UTF-8 bytes of ".webp".
pub open spec fn webp_suffix() -> Seq<u8> {
    seq![46u8, 119u8, 101u8, 98u8, 112u8]
}

/// The UTF-8 bytes of ".bmp".
pub open spec fn bmp_suffix() -> Seq<u8> {
    seq![46u8, 98u8, 109u8, 112u8]
}

/// A file name ends, with this exact case, in ".png", ".jpg", ".jpeg",
/// ".webp" or ".bmp", the formats a target picture may have.
pub open spec fn is_picture_name(name: Seq<u8>) -> bool {
    ||| ends_with(name, png_suffix())
    ||| ends_with(name, jpg_suffix())
    ||| ends_with(name, jpeg_suffix())
    ||| ends_with(name, webp_suffix())
    ||| ends_with(name, bmp_suffix())
}

fn bytes_end_with(s: &[u8], suffix: &Vec<u8>) -> (res: bool)
    ensures
        res == ends_with(s@, suffix@),
{
    let n = s.len();
    let m = suffix.len();
    if m > n {
        return false;
    }
    let off = n - m;
    for i in 0..m
        invariant
            n == s@.len(),
            m == suffix@.len(),
            off == n - m,
            forall|j: int| 0 <= j < i ==> s@[off + j] == #[trigger] suffix@[j],
    {
        if s[off + i] != suffix[i] {
            assert(s@.subrange(off as int, n as int)[i as int] != suffix@[i as int]);
            return false;
        }
    }
    assert(s@.subrange(off as int, n as int) =~= suffix@);
    true
}

/// Whether a file name is offered as a picture: it ends, with this exact
/// case, in ".png", ".jpg", ".jpeg", ".webp" or ".bmp".
pub fn is_supported_image_file(name: &str) -> (res: bool)
    ensures
        res == is_picture_name(name.spec_bytes()),
{
    let bytes = name.as_bytes();
    let png: Vec<u8> = vec![46u8, 112u8, 110u8, 103u8];
    let jpg: Vec<u8> = vec![46u8, 106u8, 112u8, 103u8];
    let jpeg: Vec<u8> = vec![46u8, 106u8, 112u8, 101u8, 103u8];
    let webp: Vec<u8> = vec![46u8, 119u8, 101u8, 98u8, 112u8];
    let bmp: Vec<u8> = vec![46u8, 98u8, 109u8, 112u8];
    assert(png@ =~= png_suffix());
    assert(jpg@ =~= jpg_suffix());
    assert(jpeg@ =~= jpeg_suffix());
    assert(webp@ =~= webp_suffix());
    assert(bmp@ =~= bmp_suffix());
    bytes_end_with(bytes, &png) || bytes_end_with(bytes, &jpg) || bytes_end_with(bytes, &jpeg)
        || bytes_end_with(bytes, &webp) || bytes_end_with(bytes, &bmp)
}

} // verus!
