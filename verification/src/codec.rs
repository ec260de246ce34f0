//! Bytes in other shapes: hexadecimal text, digests, JSON, UTF-8, pictures.

use vstd::prelude::*;
use vstd::utf8;

verus! {

/// The bytes of `b`, once more.
pub(crate) fn copy_bytes(b: &Vec<u8>) -> (r: Vec<u8>)
    ensures
        r@ == b@,
{
    let mut r: Vec<u8> = Vec::new();
    r.extend_from_slice(b.as_slice());
    assert(r@ =~= b@);
    r
}

/// The hexadecimal digit `n`, in small letters.
pub open spec fn hex_digit(n: int) -> char {
    if n < 10 {
        (48 + n) as char
    } else {
        (87 + n) as char
    }
}

/// `b` in hexadecimal: two digits for every byte.
pub open spec fn hex_text(b: Seq<u8>) -> Seq<char> {
    Seq::new(
        2 * b.len(),
        |i: int|
            if i % 2 == 0 {
                hex_digit(b[i / 2] as int / 16)
            } else {
                hex_digit(b[i / 2] as int % 16)
            },
    )
}

/// `c` is a hexadecimal digit, in small or capital letters.
pub open spec fn is_hex_char(c: char) -> bool {
    '0' <= c <= '9' || 'a' <= c <= 'f' || 'A' <= c <= 'F'
}

/// The number that a hexadecimal digit stands for.
pub open spec fn hex_value(c: char) -> int {
    if '0' <= c <= '9' {
        c as int - 48
    } else if 'a' <= c <= 'f' {
        c as int - 87
    } else {
        c as int - 55
    }
}

/// `s` is a sequence of bytes in hexadecimal.
pub open spec fn is_hex_text(s: Seq<char>) -> bool {
    s.len() % 2 == 0 && forall|i: int| 0 <= i < s.len() ==> is_hex_char(#[trigger] s[i])
}

/// The bytes that hexadecimal text writes.
pub open spec fn hex_bytes(s: Seq<char>) -> Seq<u8> {
    Seq::new(
        s.len() / 2,
        |i: int| (16 * hex_value(s[2 * i]) + hex_value(s[2 * i + 1])) as u8,
    )
}

/// What `hex::decode` says of a text that is not hexadecimal.
pub uninterp spec fn hex_complaint(s: Seq<char>) -> Seq<char>;

/// `b` in hexadecimal, by `hex::encode`: for every byte its high and its low
/// digit, in small letters.
#[verifier::external_body]
pub(crate) fn hex_encode(b: &[u8]) -> (r: String)
    requires
        2 * b@.len() <= usize::MAX,
    ensures
        r@ == hex_text(b@),
{
    hex::encode(b)
}

/// The bytes that `s` writes, by `hex::decode`, which takes digits in small and
/// capital letters and refuses everything else, and an odd number of digits. The
/// wording of a refusal is a function of the text alone and is not stated.
#[verifier::external_body]
pub(crate) fn hex_decode(s: &str) -> (r: Result<Vec<u8>, String>)
    ensures
        match r {
            Ok(v) => is_hex_text(s@) && v@ == hex_bytes(s@),
            Err(e) => !is_hex_text(s@) && e@ == hex_complaint(s@),
        },
{
    hex::decode(s).map_err(|e| e.to_string())
}

/// The SHA-256 digest of a byte sequence.
pub uninterp spec fn sha256(b: Seq<u8>) -> Seq<u8>;

/// The SHA-256 digest of `b`, by `sha2::Sha256::digest`: 32 bytes, a function of
/// the bytes of `b` alone.
#[verifier::external_body]
pub(crate) fn sha256_digest(b: &[u8]) -> (r: Vec<u8>)
    ensures
        r@ == sha256(b@),
        r@.len() == 32,
{
    <sha2::Sha256 as sha2::Digest>::digest(b).to_vec()
}

/// The text that is `b` in UTF-8, by `std::str::from_utf8`: exactly when `b` is
/// valid UTF-8.
#[verifier::external_body]
pub(crate) fn utf8_text(b: &[u8]) -> (r: Option<String>)
    ensures
        r is Some <==> utf8::valid_utf8(b@),
        r is Some ==> r->0@ == utf8::decode_utf8(b@),
{
    std::str::from_utf8(b).ok().map(str::to_string)
}

/// The text that `serde_json` writes for an object with these text and number
/// members.
pub uninterp spec fn json_object_text(
    texts: Seq<(Seq<char>, Seq<char>)>,
    numbers: Seq<(Seq<char>, i64)>,
) -> Seq<char>;

/// What a list of text members says.
pub open spec fn members(texts: Seq<(String, String)>) -> Seq<(Seq<char>, Seq<char>)> {
    texts.map_values(|m: (String, String)| (m.0@, m.1@))
}

/// What a list of number members says.
pub open spec fn number_members(numbers: Seq<(String, i64)>) -> Seq<(Seq<char>, i64)> {
    numbers.map_values(|m: (String, i64)| (m.0@, m.1))
}

/// The object with these members as compact JSON, by `serde_json::Value`'s
/// `to_string`. The text is a function of the members alone; how it escapes them
/// is not stated.
#[verifier::external_body]
pub(crate) fn json_object(texts: Vec<(String, String)>, numbers: Vec<(String, i64)>) -> (r: String)
    ensures
        r@ == json_object_text(members(texts@), number_members(numbers@)),
{
    let mut map = serde_json::Map::new();
    map.extend(texts.into_iter().map(|(k, v)| (k, serde_json::Value::from(v))));
    map.extend(numbers.into_iter().map(|(k, v)| (k, serde_json::Value::from(v))));
    serde_json::Value::Object(map).to_string()
}

/// The PNG file that the `image` crate writes for a picture of RGBA pixels, if it
/// writes one.
pub uninterp spec fn png_written(width: u32, height: u32, rgba: Seq<u8>) -> Option<Seq<u8>>;

/// The width, height and RGBA pixels that the `image` crate reads from a PNG
/// file, or what it says of one that it cannot read.
pub uninterp spec fn png_read(png: Seq<u8>) -> Result<(u32, u32, Seq<u8>), Seq<char>>;

/// The picture as a PNG file, by `image::RgbaImage::from_raw` and `write_to`.
/// There is none when the pixels are too few for the size. The bytes are a
/// function of the size and the pixels alone; which bytes they are is not stated.
#[verifier::external_body]
pub(crate) fn encode_png(width: u32, height: u32, rgba: Vec<u8>) -> (r: Option<Vec<u8>>)
    ensures
        match png_written(width, height, rgba@) {
            Some(b) => r is Some && r->0@ == b,
            None => r is None,
        },
        r is Some ==> 4 * width * height <= rgba@.len(),
{
    let buf: image::RgbaImage = image::RgbaImage::from_raw(width, height, rgba)?;
    let mut out = std::io::Cursor::new(Vec::new());
    buf.write_to(&mut out, image::ImageFormat::Png).ok()?;
    Some(out.into_inner())
}

/// The picture in a PNG file, by `image::load_from_memory_with_format` and
/// `into_rgba8`: four bytes for every pixel. Size, pixels and complaint are a
/// function of the bytes alone; which they are is not stated.
#[verifier::external_body]
pub(crate) fn decode_png(png: &[u8]) -> (r: Result<(u32, u32, Vec<u8>), String>)
    ensures
        match png_read(png@) {
            Ok(p) => r is Ok && (r->Ok_0).0 == p.0 && (r->Ok_0).1 == p.1 && (r->Ok_0).2@ == p.2,
            Err(e) => r is Err && r->Err_0@ == e,
        },
        r is Ok ==> (r->Ok_0).2@.len() == 4 * (r->Ok_0).0 * (r->Ok_0).1,
{
    let img = image::load_from_memory_with_format(png, image::ImageFormat::Png)
        .map_err(|e| e.to_string())?
        .into_rgba8();
    let (w, h) = img.dimensions();
    Ok((w, h, img.into_raw()))
}

/// Writing bytes in hexadecimal and reading them back gives the bytes.
pub proof fn lemma_hex_round_trip(b: Seq<u8>)
    ensures
        is_hex_text(hex_text(b)),
        hex_bytes(hex_text(b)) == b,
{
    let s = hex_text(b);
    assert forall|i: int| 0 <= i < s.len() implies is_hex_char(#[trigger] s[i]) by {}
    assert forall|i: int| 0 <= i < b.len() implies #[trigger] hex_bytes(s)[i] == b[i] by {
        assert((2 * i) / 2 == i && (2 * i) % 2 == 0);
        assert((2 * i + 1) / 2 == i && (2 * i + 1) % 2 == 1);
        assert(s[2 * i] == hex_digit((b[i] / 16) as int));
        assert(s[2 * i + 1] == hex_digit((b[i] % 16) as int));
    }
    assert(hex_bytes(s) =~= b);
}

/// Two digits for every byte, the high one first, in small letters; and capitals are read like
/// small letters.
pub proof fn lemma_digits_of_a_byte(b: Seq<u8>, i: int)
    requires
        0 <= i < b.len(),
    ensures
        hex_text(b).len() == 2 * b.len(),
        hex_text(b)[2 * i] == "0123456789abcdef"@[b[i] as int / 16],
        hex_text(b)[2 * i + 1] == "0123456789abcdef"@[b[i] as int % 16],
        hex_bytes(seq!['A', 'f']) == seq![0xafu8],
{
    reveal_strlit("0123456789abcdef");
    assert((2 * i) / 2 == i && (2 * i) % 2 == 0);
    assert((2 * i + 1) / 2 == i && (2 * i + 1) % 2 == 1);
    let d = "0123456789abcdef"@;
    assert forall|k: int| 0 <= k < 16 implies #[trigger] d[k] == hex_digit(k) by {}
    assert(hex_bytes(seq!['A', 'f']) =~= seq![0xafu8]);
}

} // verus!
