//! Text encodings of the files the editor opens and saves.

use vstd::prelude::*;
use vstd::string::StringExecFns;
use vstd::utf8::{decode_utf8, encode_utf8, valid_utf8};

verus! {

/// The kind of content a file holds, as told from its first bytes.
#[derive(Debug, Clone, Copy, PartialEq, Eq, Structural)]
pub enum TextEncoding {
    Binary,
    Utf8,
    Utf8Bom,
    Utf16Le,
    Utf16Be,
    Utf32Le,
    Utf32Be,
}

pub open spec fn starts_with(b: Seq<u8>, p: Seq<u8>) -> bool {
    b.len() >= p.len() && b.subrange(0, p.len() as int) == p
}

/// Content inspection: a byte order mark decides first (UTF-32 before UTF-16),
/// then a NUL byte among the first 1024 bytes or a PDF or PNG signature means
/// binary; everything else is UTF-8.
pub open spec fn inspected(b: Seq<u8>) -> TextEncoding {
    if starts_with(b, seq![0xEFu8, 0xBBu8, 0xBFu8]) {
        TextEncoding::Utf8Bom
    } else if starts_with(b, seq![0x00u8, 0x00u8, 0xFEu8, 0xFFu8]) {
        TextEncoding::Utf32Be
    } else if starts_with(b, seq![0xFFu8, 0xFEu8, 0x00u8, 0x00u8]) {
        TextEncoding::Utf32Le
    } else if starts_with(b, seq![0xFEu8, 0xFFu8]) {
        TextEncoding::Utf16Be
    } else if starts_with(b, seq![0xFFu8, 0xFEu8]) {
        TextEncoding::Utf16Le
    } else if exists|i: int| 0 <= i < b.len() && i < 1024 && b[i] == 0u8 {
        TextEncoding::Binary
    } else if starts_with(b, seq![0x25u8, 0x50u8, 0x44u8, 0x46u8]) || starts_with(
        b,
        seq![0x89u8, 0x50u8, 0x4Eu8, 0x47u8],
    ) {
        TextEncoding::Binary
    } else {
        TextEncoding::Utf8
    }
}

/// The usual name of an encoding.
pub open spec fn encoding_name(e: TextEncoding) -> Seq<char> {
    match e {
        TextEncoding::Binary => "binary"@,
        TextEncoding::Utf8 => "UTF-8"@,
        TextEncoding::Utf8Bom => "UTF-8-BOM"@,
        TextEncoding::Utf16Le => "UTF-16LE"@,
        TextEncoding::Utf16Be => "UTF-16BE"@,
        TextEncoding::Utf32Le => "UTF-32LE"@,
        TextEncoding::Utf32Be => "UTF-32BE"@,
    }
}

/// Relies on content_inspector::inspect, whose whole rule `inspected` restates.
#[verifier::external_body]
fn inspect_content(data: &[u8]) -> (r: TextEncoding)
    ensures
        r == inspected(data@),
{
    match content_inspector::inspect(data) {
        content_inspector::ContentType::BINARY => TextEncoding::Binary,
        content_inspector::ContentType::UTF_8 => TextEncoding::Utf8,
        content_inspector::ContentType::UTF_8_BOM => TextEncoding::Utf8Bom,
        content_inspector::ContentType::UTF_16LE => TextEncoding::Utf16Le,
        content_inspector::ContentType::UTF_16BE => TextEncoding::Utf16Be,
        content_inspector::ContentType::UTF_32LE => TextEncoding::Utf32Le,
        content_inspector::ContentType::UTF_32BE => TextEncoding::Utf32Be,
    }
}

/// The UTF-16 code units of one character.
pub open spec fn utf16_of_char(c: char) -> Seq<u16> {
    let v = c as u32;
    if v < 0x10000 {
        seq![v as u16]
    } else {
        let w = (v - 0x10000) as u32;
        seq![(0xD800 + w / 0x400) as u16, (0xDC00 + w % 0x400) as u16]
    }
}

/// The UTF-16 code units of a text.
pub open spec fn utf16_of(s: Seq<char>) -> Seq<u16>
    decreases s.len(),
{
    if s.len() == 0 {
        Seq::empty()
    } else {
        utf16_of(s.drop_last()) + utf16_of_char(s.last())
    }
}

/// The text's characters as UTF-16 code units.
fn utf16_units(s: &str) -> (r: Vec<u16>)
    ensures
        r@ == utf16_of(s@),
{
    let n = s.unicode_len();
    let mut out: Vec<u16> = Vec::new();
    let mut i: usize = 0;
    while i < n
        invariant
            n == s@.len(),
            0 <= i <= n,
            out@ == utf16_of(s@.subrange(0, i as int)),
        decreases n - i,
    {
        let c = s.get_char(i);
        let v = c as u32;
        let ghost before = out@;
        if v < 0x10000 {
            out.push(v as u16);
        } else {
            let w = v - 0x10000;
            out.push((0xD800 + w / 0x400) as u16);
            out.push((0xDC00 + w % 0x400) as u16);
        }
        proof {
            assert(s@.subrange(0, i + 1).drop_last() =~= s@.subrange(0, i as int));
            assert(s@.subrange(0, i + 1).last() == c);
            assert(out@ =~= before + utf16_of_char(c));
        }
        i = i + 1;
    }
    proof {
        assert(s@.subrange(0, n as int) =~= s@);
    }
    out
}

/// Relies on byteorder's LittleEndian::write_u16: low byte first.
#[verifier::external_body]
fn u16_le_bytes(n: u16) -> (r: Vec<u8>)
    ensures
        r@ == seq![(n % 256) as u8, (n / 256) as u8],
{
    let mut buf = vec![0u8; 2];
    <byteorder::LittleEndian as byteorder::ByteOrder>::write_u16(&mut buf, n);
    buf
}

/// Relies on byteorder's BigEndian::write_u16: high byte first.
#[verifier::external_body]
fn u16_be_bytes(n: u16) -> (r: Vec<u8>)
    ensures
        r@ == seq![(n / 256) as u8, (n % 256) as u8],
{
    let mut buf = vec![0u8; 2];
    <byteorder::BigEndian as byteorder::ByteOrder>::write_u16(&mut buf, n);
    buf
}

/// What encoding_rs makes of `data` asked for UTF-16LE; a leading byte order
/// mark, if any, picks the encoding instead and is dropped.
pub uninterp spec fn utf16le_decoded(data: Seq<u8>) -> Seq<char>;

/// What encoding_rs makes of `data` asked for UTF-16BE; a leading byte order
/// mark, if any, picks the encoding instead and is dropped.
pub uninterp spec fn utf16be_decoded(data: Seq<u8>) -> Seq<char>;

/// Relies on encoding_rs's Encoding::decode, applied to UTF_16LE.
#[verifier::external_body]
fn decode_utf16le(data: &[u8]) -> (r: String)
    ensures
        r@ == utf16le_decoded(data@),
{
    encoding_rs::UTF_16LE.decode(data).0.into_owned()
}

/// Relies on encoding_rs's Encoding::decode, applied to UTF_16BE.
#[verifier::external_body]
fn decode_utf16be(data: &[u8]) -> (r: String)
    ensures
        r@ == utf16be_decoded(data@),
{
    encoding_rs::UTF_16BE.decode(data).0.into_owned()
}

/// Relies on String::from_utf8: it accepts exactly the valid UTF-8 byte strings.
#[verifier::external_body]
fn utf8_text(data: Vec<u8>) -> (r: Option<String>)
    ensures
        r is Some <==> valid_utf8(data@),
        r matches Some(s) ==> s@ == decode_utf8(data@),
{
    String::from_utf8(data).ok()
}

/// Code units laid out as bytes, in the given byte order.
pub open spec fn utf16_bytes(units: Seq<u16>, big_endian: bool) -> Seq<u8>
    decreases units.len(),
{
    if units.len() == 0 {
        Seq::empty()
    } else {
        let u = units.last();
        let pair = if big_endian {
            seq![(u / 256) as u8, (u % 256) as u8]
        } else {
            seq![(u % 256) as u8, (u / 256) as u8]
        };
        utf16_bytes(units.drop_last(), big_endian) + pair
    }
}

/// The byte order mark of a UTF-16 encoding.
pub open spec fn utf16_bom(big_endian: bool) -> Seq<u8> {
    if big_endian {
        seq![0xFEu8, 0xFFu8]
    } else {
        seq![0xFFu8, 0xFEu8]
    }
}

/// Tells what kind of content `data` holds.
pub fn detect_encoding(data: &[u8]) -> (r: TextEncoding)
    ensures
        r == inspected(data@),
{
    inspect_content(data)
}

impl TextEncoding {
    /// The usual name of the encoding.
    pub fn name(&self) -> (r: String)
        ensures
            r@ == encoding_name(*self),
    {
        match self {
            TextEncoding::Binary => String::from_str("binary"),
            TextEncoding::Utf8 => String::from_str("UTF-8"),
            TextEncoding::Utf8Bom => String::from_str("UTF-8-BOM"),
            TextEncoding::Utf16Le => String::from_str("UTF-16LE"),
            TextEncoding::Utf16Be => String::from_str("UTF-16BE"),
            TextEncoding::Utf32Le => String::from_str("UTF-32LE"),
            TextEncoding::Utf32Be => String::from_str("UTF-32BE"),
        }
    }
}

/// The name of the encoding `data` is in.
pub fn detect_encoding_str(data: &[u8]) -> (r: String)
    ensures
        r@ == encoding_name(inspected(data@)),
{
    detect_encoding(data).name()
}

/// `text` encoded as UTF-16 with a byte order mark, in the byte order of
/// `encoding`; `None` when `encoding` is not a UTF-16 one.
pub fn encode_to_utf16(text: &str, encoding: TextEncoding) -> (r: Option<Vec<u8>>)
    ensures
        match encoding {
            TextEncoding::Utf16Le => r matches Some(b) && b@ == utf16_bom(false) + utf16_bytes(
                utf16_of(text@),
                false,
            ),
            TextEncoding::Utf16Be => r matches Some(b) && b@ == utf16_bom(true) + utf16_bytes(
                utf16_of(text@),
                true,
            ),
            _ => r is None,
        },
{
    let big_endian = match encoding {
        TextEncoding::Utf16Le => false,
        TextEncoding::Utf16Be => true,
        _ => {
            return None;
        },
    };
    let mut buf: Vec<u8> = Vec::new();
    if big_endian {
        buf.push(0xFEu8);
        buf.push(0xFFu8);
    } else {
        buf.push(0xFFu8);
        buf.push(0xFEu8);
    }
    let units = utf16_units(text);
    let mut i: usize = 0;
    while i < units.len()
        invariant
            0 <= i <= units@.len(),
            buf@ == utf16_bom(big_endian) + utf16_bytes(units@.subrange(0, i as int), big_endian),
        decreases units@.len() - i,
    {
        let pair = if big_endian {
            u16_be_bytes(units[i])
        } else {
            u16_le_bytes(units[i])
        };
        buf.push(pair[0]);
        buf.push(pair[1]);
        proof {
            assert(units@.subrange(0, i + 1).drop_last() =~= units@.subrange(0, i as int));
            assert(buf@ =~= utf16_bom(big_endian) + utf16_bytes(units@.subrange(0, i + 1), big_endian));
        }
        i = i + 1;
    }
    proof {
        assert(units@.subrange(0, i as int) =~= units@);
    }
    Some(buf)
}


/// The message refusing to save a file in encoding `e`.
pub open spec fn unsupported_message(e: TextEncoding) -> Seq<char> {
    "Write support for '"@ + encoding_name(e) + "' encoding is unavailable."@
}

/// The bytes to write when saving `content` to a file in `encoding`: UTF-8
/// files get the text's UTF-8 bytes, UTF-16 files a byte order mark and the
/// text in that byte order; other encodings cannot be written.
pub fn encode_for_save(content: &str, encoding: TextEncoding) -> (r: Result<Vec<u8>, String>)
    ensures
        match encoding {
            TextEncoding::Utf8 | TextEncoding::Utf8Bom => r matches Ok(b) && b@ == encode_utf8(content@),
            TextEncoding::Utf16Le => r matches Ok(b) && b@ == utf16_bom(false) + utf16_bytes(
                utf16_of(content@),
                false,
            ),
            TextEncoding::Utf16Be => r matches Ok(b) && b@ == utf16_bom(true) + utf16_bytes(
                utf16_of(content@),
                true,
            ),
            _ => r matches Err(m) && m@ == unsupported_message(encoding),
        },
{
    match encoding {
        TextEncoding::Utf8 | TextEncoding::Utf8Bom => {
            let bytes = content.as_bytes();
            let mut out: Vec<u8> = Vec::new();
            let mut i: usize = 0;
            while i < bytes.len()
                invariant
                    0 <= i <= bytes@.len(),
                    out@ == bytes@.subrange(0, i as int),
                decreases bytes@.len() - i,
            {
                out.push(bytes[i]);
                i = i + 1;
                proof {
                    assert(out@ =~= bytes@.subrange(0, i as int));
                }
            }
            proof {
                assert(out@ =~= bytes@);
            }
            Ok(out)
        },
        TextEncoding::Utf16Le | TextEncoding::Utf16Be => match encode_to_utf16(content, encoding) {
            Some(b) => Ok(b),
            None => Err(String::new()),
        },
        _ => {
            let name = encoding.name();
            let msg = String::from_str("Write support for '").concat(name.as_str()).concat(
                "' encoding is unavailable.",
            );
            Err(msg)
        },
    }
}

/// The text of a file whose bytes are `data`, decoded as its content
/// inspection says; `None` for binary, UTF-32 and invalid UTF-8 content.
pub fn decode_file_contents(data: Vec<u8>) -> (r: Option<String>)
    ensures
        match inspected(data@) {
            TextEncoding::Utf8 | TextEncoding::Utf8Bom => (r is Some <==> valid_utf8(data@)) && (
            r matches Some(s) ==> s@ == decode_utf8(data@)),
            TextEncoding::Utf16Le => r matches Some(s) && s@ == utf16le_decoded(data@),
            TextEncoding::Utf16Be => r matches Some(s) && s@ == utf16be_decoded(data@),
            _ => r is None,
        },
{
    match detect_encoding(data.as_slice()) {
        TextEncoding::Utf8 | TextEncoding::Utf8Bom => utf8_text(data),
        TextEncoding::Utf16Le => Some(decode_utf16le(data.as_slice())),
        TextEncoding::Utf16Be => Some(decode_utf16be(data.as_slice())),
        _ => None,
    }
}

} // verus!
