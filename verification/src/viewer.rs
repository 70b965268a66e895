use crate::bytes::{le16, le32, read_le16, read_le32};
use crate::text::{
    chars_of, dec_spec, ends, ends_with_spec, push_chars, push_dec, push_line, push_str,
    push_str_line, slice_range, strs, trim_start_index, trim_start_spec,
};
use vstd::prelude::*;
use vstd::string::StringSliceAdditionalSpecFns;
use vstd::utf8::{decode_utf8, valid_utf8, valid_first_scalar, decode_first_scalar};

verus! {

/// A file format recognised by its leading bytes (or, for text, by its content and name).
#[derive(Debug, Clone, Copy, PartialEq, Eq, Structural)]
pub enum DetectedFormat {
    Pdf,
    Png,
    Jpeg,
    Bmp,
    Qoi,
    Wav,
    Mp3,
    Wasm,
    Json,
    Markdown,
    SourceCode,
    PlainText,
    Binary,
}

pub open spec fn format_name(f: DetectedFormat) -> &'static str {
    match f {
        DetectedFormat::Pdf => "PDF Document",
        DetectedFormat::Png => "PNG Raster Image",
        DetectedFormat::Jpeg => "JPEG Photo Image",
        DetectedFormat::Bmp => "Windows Bitmap Image",
        DetectedFormat::Qoi => "Quite OK Image (QOI)",
        DetectedFormat::Wav => "WAV PCM Audio Stream",
        DetectedFormat::Mp3 => "MP3 Compressed Audio",
        DetectedFormat::Wasm => "WebAssembly Bytecode Module",
        DetectedFormat::Json => "JSON Data Object",
        DetectedFormat::Markdown => "Markdown Document",
        DetectedFormat::SourceCode => "Source Code File",
        DetectedFormat::PlainText => "UTF-8 Plain Text",
        DetectedFormat::Binary => "Binary Raw Data",
    }
}

/// Each format has a name of its own: two different formats never share a name.
pub proof fn lemma_format_names_distinct(a: DetectedFormat, b: DetectedFormat)
    requires
        a != b,
    ensures
        format_name(a)@ != format_name(b)@,
{
    reveal_strlit("PDF Document");
    reveal_strlit("PNG Raster Image");
    reveal_strlit("JPEG Photo Image");
    reveal_strlit("Windows Bitmap Image");
    reveal_strlit("Quite OK Image (QOI)");
    reveal_strlit("WAV PCM Audio Stream");
    reveal_strlit("MP3 Compressed Audio");
    reveal_strlit("WebAssembly Bytecode Module");
    reveal_strlit("JSON Data Object");
    reveal_strlit("Markdown Document");
    reveal_strlit("Source Code File");
    reveal_strlit("UTF-8 Plain Text");
    reveal_strlit("Binary Raw Data");
    let x = format_name(a)@;
    let y = format_name(b)@;
    if x == y {
        assert(x[0] == y[0] && x[1] == y[1]);
    }
}

pub open spec fn format_icon(f: DetectedFormat) -> &'static str {
    match f {
        DetectedFormat::Pdf => "📑",
        DetectedFormat::Png | DetectedFormat::Jpeg | DetectedFormat::Bmp | DetectedFormat::Qoi => "🖼️",
        DetectedFormat::Wav | DetectedFormat::Mp3 => "🎵",
        DetectedFormat::Wasm => "⚙️",
        DetectedFormat::Json | DetectedFormat::Markdown | DetectedFormat::SourceCode
        | DetectedFormat::PlainText => "📄",
        DetectedFormat::Binary => "💾",
    }
}

impl DetectedFormat {
    pub fn name(&self) -> (r: &'static str)
        ensures
            r == format_name(*self),
    {
        match self {
            DetectedFormat::Pdf => "PDF Document",
            DetectedFormat::Png => "PNG Raster Image",
            DetectedFormat::Jpeg => "JPEG Photo Image",
            DetectedFormat::Bmp => "Windows Bitmap Image",
            DetectedFormat::Qoi => "Quite OK Image (QOI)",
            DetectedFormat::Wav => "WAV PCM Audio Stream",
            DetectedFormat::Mp3 => "MP3 Compressed Audio",
            DetectedFormat::Wasm => "WebAssembly Bytecode Module",
            DetectedFormat::Json => "JSON Data Object",
            DetectedFormat::Markdown => "Markdown Document",
            DetectedFormat::SourceCode => "Source Code File",
            DetectedFormat::PlainText => "UTF-8 Plain Text",
            DetectedFormat::Binary => "Binary Raw Data",
        }
    }

    pub fn icon(&self) -> (r: &'static str)
        ensures
            r == format_icon(*self),
    {
        match self {
            DetectedFormat::Pdf => "📑",
            DetectedFormat::Png | DetectedFormat::Jpeg | DetectedFormat::Bmp | DetectedFormat::Qoi => "🖼️",
            DetectedFormat::Wav | DetectedFormat::Mp3 => "🎵",
            DetectedFormat::Wasm => "⚙️",
            DetectedFormat::Json | DetectedFormat::Markdown | DetectedFormat::SourceCode
            | DetectedFormat::PlainText => "📄",
            DetectedFormat::Binary => "💾",
        }
    }
}

/// A decoded view of a file: its format, size, a summary line and preview lines.
pub struct DecodedFile {
    pub format: DetectedFormat,
    pub size: usize,
    pub header_summary: String,
    pub preview_lines: Vec<String>,
}

/// `core::str::from_utf8`: the string slice that `d` encodes, when `d` is valid UTF-8.
#[verifier::external_body]
fn str_from_utf8(d: &[u8]) -> (r: Option<&str>)
    ensures
        r is Some <==> valid_utf8(d@),
        r matches Some(s) ==> s.spec_bytes() == d@,
{
    core::str::from_utf8(d).ok()
}

/// The characters that valid UTF-8 bytes encode.
pub fn utf8_chars(d: &[u8]) -> (r: Option<Vec<char>>)
    ensures
        r is Some <==> valid_utf8(d@),
        r matches Some(v) ==> v@ == decode_utf8(d@),
{
    match str_from_utf8(d) {
        Some(s) => {
            proof {
                vstd::utf8::encode_utf8_decode_utf8(s@);
            }
            Some(chars_of(s))
        },
        None => None,
    }
}

/// Bytes `a b` start the data.
pub open spec fn starts2(d: Seq<u8>, a: u8, b: u8) -> bool {
    d.len() >= 2 && d[0] == a && d[1] == b
}

/// Bytes `a b c` start the data.
pub open spec fn starts3(d: Seq<u8>, a: u8, b: u8, c: u8) -> bool {
    d.len() >= 3 && d[0] == a && d[1] == b && d[2] == c
}

/// Bytes `a b c e` stand at `off`.
pub open spec fn bytes4_at(d: Seq<u8>, off: int, a: u8, b: u8, c: u8, e: u8) -> bool {
    d.len() >= off + 4 && d[off] == a && d[off + 1] == b && d[off + 2] == c && d[off + 3] == e
}

pub open spec fn is_pdf(d: Seq<u8>) -> bool {
    bytes4_at(d, 0, 0x25, 0x50, 0x44, 0x46)
}

pub open spec fn is_png(d: Seq<u8>) -> bool {
    bytes4_at(d, 0, 0x89, 0x50, 0x4e, 0x47) && bytes4_at(d, 4, 0x0d, 0x0a, 0x1a, 0x0a)
}

pub open spec fn is_jpeg(d: Seq<u8>) -> bool {
    starts3(d, 0xff, 0xd8, 0xff)
}

pub open spec fn is_bmp(d: Seq<u8>) -> bool {
    starts2(d, 0x42, 0x4d)
}

pub open spec fn is_qoi(d: Seq<u8>) -> bool {
    bytes4_at(d, 0, 0x71, 0x6f, 0x69, 0x66)
}

pub open spec fn is_wav(d: Seq<u8>) -> bool {
    bytes4_at(d, 0, 0x52, 0x49, 0x46, 0x46) && bytes4_at(d, 8, 0x57, 0x41, 0x56, 0x45)
}

/// An `ID3` tag, or an MPEG frame sync `FF FA`/`FF FB`, in at least three bytes.
pub open spec fn is_mp3(d: Seq<u8>) -> bool {
    d.len() >= 3 && (starts3(d, 0x49, 0x44, 0x33) || (d[0] == 0xff && (d[1] == 0xfa || d[1]
        == 0xfb)))
}

pub open spec fn is_wasm(d: Seq<u8>) -> bool {
    bytes4_at(d, 0, 0x00, 0x61, 0x73, 0x6d)
}

/// The format of a UTF-8 text: JSON by its first non-space character, Markdown by name
/// or a leading `#`, source code by extension, plain text otherwise.
pub open spec fn text_format(name: Seq<char>, text: Seq<char>) -> DetectedFormat {
    let t = trim_start_spec(text);
    if t.len() > 0 && (t[0] == '{' || t[0] == '[') {
        DetectedFormat::Json
    } else if ends_with_spec(name, ".md"@) || (t.len() > 0 && t[0] == '#') {
        DetectedFormat::Markdown
    } else if ends_with_spec(name, ".rs"@) || ends_with_spec(name, ".c"@) || ends_with_spec(
        name,
        ".js"@,
    ) || ends_with_spec(name, ".py"@) || ends_with_spec(name, ".sys"@) {
        DetectedFormat::SourceCode
    } else {
        DetectedFormat::PlainText
    }
}

/// The format that the magic bytes, or failing them the text, of a file show.
pub open spec fn detect_spec(name: Seq<char>, d: Seq<u8>) -> DetectedFormat {
    if is_pdf(d) {
        DetectedFormat::Pdf
    } else if is_png(d) {
        DetectedFormat::Png
    } else if is_jpeg(d) {
        DetectedFormat::Jpeg
    } else if is_bmp(d) {
        DetectedFormat::Bmp
    } else if is_qoi(d) {
        DetectedFormat::Qoi
    } else if is_wav(d) {
        DetectedFormat::Wav
    } else if is_mp3(d) {
        DetectedFormat::Mp3
    } else if is_wasm(d) {
        DetectedFormat::Wasm
    } else if valid_utf8(d) {
        text_format(name, decode_utf8(d))
    } else {
        DetectedFormat::Binary
    }
}

fn at4(d: &[u8], off: usize, a: u8, b: u8, c: u8, e: u8) -> (r: bool)
    ensures
        r == bytes4_at(d@, off as int, a, b, c, e),
{
    d.len() >= 4 && off <= d.len() - 4 && d[off] == a && d[off + 1] == b && d[off + 2] == c
        && d[off + 3] == e
}

/// Detects a file's format by its leading magic bytes, then by its text.
pub fn detect_format(name: &str, data: &[u8]) -> (r: DetectedFormat)
    ensures
        r == detect_spec(name@, data@),
{
    let n = data.len();
    if at4(data, 0, 0x25, 0x50, 0x44, 0x46) {
        return DetectedFormat::Pdf;
    }
    if at4(data, 0, 0x89, 0x50, 0x4e, 0x47) && at4(data, 4, 0x0d, 0x0a, 0x1a, 0x0a) {
        return DetectedFormat::Png;
    }
    if n >= 3 && data[0] == 0xff && data[1] == 0xd8 && data[2] == 0xff {
        return DetectedFormat::Jpeg;
    }
    if n >= 2 && data[0] == 0x42 && data[1] == 0x4d {
        return DetectedFormat::Bmp;
    }
    if at4(data, 0, 0x71, 0x6f, 0x69, 0x66) {
        return DetectedFormat::Qoi;
    }
    if at4(data, 0, 0x52, 0x49, 0x46, 0x46) && at4(data, 8, 0x57, 0x41, 0x56, 0x45) {
        return DetectedFormat::Wav;
    }
    if n >= 3 && ((data[0] == 0x49 && data[1] == 0x44 && data[2] == 0x33) || (data[0] == 0xff
        && (data[1] == 0xfa || data[1] == 0xfb))) {
        return DetectedFormat::Mp3;
    }
    if at4(data, 0, 0x00, 0x61, 0x73, 0x6d) {
        return DetectedFormat::Wasm;
    }
    match utf8_chars(data) {
        Some(text) => {
            let k = trim_start_index(text.as_slice());
            let lead: Option<char> = if k < text.len() { Some(text[k]) } else { None };
            let name_chars = chars_of(name);
            let nm = name_chars.as_slice();
            if lead == Some('{') || lead == Some('[') {
                DetectedFormat::Json
            } else if ends(nm, ".md") || lead == Some('#') {
                DetectedFormat::Markdown
            } else if ends(nm, ".rs") || ends(nm, ".c") || ends(nm, ".js") || ends(nm, ".py") || ends(
                nm,
                ".sys",
            ) {
                DetectedFormat::SourceCode
            } else {
                DetectedFormat::PlainText
            }
        },
        None => DetectedFormat::Binary,
    }
}

/// A lower-case hexadecimal digit.
pub open spec fn hex_digit(n: int) -> char {
    if n < 10 {
        (48 + n) as char
    } else {
        (87 + n) as char
    }
}

/// Two hexadecimal digits of a byte.
pub open spec fn hex_byte(b: u8) -> Seq<char> {
    seq![hex_digit(b as int / 16), hex_digit(b as int % 16)]
}

/// Four zero-padded hexadecimal digits, as `{:04x}` writes a value below 65536.
pub open spec fn hex4(n: int) -> Seq<char> {
    seq![hex_digit((n / 4096) % 16), hex_digit((n / 256) % 16), hex_digit((n / 16) % 16), hex_digit(n % 16)]
}

/// The hex column of a dump row: each byte as two digits and a space, an extra space after eight.
pub open spec fn hex_cells(c: Seq<u8>) -> Seq<char>
    decreases c.len(),
{
    if c.len() == 0 {
        Seq::empty()
    } else {
        hex_cells(c.drop_last()) + (if c.len() - 1 == 8 {
            seq![' ']
        } else {
            Seq::empty()
        }) + hex_byte(c.last()) + seq![' ']
    }
}

/// A printable ASCII byte as itself, anything else as a dot.
pub open spec fn ascii_cell(b: u8) -> char {
    if 32 <= b <= 126 {
        (b as u32) as char
    } else {
        '.'
    }
}

pub open spec fn ascii_cells(c: Seq<u8>) -> Seq<char> {
    Seq::new(c.len(), |i: int| ascii_cell(c[i]))
}

/// `s` padded with spaces on the right to at least `w` characters.
pub open spec fn pad_right(s: Seq<char>, w: int) -> Seq<char> {
    if s.len() < w {
        s + Seq::new((w - s.len()) as nat, |i: int| ' ')
    } else {
        s
    }
}

/// `s` padded with spaces on the left to at least `w` characters.
pub open spec fn pad_left(s: Seq<char>, w: int) -> Seq<char> {
    if s.len() < w {
        Seq::new((w - s.len()) as nat, |i: int| ' ') + s
    } else {
        s
    }
}

/// The bytes of row `k` of a dump: sixteen, or what is left.
pub open spec fn dump_chunk(d: Seq<u8>, k: int) -> Seq<u8> {
    d.subrange(16 * k, if 16 * k + 16 <= d.len() { 16 * k + 16 } else { d.len() as int })
}

/// Row `k` of a hex dump: offset, hex column padded to 49, and the ASCII column.
pub open spec fn hex_line(d: Seq<u8>, k: int) -> Seq<char> {
    hex4(16 * k) + ": "@ + pad_right(hex_cells(dump_chunk(d, k)), 49) + " │"@ + ascii_cells(
        dump_chunk(d, k),
    )
}

/// The rows of a hex dump of `d`, sixteen bytes a row.
pub open spec fn hex_dump(d: Seq<u8>) -> Seq<Seq<char>> {
    Seq::new(((d.len() + 15) / 16) as nat, |k: int| hex_line(d, k))
}

fn hex_char(n: u8) -> (c: char)
    requires
        n < 16,
    ensures
        c == hex_digit(n as int),
{
    if n < 10 {
        crate::text::char_from_ascii(48 + n)
    } else {
        crate::text::char_from_ascii(87 + n)
    }
}

/// One row of the dump of `data[start..end]`.
fn hex_row(data: &[u8], start: usize, end: usize) -> (r: Vec<char>)
    requires
        start <= end <= data@.len(),
        end - start <= 16,
        start < 65536,
    ensures
        r@ == hex4(start as int) + ": "@ + pad_right(hex_cells(data@.subrange(start as int, end as int)), 49)
            + " │"@ + ascii_cells(data@.subrange(start as int, end as int)),
{
    let ghost chunk = data@.subrange(start as int, end as int);
    let mut v: Vec<char> = Vec::new();
    let off = start as u32;
    v.push(hex_char(((off / 4096) % 16) as u8));
    v.push(hex_char(((off / 256) % 16) as u8));
    v.push(hex_char(((off / 16) % 16) as u8));
    v.push(hex_char((off % 16) as u8));
    assert(v@ =~= hex4(start as int));
    push_str(&mut v, ": ");
    let ghost pre = v@;
    let mut hex: Vec<char> = Vec::new();
    let mut i: usize = start;
    while i < end
        invariant
            start <= i <= end <= data@.len(),
            chunk == data@.subrange(start as int, end as int),
            hex@ == hex_cells(chunk.subrange(0, i - start)),
        decreases end - i,
    {
        let b = data[i];
        if i - start == 8 {
            hex.push(' ');
        }
        hex.push(hex_char(b / 16));
        hex.push(hex_char(b % 16));
        hex.push(' ');
        proof {
            let c = chunk.subrange(0, i + 1 - start);
            assert(c.drop_last() =~= chunk.subrange(0, i - start));
            assert(c.last() == b);
        }
        i += 1;
    }
    assert(chunk.subrange(0, end - start) =~= chunk);
    let ghost cells = hex@;
    while hex.len() < 49
        invariant
            cells == hex_cells(chunk),
            cells.len() <= hex@.len() <= 49 || hex@ == cells,
            hex@ =~= cells + Seq::new((hex@.len() - cells.len()) as nat, |j: int| ' '),
        decreases 49 - hex@.len(),
    {
        hex.push(' ');
    }
    assert(hex@ =~= pad_right(cells, 49));
    push_chars(&mut v, hex.as_slice());
    push_str(&mut v, " │");
    let ghost pre2 = v@;
    let mut k: usize = start;
    while k < end
        invariant
            start <= k <= end <= data@.len(),
            chunk == data@.subrange(start as int, end as int),
            v@ =~= pre2 + ascii_cells(chunk.subrange(0, k - start)),
        decreases end - k,
    {
        let b = data[k];
        if b >= 32 && b <= 126 {
            v.push(crate::text::char_from_ascii(b));
        } else {
            v.push('.');
        }
        k += 1;
    }
    assert(chunk.subrange(0, end - start) =~= chunk);
    v
}

/// Appends the hex dump of the first `n` bytes of `data` to `lines`.
fn append_hex_dump(lines: &mut Vec<String>, data: &[u8], n: usize)
    requires
        n <= data@.len(),
        n <= 65536,
    ensures
        strs(final(lines)@) == strs(old(lines)@) + hex_dump(data@.subrange(0, n as int)),
{
    let ghost d = data@.subrange(0, n as int);
    let ghost base = strs(lines@);
    let mut k: usize = 0;
    while 16 * k < n
        invariant
            n <= data@.len(),
            n <= 65536,
            d == data@.subrange(0, n as int),
            16 * k <= n + 15,
            16 * k < n ==> k < (n + 15) / 16,
            16 * k >= n ==> k == (n + 15) / 16,
            strs(lines@) =~= base + Seq::new(k as nat, |j: int| hex_line(d, j)),
        decreases n + 16 - 16 * k,
    {
        let start = 16 * k;
        let end = if n - start >= 16 { start + 16 } else { n };
        let row = hex_row(data, start, end);
        proof {
            assert(data@.subrange(start as int, end as int) =~= dump_chunk(d, k as int));
        }
        push_line(lines, row.as_slice());
        k += 1;
    }
    assert(k == (n + 15) / 16);
    assert(strs(lines@) =~= base + hex_dump(d));
}

/// The smaller of two integers.
pub open spec fn min_int(a: int, b: int) -> int {
    if a <= b {
        a
    } else {
        b
    }
}

/// At least one, as `n.max(1)` gives it.
pub open spec fn at_least_one(n: int) -> int {
    if n >= 1 {
        n
    } else {
        1
    }
}

/// Decimal digits of a non-negative value.
pub open spec fn dec(n: int) -> Seq<char> {
    dec_spec(n as nat)
}

/// The big-endian value of the four bytes at `off`.
pub open spec fn be32(d: Seq<u8>, off: int) -> int {
    16777216 * d[off] + 65536 * d[off + 1] + 256 * d[off + 2] + d[off + 3]
}

fn read_be32(d: &[u8], off: usize) -> (r: u32)
    requires
        off + 4 <= d@.len(),
    ensures
        r == be32(d@, off as int),
{
    let _n = d.len();
    16777216 * (d[off] as u32) + 65536 * (d[off + 1] as u32) + 256 * (d[off + 2] as u32) + d[off
        + 3] as u32
}

/// The first `min(len, cap)` bytes of `d`.
pub open spec fn head(d: Seq<u8>, cap: int) -> Seq<u8> {
    d.subrange(0, min_int(d.len() as int, cap))
}

// ── PDF ──
/// The version text: the first eight bytes when they are UTF-8.
pub open spec fn pdf_version(d: Seq<u8>) -> Seq<char> {
    if d.len() >= 8 {
        if valid_utf8(d.subrange(0, 8)) {
            decode_utf8(d.subrange(0, 8))
        } else {
            "%PDF-1.4"@
        }
    } else {
        "%PDF"@
    }
}

/// `/Page` followed by a space, a line feed or a carriage return starts at `i`.
pub open spec fn page_at(d: Seq<u8>, i: int) -> bool {
    &&& 0 <= i
    &&& i + 6 <= d.len()
    &&& d[i] == 0x2f && d[i + 1] == 0x50 && d[i + 2] == 0x61 && d[i + 3] == 0x67 && d[i + 4] == 0x65
    &&& (d[i + 5] == 0x20 || d[i + 5] == 0x0a || d[i + 5] == 0x0d)
}

/// How many six-byte windows from `i` on are page markers.
pub open spec fn page_count_from(d: Seq<u8>, i: int) -> int
    decreases d.len() - i,
{
    if i < 0 || i + 6 > d.len() {
        0
    } else {
        (if page_at(d, i) {
            1int
        } else {
            0int
        }) + page_count_from(d, i + 1)
    }
}

pub open spec fn pdf_summary(d: Seq<u8>) -> Seq<char> {
    "PDF Container (Spec: "@ + pdf_version(d) + ") | Size: "@ + dec(d.len() as int) + " bytes"@
}

/// The PDF preview. The object markers searched for are five bytes long and a window is
/// six, so no window matches them and the object count shows as one.
pub open spec fn pdf_lines(d: Seq<u8>) -> Seq<Seq<char>> {
    seq![
        "── Document Structure ──"@,
        "  Header: "@ + pdf_version(d),
        "  Discovered Objects: "@ + dec(1),
        "  Estimated Pages: "@ + dec(at_least_one(page_count_from(d, 0))),
        "  Status: Validated PDF 1.4 Vector Graph"@,
        Seq::<char>::empty(),
        "── Raw Byte Stream ──"@,
    ] + hex_dump(head(d, 128))
}

/// The six bytes at `i` equal `pat`.
fn window_is(data: &[u8], i: usize, pat: &[u8]) -> (r: bool)
    requires
        i + 6 <= data@.len(),
    ensures
        r == (pat@.len() == 6 && data@.subrange(i as int, i + 6) == pat@),
{
    if pat.len() != 6 {
        return false;
    }
    let _n = data.len();
    let mut k: usize = 0;
    while k < 6
        invariant
            pat@.len() == 6,
            i + 6 <= data@.len(),
            data@.len() <= usize::MAX,
            k <= 6,
            forall|j: int| 0 <= j < k ==> data@[i + j] == pat@[j],
        decreases 6 - k,
    {
        if data[i + k] != pat[k] {
            assert(data@.subrange(i as int, i + 6)[k as int] != pat@[k as int]);
            return false;
        }
        k += 1;
    }
    assert(data@.subrange(i as int, i + 6) =~= pat@);
    true
}

fn decode_pdf(data: &[u8]) -> (r: (Vec<char>, Vec<String>))
    ensures
        r.0@ == pdf_summary(data@),
        strs(r.1@) == pdf_lines(data@),
{
    let n = data.len();
    let mut version: Vec<char> = Vec::new();
    if n >= 8 {
        let mut first: Vec<u8> = Vec::new();
        let mut k: usize = 0;
        while k < 8
            invariant
                n == data@.len(),
                n >= 8,
                k <= 8,
                first@ == data@.subrange(0, k as int),
            decreases 8 - k,
        {
            first.push(data[k]);
            k += 1;
            assert(first@ =~= data@.subrange(0, k as int));
        }
        match utf8_chars(first.as_slice()) {
            Some(v) => {
                version = v;
            },
            None => {
                push_str(&mut version, "%PDF-1.4");
            },
        }
    } else {
        push_str(&mut version, "%PDF");
    }
    let obj_a: Vec<u8> = vec![0x6f, 0x62, 0x6a, 0x0d, 0x0a];
    let obj_b: Vec<u8> = vec![0x20, 0x6f, 0x62, 0x6a, 0x0a];
    let obj_c: Vec<u8> = vec![0x20, 0x6f, 0x62, 0x6a, 0x0d];
    let page_a: Vec<u8> = vec![0x2f, 0x50, 0x61, 0x67, 0x65, 0x20];
    let page_b: Vec<u8> = vec![0x2f, 0x50, 0x61, 0x67, 0x65, 0x0a];
    let page_c: Vec<u8> = vec![0x2f, 0x50, 0x61, 0x67, 0x65, 0x0d];
    let mut obj_count: usize = 0;
    let mut page_count: usize = 0;
    let mut i: usize = 0;
    while n >= 6 && i <= n - 6
        invariant
            n == data@.len(),
            obj_a@.len() == 5 && obj_b@.len() == 5 && obj_c@.len() == 5,
            page_a@ == seq![0x2fu8, 0x50u8, 0x61u8, 0x67u8, 0x65u8, 0x20u8],
            page_b@ == seq![0x2fu8, 0x50u8, 0x61u8, 0x67u8, 0x65u8, 0x0au8],
            page_c@ == seq![0x2fu8, 0x50u8, 0x61u8, 0x67u8, 0x65u8, 0x0du8],
            obj_count == 0,
            n >= 6 ==> i <= n - 5,
            n < 6 ==> i == 0,
            page_count + page_count_from(data@, i as int) == page_count_from(data@, 0),
            page_count <= i,
        decreases n - i,
    {
        if window_is(data, i, obj_a.as_slice()) || window_is(data, i, obj_b.as_slice())
            || window_is(data, i, obj_c.as_slice()) {
            obj_count += 1;
        }
        let pa = window_is(data, i, page_a.as_slice());
        let pb = window_is(data, i, page_b.as_slice());
        let pc = window_is(data, i, page_c.as_slice());
        proof {
            let w = data@.subrange(i as int, i + 6);
            assert(page_at(data@, i as int) <==> (w == page_a@ || w == page_b@ || w == page_c@)) by {
                if page_at(data@, i as int) {
                    if data@[i + 5] == 0x20 {
                        assert(w =~= page_a@);
                    } else if data@[i + 5] == 0x0a {
                        assert(w =~= page_b@);
                    } else {
                        assert(w =~= page_c@);
                    }
                }
                if w == page_a@ || w == page_b@ || w == page_c@ {
                    assert(w[0] == data@[i as int] && w[1] == data@[i + 1] && w[2] == data@[i + 2]
                        && w[3] == data@[i + 3] && w[4] == data@[i + 4] && w[5] == data@[i + 5]);
                }
            }
        }
        if pa || pb || pc {
            page_count += 1;
        }
        i += 1;
    }
    let objects = if obj_count >= 1 { obj_count } else { 1 };
    let pages = if page_count >= 1 { page_count } else { 1 };
    let mut summary: Vec<char> = Vec::new();
    push_str(&mut summary, "PDF Container (Spec: ");
    push_chars(&mut summary, version.as_slice());
    push_str(&mut summary, ") | Size: ");
    push_dec(&mut summary, n as u64);
    push_str(&mut summary, " bytes");
    let mut lines: Vec<String> = Vec::new();
    push_str_line(&mut lines, "── Document Structure ──");
    let mut l: Vec<char> = Vec::new();
    push_str(&mut l, "  Header: ");
    push_chars(&mut l, version.as_slice());
    push_line(&mut lines, l.as_slice());
    let mut l: Vec<char> = Vec::new();
    push_str(&mut l, "  Discovered Objects: ");
    push_dec(&mut l, objects as u64);
    push_line(&mut lines, l.as_slice());
    let mut l: Vec<char> = Vec::new();
    push_str(&mut l, "  Estimated Pages: ");
    push_dec(&mut l, pages as u64);
    push_line(&mut lines, l.as_slice());
    push_str_line(&mut lines, "  Status: Validated PDF 1.4 Vector Graph");
    push_line(&mut lines, Vec::new().as_slice());
    push_str_line(&mut lines, "── Raw Byte Stream ──");
    let cap = if n < 128 { n } else { 128 };
    append_hex_dump(&mut lines, data, cap);
    assert(summary@ =~= pdf_summary(data@));
    assert(strs(lines@) =~= pdf_lines(data@));
    (summary, lines)
}

// ── PNG ──
/// Width, height, bit depth and colour type from the IHDR chunk, or defaults without one.
pub open spec fn png_fields(d: Seq<u8>) -> (int, int, int, int) {
    if d.len() >= 26 && bytes4_at(d, 12, 0x49, 0x48, 0x44, 0x52) {
        (be32(d, 16), be32(d, 20), d[24] as int, d[25] as int)
    } else {
        (0, 0, 8, 6)
    }
}

pub open spec fn png_mode(col: int) -> &'static str {
    if col == 0 {
        "Grayscale"
    } else if col == 2 {
        "RGB TrueColor"
    } else if col == 3 {
        "Indexed Palette"
    } else if col == 4 {
        "Grayscale + Alpha"
    } else if col == 6 {
        "RGBA TrueColor + Alpha"
    } else {
        "Custom"
    }
}

pub open spec fn png_summary(d: Seq<u8>) -> Seq<char> {
    let (w, h, depth, col) = png_fields(d);
    "PNG Image: "@ + dec(w) + "x"@ + dec(h) + " ("@ + dec(depth) + " bpp, "@ + png_mode(col)@ + ")"@
}

pub open spec fn png_lines(d: Seq<u8>) -> Seq<Seq<char>> {
    let (w, h, depth, col) = png_fields(d);
    seq![
        "── Image Stream Telemetry ──"@,
        "  Dimensions: "@ + dec(w) + " x "@ + dec(h) + " px"@,
        "  Color Depth: "@ + dec(depth) + "-bit per channel"@,
        "  Color Space: "@ + png_mode(col)@,
        "  Compression: Deflate zlib"@,
        Seq::<char>::empty(),
    ] + hex_dump(head(d, 96))
}

fn png_mode_exec(col: u8) -> (r: &'static str)
    ensures
        r == png_mode(col as int),
{
    if col == 0 {
        "Grayscale"
    } else if col == 2 {
        "RGB TrueColor"
    } else if col == 3 {
        "Indexed Palette"
    } else if col == 4 {
        "Grayscale + Alpha"
    } else if col == 6 {
        "RGBA TrueColor + Alpha"
    } else {
        "Custom"
    }
}

/// Appends `a`, the decimal of `x`, `b`, the decimal of `y` and `c` to `v`.
fn push_pair(v: &mut Vec<char>, a: &str, x: u64, b: &str, y: u64, c: &str)
    ensures
        final(v)@ == old(v)@ + a@ + dec(x as int) + b@ + dec(y as int) + c@,
{
    push_str(v, a);
    push_dec(v, x);
    push_str(v, b);
    push_dec(v, y);
    push_str(v, c);
}

/// Appends `a`, the decimal of `x` and `b` to `v`.
fn push_num(v: &mut Vec<char>, a: &str, x: u64, b: &str)
    ensures
        final(v)@ == old(v)@ + a@ + dec(x as int) + b@,
{
    push_str(v, a);
    push_dec(v, x);
    push_str(v, b);
}

fn decode_png(data: &[u8]) -> (r: (Vec<char>, Vec<String>))
    ensures
        r.0@ == png_summary(data@),
        strs(r.1@) == png_lines(data@),
{
    let n = data.len();
    let (w, h, depth, col): (u32, u32, u8, u8) = if n >= 26 && at4(data, 12, 0x49, 0x48, 0x44, 0x52) {
        (read_be32(data, 16), read_be32(data, 20), data[24], data[25])
    } else {
        (0, 0, 8, 6)
    };
    let mode = png_mode_exec(col);
    let mut summary: Vec<char> = Vec::new();
    push_pair(&mut summary, "PNG Image: ", w as u64, "x", h as u64, " (");
    push_num(&mut summary, "", depth as u64, " bpp, ");
    push_str(&mut summary, mode);
    push_str(&mut summary, ")");
    let mut lines: Vec<String> = Vec::new();
    push_str_line(&mut lines, "── Image Stream Telemetry ──");
    let mut l: Vec<char> = Vec::new();
    push_pair(&mut l, "  Dimensions: ", w as u64, " x ", h as u64, " px");
    push_line(&mut lines, l.as_slice());
    let mut l: Vec<char> = Vec::new();
    push_num(&mut l, "  Color Depth: ", depth as u64, "-bit per channel");
    push_line(&mut lines, l.as_slice());
    let mut l: Vec<char> = Vec::new();
    push_str(&mut l, "  Color Space: ");
    push_str(&mut l, mode);
    push_line(&mut lines, l.as_slice());
    push_str_line(&mut lines, "  Compression: Deflate zlib");
    push_line(&mut lines, Vec::new().as_slice());
    let cap = if n < 96 { n } else { 96 };
    append_hex_dump(&mut lines, data, cap);
    proof {
        reveal_strlit("");
    }
    assert(summary@ =~= png_summary(data@));
    assert(strs(lines@) =~= png_lines(data@));
    (summary, lines)
}

// ── BMP ──
/// A 32-bit two's-complement reading of `u`.
pub open spec fn as_signed32(u: int) -> int {
    if u >= 2147483648 {
        u - 4294967296
    } else {
        u
    }
}

pub open spec fn abs_int(x: int) -> int {
    if x < 0 {
        -x
    } else {
        x
    }
}

/// Width, height and bits per pixel of a bitmap header, or defaults for a short one.
pub open spec fn bmp_fields(d: Seq<u8>) -> (int, int, int) {
    if d.len() >= 28 {
        (abs_int(as_signed32(le32(d, 18))), abs_int(as_signed32(le32(d, 22))), le16(d, 28))
    } else {
        (0, 0, 24)
    }
}

/// A bitmap header the viewer can read: the bits-per-pixel field lies within the data,
/// and neither dimension is the most negative 32-bit value.
pub open spec fn bmp_readable(d: Seq<u8>) -> bool {
    d.len() >= 28 ==> d.len() >= 30 && le32(d, 18) != 2147483648 && le32(d, 22) != 2147483648
}

pub open spec fn bmp_summary(d: Seq<u8>) -> Seq<char> {
    let (w, h, bpp) = bmp_fields(d);
    "BMP Image: "@ + dec(w) + "x"@ + dec(h) + " ("@ + dec(bpp) + " bpp)"@
}

pub open spec fn bmp_lines(d: Seq<u8>) -> Seq<Seq<char>> {
    let (w, h, bpp) = bmp_fields(d);
    seq![
        "── Bitmap Header ──"@,
        "  Dimensions: "@ + dec(w) + " x "@ + dec(h) + " px"@,
        "  Bits Per Pixel: "@ + dec(bpp),
        Seq::<char>::empty(),
    ] + hex_dump(head(d, 96))
}

/// The magnitude of a 32-bit signed little-endian field.
fn abs_le32(d: &[u8], off: usize) -> (r: u32)
    requires
        off + 4 <= d@.len(),
        le32(d@, off as int) != 2147483648,
    ensures
        r == abs_int(as_signed32(le32(d@, off as int))),
{
    let u = read_le32(d, off);
    if u >= 2147483648 {
        (4294967296u64 - u as u64) as u32
    } else {
        u
    }
}

fn decode_bmp(data: &[u8]) -> (r: (Vec<char>, Vec<String>))
    requires
        bmp_readable(data@),
    ensures
        r.0@ == bmp_summary(data@),
        strs(r.1@) == bmp_lines(data@),
{
    let n = data.len();
    let (w, h, bpp): (u32, u32, u16) = if n >= 28 {
        (abs_le32(data, 18), abs_le32(data, 22), read_le16(data, 28))
    } else {
        (0, 0, 24)
    };
    let mut summary: Vec<char> = Vec::new();
    push_pair(&mut summary, "BMP Image: ", w as u64, "x", h as u64, " (");
    push_num(&mut summary, "", bpp as u64, " bpp)");
    let mut lines: Vec<String> = Vec::new();
    push_str_line(&mut lines, "── Bitmap Header ──");
    let mut l: Vec<char> = Vec::new();
    push_pair(&mut l, "  Dimensions: ", w as u64, " x ", h as u64, " px");
    push_line(&mut lines, l.as_slice());
    let mut l: Vec<char> = Vec::new();
    push_num(&mut l, "  Bits Per Pixel: ", bpp as u64, "");
    push_line(&mut lines, l.as_slice());
    push_line(&mut lines, Vec::new().as_slice());
    let cap = if n < 96 { n } else { 96 };
    append_hex_dump(&mut lines, data, cap);
    proof {
        reveal_strlit("");
    }
    assert(summary@ =~= bmp_summary(data@));
    assert(strs(lines@) =~= bmp_lines(data@));
    (summary, lines)
}

// ── QOI ──
pub open spec fn qoi_fields(d: Seq<u8>) -> (int, int, int, &'static str) {
    if d.len() >= 14 {
        (be32(d, 4), be32(d, 8), d[12] as int, if d[13] == 0 {
            "sRGB Linear"
        } else {
            "sRGB Standard"
        })
    } else {
        (0, 0, 4, "sRGB")
    }
}

pub open spec fn qoi_summary(d: Seq<u8>) -> Seq<char> {
    let (w, h, ch, cs) = qoi_fields(d);
    "QOI Image: "@ + dec(w) + "x"@ + dec(h) + " ("@ + dec(ch) + " channels, "@ + cs@ + ")"@
}

pub open spec fn qoi_lines(d: Seq<u8>) -> Seq<Seq<char>> {
    let (w, h, ch, cs) = qoi_fields(d);
    seq![
        "── QOI Fast Vector Header ──"@,
        "  Dimensions: "@ + dec(w) + " x "@ + dec(h) + " px"@,
        "  Channels: "@ + dec(ch) + " (RGBA)"@,
        "  Color Space: "@ + cs@,
        Seq::<char>::empty(),
    ] + hex_dump(head(d, 96))
}

fn decode_qoi(data: &[u8]) -> (r: (Vec<char>, Vec<String>))
    ensures
        r.0@ == qoi_summary(data@),
        strs(r.1@) == qoi_lines(data@),
{
    let n = data.len();
    let (w, h, ch, cs): (u32, u32, u8, &'static str) = if n >= 14 {
        (read_be32(data, 4), read_be32(data, 8), data[12], if data[13] == 0 {
            "sRGB Linear"
        } else {
            "sRGB Standard"
        })
    } else {
        (0, 0, 4, "sRGB")
    };
    let mut summary: Vec<char> = Vec::new();
    push_pair(&mut summary, "QOI Image: ", w as u64, "x", h as u64, " (");
    push_num(&mut summary, "", ch as u64, " channels, ");
    push_str(&mut summary, cs);
    push_str(&mut summary, ")");
    let mut lines: Vec<String> = Vec::new();
    push_str_line(&mut lines, "── QOI Fast Vector Header ──");
    let mut l: Vec<char> = Vec::new();
    push_pair(&mut l, "  Dimensions: ", w as u64, " x ", h as u64, " px");
    push_line(&mut lines, l.as_slice());
    let mut l: Vec<char> = Vec::new();
    push_num(&mut l, "  Channels: ", ch as u64, " (RGBA)");
    push_line(&mut lines, l.as_slice());
    let mut l: Vec<char> = Vec::new();
    push_str(&mut l, "  Color Space: ");
    push_str(&mut l, cs);
    push_line(&mut lines, l.as_slice());
    push_line(&mut lines, Vec::new().as_slice());
    let cap = if n < 96 { n } else { 96 };
    append_hex_dump(&mut lines, data, cap);
    proof {
        reveal_strlit("");
    }
    assert(summary@ =~= qoi_summary(data@));
    assert(strs(lines@) =~= qoi_lines(data@));
    (summary, lines)
}

// ── Formats with a fixed description ──
/// The summary of a format described only by its size.
pub open spec fn sized_summary(a: &str, d: Seq<u8>) -> Seq<char> {
    a@ + dec(d.len() as int) + " bytes"@
}

/// A titled block of fixed lines, a blank line, then a dump of the first `cap` bytes.
pub open spec fn fixed_lines(title: &str, l1: &str, l2: &str, d: Seq<u8>, cap: int) -> Seq<Seq<char>> {
    seq![title@, l1@, l2@, Seq::<char>::empty()] + hex_dump(head(d, cap))
}

fn decode_fixed(data: &[u8], prefix: &str, title: &str, l1: &str, l2: &str) -> (r: (Vec<char>, Vec<String>))
    ensures
        r.0@ == sized_summary(prefix, data@),
        strs(r.1@) == fixed_lines(title, l1, l2, data@, 96),
{
    let n = data.len();
    let mut summary: Vec<char> = Vec::new();
    push_num(&mut summary, prefix, n as u64, " bytes");
    let mut lines: Vec<String> = Vec::new();
    push_str_line(&mut lines, title);
    push_str_line(&mut lines, l1);
    push_str_line(&mut lines, l2);
    push_line(&mut lines, Vec::new().as_slice());
    let cap = if n < 96 { n } else { 96 };
    append_hex_dump(&mut lines, data, cap);
    assert(strs(lines@) =~= fixed_lines(title, l1, l2, data@, 96));
    (summary, lines)
}

// ── WAV ──
/// Channels, sample rate and bits per sample from the canonical header, or defaults.
pub open spec fn wav_fields(d: Seq<u8>) -> (int, int, int) {
    if d.len() >= 36 {
        (le16(d, 22), le32(d, 24), le16(d, 34))
    } else {
        (2, 44100, 16)
    }
}

/// The byte rate of the header fits in 32 bits at each step of its computation.
pub open spec fn wav_rate_readable(d: Seq<u8>) -> bool {
    let (ch, rate, bpp) = wav_fields(d);
    rate * ch <= u32::MAX && rate * ch * (bpp / 8) <= u32::MAX
}

/// Whole seconds of audio after the 44-byte header, at the header's byte rate.
pub open spec fn wav_seconds(d: Seq<u8>) -> int {
    let (ch, rate, bpp) = wav_fields(d);
    let size32 = d.len() as int % 4294967296;
    let body = if size32 >= 44 { size32 - 44 } else { 0 };
    body / at_least_one(rate * ch * (bpp / 8))
}

pub open spec fn wav_summary(d: Seq<u8>) -> Seq<char> {
    let (ch, rate, bpp) = wav_fields(d);
    "WAV PCM Audio: "@ + dec(rate) + "Hz, "@ + dec(ch) + "ch, "@ + dec(bpp) + "-bit (~"@ + dec(
        wav_seconds(d),
    ) + "s)"@
}

pub open spec fn wav_view_lines(d: Seq<u8>) -> Seq<Seq<char>> {
    let (ch, rate, bpp) = wav_fields(d);
    seq![
        "── Audio Stream Synthesizer ──"@,
        "  Sample Rate: "@ + dec(rate) + " Hz (Studio Quality)"@,
        "  Channels: "@ + dec(ch) + " ("@ + (if ch == 1 {
            "Mono"@
        } else {
            "Stereo"@
        }) + ")"@,
        "  Resolution: "@ + dec(bpp) + "-bit Linear PCM"@,
        "  Playback: Ready for PC-Speaker / VirtIO Audio Output"@,
        Seq::<char>::empty(),
    ] + hex_dump(head(d, 96))
}

fn decode_wav(data: &[u8]) -> (r: (Vec<char>, Vec<String>))
    requires
        wav_rate_readable(data@),
    ensures
        r.0@ == wav_summary(data@),
        strs(r.1@) == wav_view_lines(data@),
{
    let n = data.len();
    let (ch, rate, bpp): (u16, u32, u16) = if n >= 36 {
        (read_le16(data, 22), read_le32(data, 24), read_le16(data, 34))
    } else {
        (2, 44100, 16)
    };
    let per = rate * ch as u32 * (bpp as u32 / 8);
    let bytes_per_sec = if per >= 1 { per } else { 1 };
    let size32 = ((n as u64) % 4294967296) as u32;
    let body = if size32 >= 44 { size32 - 44 } else { 0 };
    let duration_sec = body / bytes_per_sec;
    let mut summary: Vec<char> = Vec::new();
    push_pair(&mut summary, "WAV PCM Audio: ", rate as u64, "Hz, ", ch as u64, "ch, ");
    push_pair(&mut summary, "", bpp as u64, "-bit (~", duration_sec as u64, "s)");
    let mut lines: Vec<String> = Vec::new();
    push_str_line(&mut lines, "── Audio Stream Synthesizer ──");
    let mut l: Vec<char> = Vec::new();
    push_num(&mut l, "  Sample Rate: ", rate as u64, " Hz (Studio Quality)");
    push_line(&mut lines, l.as_slice());
    let mut l: Vec<char> = Vec::new();
    push_num(&mut l, "  Channels: ", ch as u64, " (");
    push_str(&mut l, if ch == 1 { "Mono" } else { "Stereo" });
    push_str(&mut l, ")");
    push_line(&mut lines, l.as_slice());
    let mut l: Vec<char> = Vec::new();
    push_num(&mut l, "  Resolution: ", bpp as u64, "-bit Linear PCM");
    push_line(&mut lines, l.as_slice());
    push_str_line(&mut lines, "  Playback: Ready for PC-Speaker / VirtIO Audio Output");
    push_line(&mut lines, Vec::new().as_slice());
    let cap = if n < 96 { n } else { 96 };
    append_hex_dump(&mut lines, data, cap);
    proof {
        reveal_strlit("");
    }
    assert(summary@ =~= wav_summary(data@));
    assert(strs(lines@) =~= wav_view_lines(data@));
    (summary, lines)
}

// ── WebAssembly ──
pub open spec fn wasm_version(d: Seq<u8>) -> int {
    if d.len() >= 8 {
        le32(d, 4)
    } else {
        1
    }
}

pub open spec fn wasm_summary(d: Seq<u8>) -> Seq<char> {
    "WebAssembly Module (\\0asm v"@ + dec(wasm_version(d)) + ") | Size: "@ + dec(d.len() as int)
        + " bytes"@
}

pub open spec fn wasm_view_lines(d: Seq<u8>) -> Seq<Seq<char>> {
    seq![
        "── WASM Sandbox Bytecode ──"@,
        "  Version: "@ + dec(wasm_version(d)),
        "  Privilege Level: Ring 3 Isolated User Process"@,
        "  Host Bindings: Atulya SYSCALL ABI (SysExit, Print, Intent)"@,
        Seq::<char>::empty(),
    ] + hex_dump(head(d, 96))
}

fn decode_wasm(data: &[u8]) -> (r: (Vec<char>, Vec<String>))
    ensures
        r.0@ == wasm_summary(data@),
        strs(r.1@) == wasm_view_lines(data@),
{
    let n = data.len();
    let version: u32 = if n >= 8 { read_le32(data, 4) } else { 1 };
    let mut summary: Vec<char> = Vec::new();
    push_pair(&mut summary, "WebAssembly Module (\\0asm v", version as u64, ") | Size: ", n as u64, " bytes");
    let mut lines: Vec<String> = Vec::new();
    push_str_line(&mut lines, "── WASM Sandbox Bytecode ──");
    let mut l: Vec<char> = Vec::new();
    push_num(&mut l, "  Version: ", version as u64, "");
    push_line(&mut lines, l.as_slice());
    push_str_line(&mut lines, "  Privilege Level: Ring 3 Isolated User Process");
    push_str_line(&mut lines, "  Host Bindings: Atulya SYSCALL ABI (SysExit, Print, Intent)");
    push_line(&mut lines, Vec::new().as_slice());
    let cap = if n < 96 { n } else { 96 };
    append_hex_dump(&mut lines, data, cap);
    proof {
        reveal_strlit("");
    }
    assert(strs(lines@) =~= wasm_view_lines(data@));
    (summary, lines)
}

// ── Text ──
/// A line ended by a line feed loses one carriage return before it.
pub open spec fn strip_cr(l: Seq<char>) -> Seq<char> {
    if l.len() > 0 && l.last() == '\r' {
        l.drop_last()
    } else {
        l
    }
}

/// The lines of `s` from the line that began at `start`, scanning from `i`, as `str::lines`
/// splits them: at each line feed, with a last unterminated line kept as it is.
pub open spec fn lines_scan(s: Seq<char>, start: int, i: int) -> Seq<Seq<char>>
    decreases s.len() - i,
{
    if i < start || i >= s.len() {
        if 0 <= start < s.len() {
            seq![s.subrange(start, s.len() as int)]
        } else {
            Seq::empty()
        }
    } else if s[i] == '\n' {
        seq![strip_cr(s.subrange(start, i))] + lines_scan(s, i + 1, i + 1)
    } else {
        lines_scan(s, start, i + 1)
    }
}

/// The lines of a text, as `str::lines` yields them.
pub open spec fn text_lines(s: Seq<char>) -> Seq<Seq<char>> {
    lines_scan(s, 0, 0)
}

/// Numbered rows for the first thirty of `ls`.
pub open spec fn numbered_rows(ls: Seq<Seq<char>>) -> Seq<Seq<char>> {
    Seq::new(
        min_int(30, ls.len() as int) as nat,
        |k: int| pad_left(dec(k + 1), 3) + " │ "@ + ls[k],
    )
}

pub open spec fn text_summary(f: DetectedFormat, s: Seq<char>, size: int) -> Seq<char> {
    format_name(f)@ + " ("@ + dec(text_lines(s).len() as int) + " lines, "@ + dec(size)
        + " bytes)"@
}

/// The first thirty numbered lines, then how many more there are.
pub open spec fn text_preview(s: Seq<char>) -> Seq<Seq<char>> {
    let ls = text_lines(s);
    numbered_rows(ls) + if ls.len() > 30 {
        seq!["... ("@ + dec(ls.len() - 30) + " more lines)"@]
    } else {
        Seq::empty()
    }
}

/// The row for line number `no` with the text `line`.
fn numbered_row(no: usize, line: &[char]) -> (r: Vec<char>)
    ensures
        r@ == pad_left(dec(no as int), 3) + " │ "@ + line@,
{
    let digits = crate::text::fmt_u64(no as u64);
    let mut v: Vec<char> = Vec::new();
    let mut pad: usize = digits.len();
    while pad < 3
        invariant
            digits@ == dec(no as int),
            digits@.len() <= pad <= 3 || pad == digits@.len(),
            v@ =~= Seq::new((pad - digits@.len()) as nat, |i: int| ' '),
        decreases 3 - pad,
    {
        v.push(' ');
        pad += 1;
    }
    push_chars(&mut v, digits.as_slice());
    assert(v@ =~= pad_left(dec(no as int), 3));
    push_str(&mut v, " │ ");
    push_chars(&mut v, line);
    v
}

/// `s[from..to]`, less one carriage return at its end.
fn line_without_cr(s: &[char], from: usize, to: usize) -> (r: Vec<char>)
    requires
        from <= to <= s@.len(),
    ensures
        r@ == strip_cr(s@.subrange(from as int, to as int)),
{
    let end = if to > from && s[to - 1] == '\r' { to - 1 } else { to };
    let r = slice_range(s, from, end);
    assert(r@ =~= strip_cr(s@.subrange(from as int, to as int)));
    r
}

fn decode_text(f: DetectedFormat, text: &[char], size: usize) -> (r: (Vec<char>, Vec<String>))
    ensures
        r.0@ == text_summary(f, text@, size as int),
        strs(r.1@) == text_preview(text@),
{
    let n = text.len();
    let mut rows: Vec<String> = Vec::new();
    let mut count: usize = 0;
    let mut start: usize = 0;
    let mut i: usize = 0;
    let ghost mut done: Seq<Seq<char>> = Seq::empty();
    while i < n
        invariant
            n == text@.len(),
            start <= i <= n,
            count == done.len(),
            count <= start,
            text_lines(text@) == done + lines_scan(text@, start as int, i as int),
            strs(rows@) == numbered_rows(done),
        decreases n - i,
    {
        if text[i] == '\n' {
            let line = line_without_cr(text, start, i);
            if count < 30 {
                let row = numbered_row(count + 1, line.as_slice());
                push_line(&mut rows, row.as_slice());
            }
            proof {
                assert(lines_scan(text@, start as int, i as int) == seq![line@] + lines_scan(
                    text@,
                    i + 1,
                    i + 1,
                ));
                assert(done + lines_scan(text@, start as int, i as int) =~= done.push(line@)
                    + lines_scan(text@, i + 1, i + 1));
                assert(numbered_rows(done.push(line@)) =~= if count < 30 {
                    numbered_rows(done).push(pad_left(dec(count + 1), 3) + " │ "@ + line@)
                } else {
                    numbered_rows(done)
                });
                done = done.push(line@);
            }
            count += 1;
            start = i + 1;
        }
        i += 1;
    }
    if start < n {
        let line = slice_range(text, start, n);
        if count < 30 {
            let row = numbered_row(count + 1, line.as_slice());
            push_line(&mut rows, row.as_slice());
        }
        proof {
            assert(numbered_rows(done.push(line@)) =~= if count < 30 {
                numbered_rows(done).push(pad_left(dec(count + 1), 3) + " │ "@ + line@)
            } else {
                numbered_rows(done)
            });
            done = done.push(line@);
        }
        count += 1;
    }
    assert(text_lines(text@) =~= done);
    if count > 30 {
        let mut l: Vec<char> = Vec::new();
        push_num(&mut l, "... (", (count - 30) as u64, " more lines)");
        push_line(&mut rows, l.as_slice());
    }
    let mut summary: Vec<char> = Vec::new();
    push_str(&mut summary, f.name());
    push_pair(&mut summary, " (", count as u64, " lines, ", size as u64, " bytes)");
    assert(strs(rows@) =~= text_preview(text@));
    (summary, rows)
}

// ── Binary ──
pub open spec fn binary_summary(d: Seq<u8>) -> Seq<char> {
    sized_summary("Raw Binary Data Stream | Size: ", d)
}

pub open spec fn binary_lines(d: Seq<u8>) -> Seq<Seq<char>> {
    seq!["── Hexadecimal Memory Dump ──"@] + hex_dump(head(d, 192))
}

// ── The viewer ──
/// What the viewer can read without failing: a bitmap header with its depth field, and a
/// wave header whose byte rate fits in 32 bits.
pub open spec fn sniff_readable(name: Seq<char>, d: Seq<u8>) -> bool {
    &&& detect_spec(name, d) == DetectedFormat::Bmp ==> bmp_readable(d)
    &&& detect_spec(name, d) == DetectedFormat::Wav ==> wav_rate_readable(d)
}

/// The summary line of a file.
pub open spec fn summary_spec(name: Seq<char>, d: Seq<u8>) -> Seq<char> {
    let f = detect_spec(name, d);
    match f {
        DetectedFormat::Pdf => pdf_summary(d),
        DetectedFormat::Png => png_summary(d),
        DetectedFormat::Bmp => bmp_summary(d),
        DetectedFormat::Qoi => qoi_summary(d),
        DetectedFormat::Jpeg => sized_summary("JPEG Compressed Image | Size: ", d),
        DetectedFormat::Wav => wav_summary(d),
        DetectedFormat::Mp3 => sized_summary("MPEG Audio Layer 3 (MP3) | Size: ", d),
        DetectedFormat::Wasm => wasm_summary(d),
        DetectedFormat::Binary => binary_summary(d),
        _ => text_summary(f, decode_utf8(d), d.len() as int),
    }
}

/// The preview lines of a file.
pub open spec fn preview_spec(name: Seq<char>, d: Seq<u8>) -> Seq<Seq<char>> {
    match detect_spec(name, d) {
        DetectedFormat::Pdf => pdf_lines(d),
        DetectedFormat::Png => png_lines(d),
        DetectedFormat::Bmp => bmp_lines(d),
        DetectedFormat::Qoi => qoi_lines(d),
        DetectedFormat::Jpeg => fixed_lines(
            "── JPEG Container ──",
            "  Encoding: Discrete Cosine Transform (DCT)",
            "  Color Space: YCbCr 4:2:0 Subsampled",
            d,
            96,
        ),
        DetectedFormat::Wav => wav_view_lines(d),
        DetectedFormat::Mp3 => fixed_lines(
            "── Audio Bitstream ──",
            "  Container: ID3v2 Tagged MP3 Stream",
            "  Bitrate: 320 kbps High-Fidelity",
            d,
            96,
        ),
        DetectedFormat::Wasm => wasm_view_lines(d),
        DetectedFormat::Binary => binary_lines(d),
        _ => text_preview(decode_utf8(d)),
    }
}

/// Whether the viewer can read the file without failing (see `sniff_readable`).
pub fn sniff_ok(name: &str, data: &[u8]) -> (r: bool)
    ensures
        r == sniff_readable(name@, data@),
{
    let f = detect_format(name, data);
    let n = data.len();
    if f == DetectedFormat::Bmp {
        n < 28 || (n >= 30 && read_le32(data, 18) != 2147483648 && read_le32(data, 22) != 2147483648)
    } else if f == DetectedFormat::Wav {
        let (ch, rate, bpp): (u64, u64, u64) = if n >= 36 {
            (read_le16(data, 22) as u64, read_le32(data, 24) as u64, read_le16(data, 34) as u64)
        } else {
            (2, 44100, 16)
        };
        assert(rate * ch <= 0xffff_ffff * 0xffff && rate * ch * (bpp / 8) <= 0xffff_ffff * 0xffff * 0xffff)
            by (nonlinear_arith)
            requires
                rate <= 0xffff_ffff,
                ch <= 0xffff,
                bpp <= 0xffff,
        {
            assert(0 <= rate * ch);
            assert(bpp / 8 <= 0xffff);
        }
        let rc = rate * ch;
        rc <= 4294967295 && rc * (bpp / 8) <= 4294967295
    } else {
        true
    }
}

/// Detects the format of a file from its bytes (and name, for text) and builds its summary
/// and preview.
pub fn sniff_and_decode(name: &str, data: &[u8]) -> (r: DecodedFile)
    requires
        sniff_readable(name@, data@),
    ensures
        r.format == detect_spec(name@, data@),
        r.size == data@.len(),
        r.header_summary@ == summary_spec(name@, data@),
        strs(r.preview_lines@) == preview_spec(name@, data@),
{
    let size = data.len();
    let format = detect_format(name, data);
    let (summary, preview_lines) = match format {
        DetectedFormat::Pdf => decode_pdf(data),
        DetectedFormat::Png => decode_png(data),
        DetectedFormat::Bmp => decode_bmp(data),
        DetectedFormat::Qoi => decode_qoi(data),
        DetectedFormat::Jpeg => decode_fixed(
            data,
            "JPEG Compressed Image | Size: ",
            "── JPEG Container ──",
            "  Encoding: Discrete Cosine Transform (DCT)",
            "  Color Space: YCbCr 4:2:0 Subsampled",
        ),
        DetectedFormat::Wav => decode_wav(data),
        DetectedFormat::Mp3 => decode_fixed(
            data,
            "MPEG Audio Layer 3 (MP3) | Size: ",
            "── Audio Bitstream ──",
            "  Container: ID3v2 Tagged MP3 Stream",
            "  Bitrate: 320 kbps High-Fidelity",
        ),
        DetectedFormat::Wasm => decode_wasm(data),
        DetectedFormat::Binary => {
            let mut summary: Vec<char> = Vec::new();
            push_num(&mut summary, "Raw Binary Data Stream | Size: ", size as u64, " bytes");
            let mut lines: Vec<String> = Vec::new();
            push_str_line(&mut lines, "── Hexadecimal Memory Dump ──");
            let cap = if size < 192 { size } else { 192 };
            append_hex_dump(&mut lines, data, cap);
            assert(strs(lines@) =~= binary_lines(data@));
            (summary, lines)
        },
        _ => {
            let text = match utf8_chars(data) {
                Some(v) => v,
                None => Vec::new(),
            };
            decode_text(format, text.as_slice(), size)
        },
    };
    DecodedFile {
        format,
        size,
        header_summary: crate::text::to_string(summary.as_slice()),
        preview_lines,
    }
}


/// UTF-8 text whose first non-whitespace character opens an array or an object is JSON,
/// whatever the file is called: no binary signature starts with a character that text can
/// begin with and is not whitespace or a bracket.
pub proof fn lemma_bracket_text_is_json(name: Seq<char>, d: Seq<u8>)
    requires
        valid_utf8(d),
        trim_start_spec(decode_utf8(d)).len() > 0,
        trim_start_spec(decode_utf8(d))[0] == '[' || trim_start_spec(decode_utf8(d))[0] == '{',
    ensures
        detect_spec(name, d) == DetectedFormat::Json,
{
    let text = decode_utf8(d);
    assert(d.len() > 0) by {
        if d.len() == 0 {
            assert(text =~= Seq::<char>::empty());
        }
    }
    let b0 = d[0];
    assert(valid_first_scalar(d));
    assert(text[0] == decode_first_scalar(d) as char);
    if b0 == 0x25 || b0 == 0x42 || b0 == 0x71 || b0 == 0x52 || b0 == 0x49 || b0 == 0x00 {
        assert(decode_first_scalar(d) == b0 as u32) by {
            assert((b0 & 0x7F) as u32 == b0 as u32) by (bit_vector)
                requires
                    b0 < 0x80,
            ;
        }
        let c = text[0];
        assert(c as u32 == b0 as u32);
        assert(!crate::text::is_ws(c));
        assert(trim_start_spec(text) == text);
        assert(false);
    }
    assert(b0 != 0x89 && b0 != 0xff);
}


/// The leading bytes decide the format, whatever the file is called: `%PDF` is a PDF, the
/// eight-byte PNG signature a PNG, `FF D8 FF` a JPEG, `BM` a bitmap, `qoif` a QOI image,
/// `RIFF` with `WAVE` at offset 8 a wave file, `ID3` or an `FF FA`/`FF FB` frame sync an MP3,
/// and `\0asm` a WebAssembly module.
pub proof fn lemma_signatures_decide(name: Seq<char>, d: Seq<u8>)
    ensures
        d.len() >= 4 && d[0] == 0x25 && d[1] == 0x50 && d[2] == 0x44 && d[3] == 0x46 ==> detect_spec(name, d)
            == DetectedFormat::Pdf,
        d.len() >= 8 && d[0] == 0x89 && d[1] == 0x50 && d[2] == 0x4e && d[3] == 0x47 && d[4] == 0x0d && d[5]
            == 0x0a && d[6] == 0x1a && d[7] == 0x0a ==> detect_spec(name, d) == DetectedFormat::Png,
        d.len() >= 3 && d[0] == 0xff && d[1] == 0xd8 && d[2] == 0xff ==> detect_spec(name, d)
            == DetectedFormat::Jpeg,
        d.len() >= 2 && d[0] == 0x42 && d[1] == 0x4d ==> detect_spec(name, d) == DetectedFormat::Bmp,
        d.len() >= 4 && d[0] == 0x71 && d[1] == 0x6f && d[2] == 0x69 && d[3] == 0x66 ==> detect_spec(name, d)
            == DetectedFormat::Qoi,
        d.len() >= 12 && d[0] == 0x52 && d[1] == 0x49 && d[2] == 0x46 && d[3] == 0x46 && d[8] == 0x57 && d[9]
            == 0x41 && d[10] == 0x56 && d[11] == 0x45 ==> detect_spec(name, d) == DetectedFormat::Wav,
        d.len() >= 3 && ((d[0] == 0x49 && d[1] == 0x44 && d[2] == 0x33) || (d[0] == 0xff && (d[1] == 0xfa
            || d[1] == 0xfb))) ==> detect_spec(name, d) == DetectedFormat::Mp3,
        d.len() >= 4 && d[0] == 0x00 && d[1] == 0x61 && d[2] == 0x73 && d[3] == 0x6d ==> detect_spec(name, d)
            == DetectedFormat::Wasm,
{
}

/// Without a signature, bytes that are not UTF-8 are binary, and UTF-8 text that starts with
/// `#` is Markdown.
pub proof fn lemma_text_kinds(name: Seq<char>, d: Seq<u8>)
    requires
        d.len() > 0,
        d[0] != 0x25 && d[0] != 0x89 && d[0] != 0xff && d[0] != 0x42 && d[0] != 0x71 && d[0] != 0x52
            && d[0] != 0x49 && d[0] != 0x00,
    ensures
        !valid_utf8(d) ==> detect_spec(name, d) == DetectedFormat::Binary,
        valid_utf8(d) && d[0] == 0x23 ==> detect_spec(name, d) == DetectedFormat::Markdown,
{
    if valid_utf8(d) && d[0] == 0x23 {
        let text = decode_utf8(d);
        assert(valid_first_scalar(d));
        assert(text[0] == decode_first_scalar(d) as char);
        let b0 = d[0];
        assert((b0 & 0x7F) as u32 == b0 as u32) by (bit_vector)
            requires
                b0 < 0x80,
        ;
        assert(text[0] as u32 == 0x23);
        assert(!crate::text::is_ws(text[0]));
        assert(trim_start_spec(text) == text);
    }
}

} // verus!
