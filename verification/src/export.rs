//! Exporting a scan's Markdown as a Word document: a minimal `.docx`
//! package whose body holds one paragraph per Markdown line.

use vstd::prelude::*;
use crate::text::{
    from_chars, lines_chars, lines_seq, push_all, skip_leading, to_chars, trim_bounds,
    trim_start_char, trim_seq,
};
use std::io::{Cursor, Write};
use vstd::utf8::encode_utf8;
use zip::result::ZipError;
use zip::write::SimpleFileOptions;
use zip::{CompressionMethod, ZipWriter};

verus! {

// ---------------------------------------------------------------------------
// The document part
// ---------------------------------------------------------------------------

/// A character as it stands in XML text: the five markup characters as
/// entities, every other character as itself.
pub open spec fn escape_char(c: char) -> Seq<char> {
    if c == '&' {
        "&amp;"@
    } else if c == '<' {
        "&lt;"@
    } else if c == '>' {
        "&gt;"@
    } else if c == '"' {
        "&quot;"@
    } else if c == '\'' {
        "&apos;"@
    } else {
        seq![c]
    }
}

/// `text` escaped for XML, character by character.
pub open spec fn xml_escaped(text: Seq<char>) -> Seq<char>
    decreases text.len(),
{
    if text.len() == 0 {
        Seq::empty()
    } else {
        xml_escaped(text.drop_last()) + escape_char(text.last())
    }
}

pub const PARAGRAPH_OPEN: &'static str = "<w:p><w:r><w:t xml:space=\"preserve\">";

pub const PARAGRAPH_CLOSE: &'static str = "</w:t></w:r></w:p>";

pub const DOCUMENT_OPEN: &'static str = "<?xml version=\"1.0\" encoding=\"UTF-8\" standalone=\"yes\"?><w:document xmlns:w=\"http://schemas.openxmlformats.org/wordprocessingml/2006/main\"><w:body>";

pub const DOCUMENT_CLOSE: &'static str = "<w:sectPr/></w:body></w:document>";

pub const CONTENT_TYPES_XML: &'static str = "<?xml version=\"1.0\" encoding=\"UTF-8\" standalone=\"yes\"?><Types xmlns=\"http://schemas.openxmlformats.org/package/2006/content-types\"><Default Extension=\"rels\" ContentType=\"application/vnd.openxmlformats-package.relationships+xml\"/><Default Extension=\"xml\" ContentType=\"application/xml\"/><Override PartName=\"/word/document.xml\" ContentType=\"application/vnd.openxmlformats-officedocument.wordprocessingml.document.main+xml\"/></Types>";

pub const RELATIONSHIPS_XML: &'static str = "<?xml version=\"1.0\" encoding=\"UTF-8\" standalone=\"yes\"?><Relationships xmlns=\"http://schemas.openxmlformats.org/package/2006/relationships\"><Relationship Id=\"rId1\" Type=\"http://schemas.openxmlformats.org/officeDocument/2006/relationships/officeDocument\" Target=\"word/document.xml\"/></Relationships>";

/// A Markdown line as the text of a paragraph: heading marks and the
/// surrounding whitespace removed.
pub open spec fn paragraph_text(line: Seq<char>) -> Seq<char> {
    trim_seq(trim_start_char(line, '#'))
}

/// The paragraphs of the given lines, one after the other.
pub open spec fn paragraphs_xml(lines: Seq<Seq<char>>) -> Seq<char>
    decreases lines.len(),
{
    if lines.len() == 0 {
        Seq::empty()
    } else {
        paragraphs_xml(lines.drop_last()) + PARAGRAPH_OPEN@ + xml_escaped(
            paragraph_text(lines.last()),
        ) + PARAGRAPH_CLOSE@
    }
}

/// The `word/document.xml` part for `markdown`: one paragraph per line.
pub open spec fn document_xml_of(markdown: Seq<char>) -> Seq<char> {
    DOCUMENT_OPEN@ + paragraphs_xml(lines_seq(markdown)) + DOCUMENT_CLOSE@
}

/// Escaped text cannot break the document's markup: it holds no `<`, `>`,
/// quote or apostrophe, and is never shorter than the text.
pub proof fn law_escaped_text_has_no_markup(text: Seq<char>)
    ensures
        forall|i: int|
            0 <= i < xml_escaped(text).len() ==> {
                let c = #[trigger] xml_escaped(text)[i];
                c != '<' && c != '>' && c != '"' && c != '\''
            },
        xml_escaped(text).len() >= text.len(),
    decreases text.len(),
{
    reveal_strlit("&amp;");
    reveal_strlit("&lt;");
    reveal_strlit("&gt;");
    reveal_strlit("&quot;");
    reveal_strlit("&apos;");
    if text.len() > 0 {
        law_escaped_text_has_no_markup(text.drop_last());
        let before = xml_escaped(text.drop_last());
        let tail = escape_char(text.last());
        assert forall|i: int| 0 <= i < (before + tail).len() implies {
            let c = #[trigger] (before + tail)[i];
            c != '<' && c != '>' && c != '"' && c != '\''
        } by {
            if i >= before.len() {
                assert((before + tail)[i] == tail[i - before.len()]);
            } else {
                assert((before + tail)[i] == before[i]);
            }
        }
    }
}

/// Appends `text` escaped for XML.
fn push_escaped(out: &mut Vec<char>, text: &[char])
    ensures
        final(out)@ == old(out)@ + xml_escaped(text@),
{
    let mut i: usize = 0;
    assert(text@.take(0) == Seq::<char>::empty());
    while i < text.len()
        invariant
            0 <= i <= text@.len(),
            out@ == old(out)@ + xml_escaped(text@.take(i as int)),
        decreases text@.len() - i,
    {
        let c = text[i];
        proof {
            assert(text@.take(i + 1).drop_last() == text@.take(i as int));
            assert(text@.take(i + 1).last() == c);
        }
        if c == '&' {
            push_all(out, &to_chars("&amp;"));
        } else if c == '<' {
            push_all(out, &to_chars("&lt;"));
        } else if c == '>' {
            push_all(out, &to_chars("&gt;"));
        } else if c == '"' {
            push_all(out, &to_chars("&quot;"));
        } else if c == '\'' {
            push_all(out, &to_chars("&apos;"));
        } else {
            out.push(c);
        }
        i += 1;
    }
    assert(text@.take(text@.len() as int) == text@);
}

/// `text` escaped for XML.
pub fn xml_escape(text: &str) -> (r: String)
    ensures
        r@ == xml_escaped(text@),
{
    let mut out: Vec<char> = Vec::new();
    push_escaped(&mut out, &to_chars(text));
    from_chars(&out)
}

/// The `word/document.xml` part for `markdown`.
pub fn document_xml(markdown: &str) -> (r: String)
    ensures
        r@ == document_xml_of(markdown@),
{
    let lines = lines_chars(&to_chars(markdown));
    let ghost ls = lines_seq(markdown@);
    let mut out = to_chars(DOCUMENT_OPEN);
    let ghost head = out@;
    let mut i: usize = 0;
    assert(ls.take(0) == Seq::<Seq<char>>::empty());
    while i < lines.len()
        invariant
            lines@.len() == ls.len(),
            forall|j: int| 0 <= j < lines@.len() ==> #[trigger] lines@[j]@ == ls[j],
            0 <= i <= lines@.len(),
            head == DOCUMENT_OPEN@,
            out@ == head + paragraphs_xml(ls.take(i as int)),
        decreases lines@.len() - i,
    {
        let line = lines[i].as_slice();
        let start = skip_leading(line, 0, line.len(), '#');
        let (a, b) = trim_bounds(line, start, line.len());
        assert(line@.subrange(0, line@.len() as int) == line@);
        let text = crate::text::sub_chars(line, a, b);
        push_all(&mut out, &to_chars(PARAGRAPH_OPEN));
        push_escaped(&mut out, &text);
        push_all(&mut out, &to_chars(PARAGRAPH_CLOSE));
        proof {
            assert(ls.take(i + 1).drop_last() == ls.take(i as int));
            assert(ls.take(i + 1).last() == ls[i as int]);
        }
        i += 1;
    }
    assert(ls.take(ls.len() as int) == ls);
    push_all(&mut out, &to_chars(DOCUMENT_CLOSE));
    from_chars(&out)
}

// ---------------------------------------------------------------------------
// The package
// ---------------------------------------------------------------------------

/// A `.docx` package being written: a `zip::ZipWriter` over an in-memory
/// buffer. Verus does not take a declaration of the writer type (its bounds
/// name std's `Write` and `Seek`), so the writer is held here, out of
/// Verus's sight, and described by `zip_entries`.
#[verifier::external_body]
pub struct PackageWriter {
    writer: ZipWriter<Cursor<Vec<u8>>>,
}

#[verifier::external_type_specification]
#[verifier::external_body]
pub struct ExZipError(ZipError);

#[verifier::external_type_specification]
#[verifier::external_body]
pub struct ExIoError(std::io::Error);

/// The entries written so far into an archive under construction: each
/// entry's name and the bytes written into it, in order.
pub uninterp spec fn zip_entries(archive: PackageWriter) -> Seq<(Seq<char>, Seq<u8>)>;

/// Whether the archive has an entry started and still open for its bytes.
pub uninterp spec fn entry_open(archive: PackageWriter) -> bool;

/// The bytes of a finished archive that holds `entries`, each stored
/// without compression and with the default entry options.
pub uninterp spec fn stored_archive(entries: Seq<(Seq<char>, Seq<u8>)>) -> Seq<u8>;

/// Some entry of `entries` is named `name`.
pub open spec fn has_entry_named(entries: Seq<(Seq<char>, Seq<u8>)>, name: Seq<char>) -> bool {
    exists|i: int| 0 <= i < entries.len() && #[trigger] entries[i].0 == name
}

/// An entry of this many bytes stays below the large-file threshold
/// (`u32::MAX`) above which the writer refuses entries it was not told are
/// large.
pub open spec fn below_large_file(len: int) -> bool {
    len < 0xFFFF_FFFF
}

/// The open entry, if any, is below the large-file threshold.
pub open spec fn open_entry_fits(archive: PackageWriter) -> bool {
    entry_open(archive) ==> zip_entries(archive).len() > 0 && below_large_file(
        zip_entries(archive).last().1.len() as int,
    )
}

/// A small archive: at most 8 entries, with names of at most 1000
/// characters and at most 256 MiB each, so that no offset or size needs
/// the ZIP64 extensions.
pub open spec fn fits_zip32(entries: Seq<(Seq<char>, Seq<u8>)>) -> bool {
    &&& entries.len() <= 8
    &&& forall|i: int|
        0 <= i < entries.len() ==> #[trigger] entries[i].0.len() <= 1000 && entries[i].1.len()
            <= 0x1000_0000
}

/// `ZipWriter::new` over an empty in-memory buffer: an archive without
/// entries, none of them open.
#[verifier::external_body]
fn new_archive() -> (archive: PackageWriter)
    ensures
        zip_entries(archive) == Seq::<(Seq<char>, Seq<u8>)>::empty(),
        !entry_open(archive),
{
    PackageWriter { writer: ZipWriter::new(Cursor::new(Vec::new())) }
}

/// `ZipWriter::start_file` with the default options and the `Stored`
/// method: on success an empty entry named `name` follows the earlier ones
/// and is open. It succeeds when no earlier entry has that name, the name
/// is short (its local header stays below 64 KiB) and the entry it closes
/// is below the large-file threshold: writing into memory does not fail.
/// Nothing is said of the archive after a failure.
#[verifier::external_body]
fn start_stored_entry(archive: &mut PackageWriter, name: &str) -> (r: Result<(), ZipError>)
    ensures
        r is Ok ==> zip_entries(*final(archive)) == zip_entries(*old(archive)).push(
            (name@, Seq::empty()),
        ) && entry_open(*final(archive)),
        !has_entry_named(zip_entries(*old(archive)), name@) && name@.len() <= 1000
            && open_entry_fits(*old(archive)) ==> r is Ok,
{
    archive.writer.start_file(
        name,
        SimpleFileOptions::default().compression_method(CompressionMethod::Stored),
    )
}

/// `Write::write_all` into the archive: on success the bytes follow those
/// already written into the entry started last. Writing no bytes succeeds
/// and changes nothing; bytes written into an open entry succeed while the
/// entry stays below the large-file threshold (the buffer is in memory).
#[verifier::external_body]
fn write_entry(archive: &mut PackageWriter, bytes: &[u8]) -> (r: Result<(), std::io::Error>)
    ensures
        r is Ok ==> (if bytes@.len() == 0 {
            zip_entries(*final(archive)) == zip_entries(*old(archive))
        } else {
            let before = zip_entries(*old(archive));
            &&& before.len() > 0
            &&& zip_entries(*final(archive)) == before.update(
                before.len() - 1,
                (before.last().0, before.last().1 + bytes@),
            )
        }) && entry_open(*final(archive)) == entry_open(*old(archive)),
        bytes@.len() == 0 ==> r is Ok,
        entry_open(*old(archive)) && zip_entries(*old(archive)).len() > 0 && below_large_file(
            (zip_entries(*old(archive)).last().1.len() + bytes@.len()) as int,
        ) ==> r is Ok,
{
    archive.writer.write_all(bytes)
}

/// `ZipWriter::finish` and `Cursor::into_inner`: on success, the bytes of
/// the archive of the entries written. A small archive is always finished:
/// its open entry is closed, and the central directory written, in memory.
#[verifier::external_body]
fn finish_archive(archive: PackageWriter) -> (r: Result<Vec<u8>, ZipError>)
    ensures
        r matches Ok(b) ==> b@ == stored_archive(zip_entries(archive)),
        fits_zip32(zip_entries(archive)) ==> r is Ok,
{
    archive.writer.finish().map(|cursor| cursor.into_inner())
}

/// The message of a zip error (`ToString`); nothing is said of its text.
#[verifier::external_body]
fn zip_error_text(error: ZipError) -> String {
    error.to_string()
}

/// The message of an I/O error (`ToString`); nothing is said of its text.
#[verifier::external_body]
fn io_error_text(error: std::io::Error) -> String {
    error.to_string()
}

/// The parts of the `.docx` package for `markdown`, in the order they are
/// written, as UTF-8.
pub open spec fn docx_entries(markdown: Seq<char>) -> Seq<(Seq<char>, Seq<u8>)> {
    seq![
        ("[Content_Types].xml"@, encode_utf8(CONTENT_TYPES_XML@)),
        ("_rels/.rels"@, encode_utf8(RELATIONSHIPS_XML@)),
        ("word/document.xml"@, encode_utf8(document_xml_of(markdown))),
    ]
}

/// UTF-8 takes at most four bytes a character.
proof fn lemma_utf8_len(chars: Seq<char>)
    ensures
        encode_utf8(chars).len() <= 4 * chars.len(),
    decreases chars.len(),
{
    if chars.len() > 0 {
        lemma_utf8_len(chars.drop_first());
    }
}

/// Adds an entry named `name` holding `contents` as UTF-8. It succeeds when
/// no earlier entry has that name, the name has at most 1000 characters,
/// the open entry it closes is below the large-file threshold and so are
/// the contents.
fn add_entry(archive: &mut PackageWriter, name: &str, contents: &str) -> (r: Result<(), String>)
    ensures
        r is Ok ==> zip_entries(*final(archive)) == zip_entries(*old(archive)).push(
            (name@, encode_utf8(contents@)),
        ) && entry_open(*final(archive)),
        !has_entry_named(zip_entries(*old(archive)), name@) && name@.len() <= 1000
            && open_entry_fits(*old(archive)) && below_large_file(encode_utf8(contents@).len() as int)
            ==> r is Ok,
{
    match start_stored_entry(archive, name) {
        Ok(()) => {},
        Err(e) => return Err(zip_error_text(e)),
    }
    let bytes = contents.as_bytes();
    match write_entry(archive, bytes) {
        Ok(()) => {
            let ghost after = zip_entries(*old(archive)).push((name@, Seq::<u8>::empty()));
            assert(after.update(after.len() - 1, (after.last().0, after.last().1 + bytes@))
                == zip_entries(*old(archive)).push((name@, encode_utf8(contents@))));
            Ok(())
        },
        Err(e) => Err(io_error_text(e)),
    }
}

/// The `.docx` file for `markdown`: the stored archive of its content
/// types, its package relationships and its document part. It is always
/// made when the document part takes at most 256 MiB.
pub fn docx_bytes(markdown: &str) -> (r: Result<Vec<u8>, String>)
    ensures
        r matches Ok(b) ==> b@ == stored_archive(docx_entries(markdown@)),
        encode_utf8(document_xml_of(markdown@)).len() <= 0x1000_0000 ==> r is Ok,
{
    proof {
        reveal_strlit("[Content_Types].xml");
        reveal_strlit("_rels/.rels");
        reveal_strlit("word/document.xml");
        reveal_strlit("<?xml version=\"1.0\" encoding=\"UTF-8\" standalone=\"yes\"?><Types xmlns=\"http://schemas.openxmlformats.org/package/2006/content-types\"><Default Extension=\"rels\" ContentType=\"application/vnd.openxmlformats-package.relationships+xml\"/><Default Extension=\"xml\" ContentType=\"application/xml\"/><Override PartName=\"/word/document.xml\" ContentType=\"application/vnd.openxmlformats-officedocument.wordprocessingml.document.main+xml\"/></Types>");
        reveal_strlit("<?xml version=\"1.0\" encoding=\"UTF-8\" standalone=\"yes\"?><Relationships xmlns=\"http://schemas.openxmlformats.org/package/2006/relationships\"><Relationship Id=\"rId1\" Type=\"http://schemas.openxmlformats.org/officeDocument/2006/relationships/officeDocument\" Target=\"word/document.xml\"/></Relationships>");
        lemma_utf8_len(CONTENT_TYPES_XML@);
        lemma_utf8_len(RELATIONSHIPS_XML@);
    }
    let mut archive = new_archive();
    if let Err(e) = add_entry(&mut archive, "[Content_Types].xml", CONTENT_TYPES_XML) {
        return Err(e);
    }
    proof {
        assert(!has_entry_named(zip_entries(archive), "_rels/.rels"@)) by {
            assert(zip_entries(archive)[0].0 == "[Content_Types].xml"@);
            assert("[Content_Types].xml"@[0] != "_rels/.rels"@[0]);
        }
    }
    if let Err(e) = add_entry(&mut archive, "_rels/.rels", RELATIONSHIPS_XML) {
        return Err(e);
    }
    let document = document_xml(markdown);
    proof {
        let es = zip_entries(archive);
        assert(!has_entry_named(es, "word/document.xml"@)) by {
            assert(es[0].0 == "[Content_Types].xml"@);
            assert(es[1].0 == "_rels/.rels"@);
            assert("[Content_Types].xml"@[0] != "word/document.xml"@[0]);
            assert("_rels/.rels"@[0] != "word/document.xml"@[0]);
        }
    }
    if let Err(e) = add_entry(&mut archive, "word/document.xml", document.as_str()) {
        return Err(e);
    }
    assert(zip_entries(archive) == docx_entries(markdown@));
    match finish_archive(archive) {
        Ok(bytes) => Ok(bytes),
        Err(e) => Err(zip_error_text(e)),
    }
}

} // verus!
