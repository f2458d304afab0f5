use bibiocr::export::{docx_bytes, document_xml, xml_escape};
use std::io::{Cursor, Read};

#[test]
fn docx_contains_the_real_markdown_text() {
    let bytes = docx_bytes("# 标题\n\n真实 OCR 内容").unwrap();
    let mut archive = zip::ZipArchive::new(Cursor::new(bytes)).unwrap();
    let mut xml = String::new();
    archive
        .by_name("word/document.xml")
        .unwrap()
        .read_to_string(&mut xml)
        .unwrap();
    assert!(xml.contains("标题"));
    assert!(xml.contains("真实 OCR 内容"));
}

#[test]
fn docx_holds_the_three_package_parts() {
    let bytes = docx_bytes("text").unwrap();
    let mut archive = zip::ZipArchive::new(Cursor::new(bytes)).unwrap();
    assert_eq!(archive.len(), 3);
    for name in ["[Content_Types].xml", "_rels/.rels", "word/document.xml"] {
        assert!(archive.by_name(name).is_ok());
    }
}

#[test]
fn markup_characters_are_escaped() {
    assert_eq!(
        xml_escape("a & b < c > d \" e ' f"),
        "a &amp; b &lt; c &gt; d &quot; e &apos; f"
    );
    assert_eq!(xml_escape("&amp;"), "&amp;amp;");
    assert_eq!(xml_escape("普通"), "普通");
}

#[test]
fn each_markdown_line_becomes_a_paragraph_without_heading_marks() {
    let xml = document_xml("## Title\n\nx<y");
    assert!(xml.starts_with("<?xml version=\"1.0\""));
    assert!(xml.ends_with("<w:sectPr/></w:body></w:document>"));
    assert!(xml.contains(
        "<w:p><w:r><w:t xml:space=\"preserve\">Title</w:t></w:r></w:p><w:p><w:r><w:t xml:space=\"preserve\"></w:t></w:r></w:p><w:p><w:r><w:t xml:space=\"preserve\">x&lt;y</w:t></w:r></w:p>"
    ));
}

#[test]
fn an_empty_or_large_document_is_still_exported() {
    assert!(docx_bytes("").is_ok());
    let long = "段落 & <标记>\n".repeat(20_000);
    let bytes = docx_bytes(&long).unwrap();
    let mut archive = zip::ZipArchive::new(Cursor::new(bytes)).unwrap();
    assert_eq!(archive.len(), 3);
    let mut xml = String::new();
    archive
        .by_name("word/document.xml")
        .unwrap()
        .read_to_string(&mut xml)
        .unwrap();
    assert!(xml.contains("段落 &amp; &lt;标记&gt;"));
}
