use folix::docs::{Document, ReflowLayout};
use folix::reflow::{ContentBlock, ReflowDocument};
use std::io::Write;

fn chapter_text(doc: &ReflowDocument, idx: usize) -> String {
    let ch = doc.load_chapter(idx, false);
    ch.blocks
        .iter()
        .map(|b| match b {
            ContentBlock::Text(t) => t.as_str(),
            _ => "",
        })
        .collect::<Vec<&str>>()
        .join("")
}

#[test]
fn test_open_txt_utf8() {
    let doc = ReflowDocument::open_text_bytes("/tmp/folix_test/test_utf8.txt", b"Hello World\nLine 2")
        .expect("Failed to open UTF-8 TXT");
    assert_eq!(doc.chapter_count(), 1);
    let text = chapter_text(&doc, 0);
    assert!(text.contains("Hello World"));
    assert_eq!(doc.title(), "test_utf8");
}

#[test]
fn test_open_txt_gbk_small() {
    let gbk_data = b"\xd6\xd0\xce\xc4\xb2\xe2\xca\xd4\nLine2";
    let doc = ReflowDocument::open_text_bytes("/tmp/folix_test/test_gbk.txt", gbk_data)
        .expect("Failed to open GBK TXT");
    let text = chapter_text(&doc, 0);
    assert!(text.contains("中文测试"), "GBK text should decode as '中文测试', got: {:?}", text);
}

#[test]
fn test_open_markdown() {
    let md_content = r#"# Chapter 1
Hello **world** with *some* `code`.
More text.

# Chapter 2
Another *italic* paragraph.

## Subheading
Some ~~strikethrough~~ text.
"#;
    let doc = ReflowDocument::open_text_bytes("/tmp/folix_test/test.md", md_content.as_bytes())
        .expect("Failed to open Markdown");
    assert!(doc.chapter_count() >= 2, "Should have at least 2 chapters from # headings, got {}", doc.chapter_count());
    let text0 = chapter_text(&doc, 0);
    assert!(text0.contains("world"), "Bold text should be kept: {:?}", text0);
    assert!(text0.contains("code"), "Inline code text should be kept: {:?}", text0);
    assert!(!text0.contains("**"), "Bold markers should be stripped: {:?}", text0);
    assert!(!text0.contains('*'), "Italic markers should be stripped: {:?}", text0);
    let text1 = chapter_text(&doc, 1);
    assert!(text1.contains("strikethrough"), "Strikethrough text should be kept: {:?}", text1);
    assert!(!text1.contains("~~"), "Strikethrough markers should be stripped: {:?}", text1);
}

#[test]
fn test_open_markdown_links_images() {
    let md = r#"# Links
This is [a link](https://example.com) and an image ![alt](img.png).

More text.
"#;
    let doc = ReflowDocument::open_text_bytes("/tmp/folix_test/links.md", md.as_bytes())
        .expect("Failed to open MD with links");
    let text = chapter_text(&doc, 0);
    assert!(text.contains("a link"), "Link text should be kept: {:?}", text);
    assert!(!text.contains("https://"), "URL should be stripped: {:?}", text);
    assert!(!text.contains("[a link]"), "Link brackets should be stripped: {:?}", text);
    assert!(!text.contains("![alt]"), "Image syntax should be stripped: {:?}", text);
}

fn docx_bytes() -> Vec<u8> {
    let docx_xml = r#"<?xml version="1.0" encoding="UTF-8" standalone="yes"?>
<w:document xmlns:w="http://schemas.openxmlformats.org/wordprocessingml/2006/main">
  <w:body>
    <w:p>
      <w:r>
        <w:t>Hello World</w:t>
      </w:r>
    </w:p>
    <w:p>
      <w:pPr>
        <w:pStyle w:val="Heading1"/>
      </w:pPr>
      <w:r>
        <w:t>Chapter One</w:t>
      </w:r>
    </w:p>
    <w:p>
      <w:r>
        <w:t>Some body text here.</w:t>
      </w:r>
    </w:p>
  </w:body>
</w:document>"#;
    let content_types = r#"<?xml version="1.0" encoding="UTF-8" standalone="yes"?>
<Types xmlns="http://schemas.openxmlformats.org/package/2006/content-types">
  <Default Extension="rels" ContentType="application/vnd.openxmlformats-package.relationships+xml"/>
  <Default Extension="xml" ContentType="application/xml"/>
</Types>"#;
    let rels = r#"<?xml version="1.0" encoding="UTF-8" standalone="yes"?>
<Relationships xmlns="http://schemas.openxmlformats.org/package/2006/relationships">
  <Relationship Id="rId1" Type="http://schemas.openxmlformats.org/officeDocument/2006/relationships/officeDocument" Target="word/document.xml"/>
</Relationships>"#;
    let mut buf = std::io::Cursor::new(Vec::new());
    {
        let mut zip = zip::ZipWriter::new(&mut buf);
        let options: zip::write::FileOptions<'_, ()> =
            zip::write::FileOptions::default().compression_method(zip::CompressionMethod::Stored);
        zip.start_file("[Content_Types].xml", options).unwrap();
        zip.write_all(content_types.as_bytes()).unwrap();
        zip.start_file("_rels/.rels", options).unwrap();
        zip.write_all(rels.as_bytes()).unwrap();
        zip.start_file("word/document.xml", options).unwrap();
        zip.write_all(docx_xml.as_bytes()).unwrap();
        zip.finish().unwrap();
    }
    buf.into_inner()
}

#[test]
fn test_open_docx_simple() {
    let data = docx_bytes();
    let doc = ReflowDocument::from_docx_bytes("/tmp/folix_test/test.docx", &data).expect("Failed to open DOCX");
    assert_eq!(doc.chapter_count(), 2, "Should have 2 chapters (heading + body)");
    let text0 = chapter_text(&doc, 0);
    assert!(text0.contains("Hello World"), "Chapter 0 should contain Hello World: {:?}", text0);
    let text1 = chapter_text(&doc, 1);
    assert!(text1.contains("Chapter One"), "Chapter 1 should contain heading text: {:?}", text1);
    assert!(text1.contains("Some body text here."), "Chapter 1 should contain body text: {:?}", text1);
}

#[test]
fn docx_without_document_member_is_refused() {
    let mut buf = std::io::Cursor::new(Vec::new());
    {
        let mut zip = zip::ZipWriter::new(&mut buf);
        let options: zip::write::FileOptions<'_, ()> = zip::write::FileOptions::default();
        zip.start_file("other.xml", options).unwrap();
        zip.write_all(b"<a/>").unwrap();
        zip.finish().unwrap();
    }
    assert!(ReflowDocument::from_docx_bytes("x.docx", &buf.into_inner()).is_none());
    assert!(ReflowDocument::from_docx_bytes("x.docx", b"not a zip").is_none());
}

#[test]
fn empty_text_file_is_refused() {
    assert!(ReflowDocument::open_text_bytes("empty.txt", b"").is_none());
}

#[test]
fn text_chapters_follow_chapter_headings() {
    let text = "第一章 开始\n正文一\n\n第二章 继续\n正文二\n";
    let doc = ReflowDocument::open_text_bytes("novel.txt", text.as_bytes()).unwrap();
    assert!(doc.chapter_count() >= 2);
    let toc = doc.toc_entries();
    assert!(toc.iter().any(|t| t.label.contains("第一章")));
    assert!(toc.iter().any(|t| t.label.contains("第二章")));
    let all: String = (0..doc.chapter_count()).map(|i| chapter_text(&doc, i)).collect();
    assert!(all.contains("正文一") && all.contains("正文二"));
    assert!(doc.metadata("author").is_none());
    assert_eq!(doc.path(), "novel.txt");
}

#[test]
fn reflow_layout_reads_chapters_through_the_trait() {
    let doc = ReflowDocument::open_text_bytes("/notes/two.md", b"# One\nfirst\n# Two\nsecond")
        .expect("markdown opens");
    let layout = &doc;
    assert_eq!(ReflowLayout::chapter_count(layout), 2);
    assert_eq!(Document::title(layout), "two");
    let ch = ReflowLayout::load_chapter(layout, 1, false);
    assert_eq!(ch.title, "Two");
    assert!(ReflowLayout::chapter_text(layout, 1).contains("second"));
    assert!(!ReflowLayout::chapter_text(layout, 1).contains("first"));
}

#[test]
fn docx_from_bytes_that_are_no_archive_is_none() {
    assert!(ReflowDocument::from_docx_bytes("/books/x.docx", b"not a zip archive").is_none());
}
