use folix::chapters::TocEntry;
use folix::pdfplan::{
    every_n_plan, flatten_outline, join_page_texts, page_image_paths, split_chunks, split_range, toc_chapters,
    toc_split_files, toc_split_plan, OutlineNode,
};

fn node(title: &str, page: Option<usize>, down: Vec<OutlineNode>) -> OutlineNode {
    OutlineNode { title: title.to_string(), page, down }
}

#[test]
fn range_split_pages() {
    // pages 1..=10 of 99 → 0..10
    assert_eq!(split_range(1, 10, 99), Ok((0, 10)));
    // a single page
    assert_eq!(split_range(5, 5, 99), Ok((4, 5)));
    // the whole document
    assert_eq!(split_range(1, 99, 99), Ok((0, 99)));
    // start 0 counts as page 1; an end before the start is the start
    assert_eq!(split_range(0, 3, 99), Ok((0, 3)));
    assert_eq!(split_range(7, 2, 99), Ok((6, 7)));
    // an end past the document is its end
    assert_eq!(split_range(98, 200, 99), Ok((97, 99)));
}

#[test]
fn range_split_errors() {
    // a range past the end is clamped to the last page
    assert_eq!(split_range(120, 130, 99), Ok((98, 99)));
    // only an empty document has no page to give
    assert_eq!(split_range(1, 1, 0), Err("Invalid page range 1..1 (total pages: 0)".to_string()));
    assert_eq!(split_range(3, 9, 0), Err("Invalid page range 3..9 (total pages: 0)".to_string()));
    // and the range 0..0 holds no page either
    assert_eq!(split_range(0, 0, 99), Err("Invalid page range 0..0 (total pages: 99)".to_string()));
}

#[test]
fn chunks_of_ten_and_fifty() {
    // 99 pages every 10 → 10 chunks, the first 9 of 10 pages, the last of 9
    let c = split_chunks(99, 10);
    assert_eq!(c.len(), 10);
    for (i, (s, e)) in c.iter().enumerate() {
        let expected = if i < 9 { 10 } else { 9 };
        assert_eq!(e - s, expected);
        assert_eq!(*s, i * 10);
    }
    let c2 = split_chunks(99, 50);
    assert_eq!(c2, vec![(0, 50), (50, 99)]);
    // n = 0 is taken as 1
    assert_eq!(split_chunks(3, 0), vec![(0, 1), (1, 2), (2, 3)]);
    assert!(split_chunks(0, 5).is_empty());
}

#[test]
fn chunk_files_are_named_by_pages() {
    let cuts = every_n_plan(99, 50, "/out", "Math");
    assert_eq!(cuts.len(), 2);
    assert_eq!(cuts[0].path, "/out/Math_p1-p50.pdf");
    assert_eq!((cuts[0].start, cuts[0].end), (0, 50));
    assert_eq!(cuts[1].path, "/out/Math_p51-p99.pdf");
    assert_eq!((cuts[1].start, cuts[1].end), (50, 99));
}

#[test]
fn page_images_are_named_by_page() {
    let paths = page_image_paths("/d", "Math", &[0, 1, 2]);
    assert_eq!(paths, vec!["/d/Math_p1.png", "/d/Math_p2.png", "/d/Math_p3.png"]);
    for p in &paths {
        assert!(p.ends_with(".png"));
    }
}

#[test]
fn page_texts_are_joined_with_page_markers() {
    let t = join_page_texts(&vec!["one".to_string(), "two".to_string(), "three".to_string()]);
    assert_eq!(t, "one\n\n--- Page 2 ---\n\ntwo\n\n--- Page 3 ---\n\nthree");
    assert_eq!(join_page_texts(&vec![]), "");
    assert_eq!(join_page_texts(&vec!["only".to_string()]), "only");
}

#[test]
fn outline_is_ordered_by_page_first_entry_kept() {
    let outline = vec![
        node("Intro", Some(0), vec![node("Sub", Some(2), vec![])]),
        node("Part Two", Some(10), vec![node("Again", Some(2), vec![]), node("Late", Some(12), vec![])]),
        node("Nowhere", None, vec![]),
    ];
    let toc = toc_chapters(&outline);
    let got: Vec<(&str, usize)> = toc.iter().map(|(t, p)| (t.as_str(), *p)).collect();
    assert_eq!(got, vec![("Intro", 0), ("Sub", 2), ("Part Two", 10), ("Late", 12)]);
}

#[test]
fn toc_split_names_and_ranges() {
    let toc = vec![
        ("Intro".to_string(), 0),
        ("Chapter 1: Sets".to_string(), 3),
        ("".to_string(), 8),
        ("Same page".to_string(), 8),
    ];
    let cuts = toc_split_plan(&toc, 20, "/o", "Book");
    assert_eq!(cuts.len(), 3);
    assert_eq!((cuts[0].start, cuts[0].end, cuts[0].path.as_str()), (0, 3, "/o/Book_Intro.pdf"));
    assert_eq!((cuts[1].start, cuts[1].end, cuts[1].path.as_str()), (3, 8, "/o/Book_Chapter_1__Sets.pdf"));
    // the untitled entry holds no page (the next starts on the same page)
    assert_eq!((cuts[2].start, cuts[2].end, cuts[2].path.as_str()), (8, 20, "/o/Book_Same_page.pdf"));
    let untitled = toc_split_plan(&vec![("".to_string(), 0)], 4, "/o", "B");
    assert_eq!(untitled[0].path, "/o/B_chapter_1.pdf");
    let unicode = toc_split_plan(&vec![("第一章 开始".to_string(), 0)], 4, "/o", "B");
    assert_eq!(unicode[0].path, "/o/B_第一章_开始.pdf");
}

#[test]
fn toc_split_without_outline_is_an_error() {
    let r = toc_split_files(&[], 10, "/o", "B");
    assert_eq!(r.err(), Some("No TOC entries found in this PDF".to_string()));
    let r = toc_split_files(&[node("A", Some(0), vec![]), node("B", Some(5), vec![])], 10, "/o", "S").unwrap();
    let got: Vec<(usize, usize, &str)> = r.iter().map(|c| (c.start, c.end, c.path.as_str())).collect();
    assert_eq!(got, vec![(0, 5, "/o/S_A.pdf"), (5, 10, "/o/S_B.pdf")]);
}

#[test]
fn outline_contents_are_indented_by_depth() {
    let outline = vec![
        node("Part", Some(1), vec![node("Section", None, vec![node("Sub", Some(4), vec![])])]),
        node("End", Some(9), vec![]),
    ];
    let mut out: Vec<TocEntry> = Vec::new();
    flatten_outline(&outline, 0, &mut out);
    let got: Vec<(&str, usize)> = out.iter().map(|t| (t.label.as_str(), t.page_index)).collect();
    assert_eq!(got, vec![("Part", 1), ("  Section", 0), ("    Sub", 4), ("End", 9)]);
}
