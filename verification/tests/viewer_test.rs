use folix::reflow::ReflowDocument;
use folix::viewer::{load_chapter_texts, tint_region, PageView};

fn words(ws: &[&str]) -> Vec<String> {
    ws.iter().map(|w| w.to_string()).collect()
}

#[test]
fn page_view_moves_within_the_document() {
    let mut v = PageView::new();
    assert_eq!(v.current_page_index(), 0);
    v.prev_page(3);
    assert_eq!(v.current_page_index(), 0);
    v.next_page(3);
    v.next_page(3);
    assert_eq!(v.current_page_index(), 2);
    v.next_page(3);
    assert_eq!(v.current_page_index(), 2);
    v.go_to_page(7, 3);
    assert_eq!(v.current_page_index(), 2);
    v.go_to_page(1, 3);
    assert_eq!(v.current_page_index(), 1);
    v.prev_page(3);
    assert_eq!(v.current_page_index(), 0);
}

#[test]
fn page_view_selection_and_text() {
    let ws = words(&["alpha", "beta", "gamma", "delta"]);
    let mut v = PageView::new();
    assert!(!v.has_selection());
    assert_eq!(v.selected_text(&ws), "");
    v.select_hit(Some(2));
    assert!(v.has_selection());
    assert_eq!(v.selection_range(), Some((2, 2)));
    assert_eq!(v.selected_text(&ws), "gamma");
    v.select_hit(None);
    assert!(!v.has_selection());
    assert_eq!(v.selection_range(), None);
}

#[test]
fn page_change_clears_selection() {
    let mut v = PageView::new();
    v.select_hit(Some(0));
    v.go_to_page(1, 2);
    assert!(!v.has_selection());
}

#[test]
fn tint_region_highlights_only_the_region() {
    // 2x2 pixels, RGBA.
    let mut buf: Vec<u8> = vec![
        100, 100, 100, 255, 250, 50, 90, 7,
        10, 20, 30, 40, 1, 2, 3, 4,
    ];
    tint_region(&mut buf, 2, 1, 0, 2, 2);
    assert_eq!(
        buf,
        vec![100, 100, 100, 255, 255, 0, 10, 7, 10, 20, 30, 40, 61, 0, 0, 4]
    );
}

#[test]
fn tint_region_empty_or_past_the_end() {
    let orig: Vec<u8> = vec![9, 9, 9, 9];
    let mut buf = orig.clone();
    tint_region(&mut buf, 1, 0, 0, 0, 1);
    assert_eq!(buf, orig);
    tint_region(&mut buf, 1, 0, 1, 1, 3);
    assert_eq!(buf, orig);
    tint_region(&mut buf, 1, 0, 0, 1, 1);
    assert_eq!(buf, vec![69, 0, 0, 9]);
}

#[test]
fn chapter_lines_for_a_line_view() {
    let doc = ReflowDocument::open_text_bytes("/books/a.txt", b"first line\r\nsecond line\n").expect("opens");
    let ls = load_chapter_texts(&doc, 0);
    assert_eq!(ls, vec!["first line".to_string(), "second line".to_string()]);
    let empty = load_chapter_texts(&doc, 5);
    assert_eq!(empty, vec!["(empty)".to_string()]);
}
