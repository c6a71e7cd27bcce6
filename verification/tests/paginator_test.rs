use folix::paginator::Paginator;
use folix::reflow::{ContentBlock, StoredImage};

/// Characters per page for a viewport and font size: characters per line
/// (width over font size) times lines per page (height over 1.6 times the
/// font size), each at least one.
fn chars_per_page(viewport_width: f32, viewport_height: f32, font_size: f32) -> usize {
    let line_height = font_size * 1.6;
    let chars_per_line = (viewport_width / font_size).max(1.0) as usize;
    let lines_per_page = (viewport_height / line_height).max(1.0) as usize;
    chars_per_line * lines_per_page
}

fn paginate(chapters: Vec<(String, Vec<ContentBlock>)>, w: f32, h: f32, fs: f32) -> Paginator {
    Paginator::new(chapters, chars_per_page(w, h, fs))
}

/// chars_per_page for 800x1000@16pt: (800/16)*(1000/25.6) = 50*39 = 1950
#[test]
fn test_small_block_one_page() {
    let chapters = vec![(
        "Ch1".to_string(),
        vec![ContentBlock::Text("Hello World".to_string())],
    )];
    let p = paginate(chapters, 800.0, 1000.0, 16.0);
    assert_eq!(p.page_count(), 1);
    let e = p.page_entries(0);
    assert_eq!(e.len(), 1);
    assert_eq!(e[0].char_range, 0..11);
}

#[test]
fn test_large_block_split_across_pages() {
    // 4000 chars, chars_per_page=1950 → 1950+1950+100 = 3 pages
    let text = "A".repeat(4000);
    let chapters = vec![("Ch1".to_string(), vec![ContentBlock::Text(text)])];
    let p = paginate(chapters, 800.0, 1000.0, 16.0);
    assert_eq!(p.page_count(), 3);
    assert_eq!(p.page_entries(0)[0].char_range, 0..1950);
    assert_eq!(p.page_entries(1)[0].char_range, 1950..3900);
    assert_eq!(p.page_entries(2)[0].char_range, 3900..4000);
}

#[test]
fn test_multi_chapter_each_starts_new_page() {
    let chapters = vec![
        ("Ch1".to_string(), vec![ContentBlock::Text("Hello".to_string())]),
        ("Ch2".to_string(), vec![ContentBlock::Text("World".to_string())]),
    ];
    let p = paginate(chapters, 800.0, 1000.0, 16.0);
    assert_eq!(p.page_count(), 2);
    assert_eq!(p.page_entries(0)[0].char_range, 0..5);
    assert_eq!(p.page_entries(1)[0].char_range, 0..5);
}

#[test]
fn test_empty_chapters() {
    let chapters: Vec<(String, Vec<ContentBlock>)> = vec![];
    let p = paginate(chapters, 800.0, 1000.0, 16.0);
    assert_eq!(p.page_count(), 0);
}

#[test]
fn test_empty_blocks_no_pages() {
    let chapters = vec![("Ch1".to_string(), vec![])];
    let p = paginate(chapters, 800.0, 1000.0, 16.0);
    assert_eq!(p.page_count(), 0);
}

#[test]
fn test_image_gets_own_page() {
    let img = ContentBlock::Image(StoredImage { width: 100, height: 100, raw_bytes: vec![] });
    let chapters = vec![(
        "Ch1".to_string(),
        vec![
            ContentBlock::Text("Hello".to_string()),
            img,
            ContentBlock::Text("World".to_string()),
        ],
    )];
    let p = paginate(chapters, 800.0, 1000.0, 16.0);
    // text before image → page 0, image alone → page 1, text after → page 2
    assert_eq!(p.page_count(), 3);
}

#[test]
fn chars_per_page_of_the_reference_viewport() {
    assert_eq!(chars_per_page(800.0, 1000.0, 16.0), 1950);
}

#[test]
fn pages_tile_the_document() {
    let chapters = vec![
        ("A".to_string(), vec![ContentBlock::Text("x".repeat(25))]),
        ("B".to_string(), vec![]),
        (
            "C".to_string(),
            vec![
                ContentBlock::Text("y".repeat(7)),
                ContentBlock::Image(StoredImage { width: 1, height: 1, raw_bytes: vec![1] }),
                ContentBlock::Text(String::new()),
                ContentBlock::Text("z".repeat(12)),
            ],
        ),
    ];
    let p = Paginator::new(chapters, 10);
    // A: 10, 10, 5; C: 7, image, 10, 2
    assert_eq!(p.page_count(), 7);
    let mut expected_start = 0;
    for i in 0..p.page_count() {
        let (ch, s, e) = p.chapter_range_for_page(i);
        let before = if ch == 0 { 0 } else { 25 };
        assert_eq!(s + before, expected_start);
        assert!(e > s && e - s <= 10);
        expected_start = e + before;
    }
    assert_eq!(expected_start, 25 + 7 + 1 + 12);
    assert_eq!(p.chapter_idx_for_page(3), Some(2));
    assert_eq!(p.chapter_idx_for_page(7), None);
    assert_eq!(p.find_page_for_chapter(1), 3);
    assert_eq!(p.find_page_for_chapter(2), 3);
    assert_eq!(p.find_page_for_chapter(9), 6);
    assert_eq!(p.find_page_for_char(0, 12), 1);
    assert_eq!(p.find_page_for_char(2, 7), 4);
    assert_eq!(p.find_page_for_char(2, 100), 6);
    assert_eq!(p.chapter_range_for_page(99), (0, 0, 0));
    let img_page = p.page_entries(4);
    assert_eq!(img_page.len(), 1);
    assert_eq!(img_page[0].block_idx, 1);
    assert_eq!(img_page[0].char_range, 0..1);
    assert_eq!(p.page_entries(5)[0].block_idx, 3);
    assert!(p.page_entries(50).is_empty());
}

#[test]
fn repaginates_on_a_new_page_size() {
    let chapters = vec![("A".to_string(), vec![ContentBlock::Text("x".repeat(30))])];
    let mut p = Paginator::new(chapters, 10);
    assert_eq!(p.page_count(), 3);
    p.set_chars_per_page(15);
    assert_eq!(p.page_count(), 2);
    assert_eq!(p.page_entries(1)[0].char_range, 15..30);
}
