use folix::epub::{build_spine, build_toc, resource_path};
use folix::reflow::ReflowDocument;
use folix::tabs::{AppState, TabContent};
use folix::viewer::{full_offset, jump_target, page_count_for, progress_position, strip_close_index, ReflowViewerState};

fn state() -> AppState<u32, (), ()> {
    AppState::new((), ())
}

#[test]
fn fresh_app_has_one_new_tab() {
    let st = state();
    assert_eq!(st.tabs.len(), 1);
    assert!(st.tabs[0].is_new_tab());
    assert_eq!(st.active_tab, 0);
    assert!(st.ui_visible);
    assert_eq!(st.tabs[0].title("en"), "+ New Tab");
    assert_eq!(st.tabs[0].title("zh-CN"), "+ 新标签");
}

#[test]
fn settings_and_toolbox_tabs_open_once() {
    let mut st = state();
    let a = st.add_tab("/books/novel.txt".to_string(), 7, ());
    assert_eq!(a, 1);
    assert!(st.tabs[1].has_document());
    assert_eq!(st.tabs[1].title("en"), "novel");
    let s = st.add_settings_tab(());
    assert_eq!(s, 2);
    assert_eq!(st.tabs[2].title("en"), "⚙ Settings");
    st.active_tab = 0;
    assert_eq!(st.add_settings_tab(()), 2);
    assert_eq!(st.active_tab, 2);
    assert_eq!(st.tabs.len(), 3);
    let t = st.add_pdf_toolbox_tab(());
    assert_eq!(t, 3);
    assert!(st.tabs[3].is_pdf_toolbox());
    assert_eq!(st.tabs[3].title("zh-CN"), "📄 PDF工具");
    assert_eq!(st.add_pdf_toolbox_tab(()), 3);
    assert_eq!(st.tabs.len(), 4);
    match &st.tabs[3].content {
        TabContent::PdfToolbox(tb) => assert!(tb.log.is_empty()),
        _ => panic!("expected the toolbox"),
    }
}

#[test]
fn closing_tabs_moves_the_active_one() {
    let mut st = state();
    st.add_tab("a.txt".to_string(), 1, ());
    st.add_tab("b.txt".to_string(), 2, ());
    st.add_tab("c.txt".to_string(), 3, ());
    assert_eq!(st.active_tab, 3);
    // closing a tab before the active one moves it back
    st.close_tab(1, ());
    assert_eq!(st.tabs.len(), 3);
    assert_eq!(st.active_tab, 2);
    assert_eq!(st.current_tab().unwrap().document, Some(3));
    // closing the active last tab lands on the new last
    st.close_tab(2, ());
    assert_eq!(st.active_tab, 1);
    // out of range: nothing
    st.close_tab(9, ());
    assert_eq!(st.tabs.len(), 2);
    st.close_tab(0, ());
    st.close_tab(0, ());
    // the last tab closed leaves a new-tab page
    assert_eq!(st.tabs.len(), 1);
    assert!(st.tabs[0].is_new_tab());
    assert_eq!(st.active_tab, 0);
}

#[test]
fn strip_close_rules() {
    assert_eq!(strip_close_index(1, 0, 0), 0);
    assert_eq!(strip_close_index(3, 2, 2), 1);
    assert_eq!(strip_close_index(3, 0, 1), 0);
    assert_eq!(strip_close_index(3, 1, 1), 0);
    assert_eq!(strip_close_index(4, 3, 0), 2);
}

#[test]
fn page_jumps() {
    assert_eq!(page_count_for(false, None), 0);
    assert_eq!(page_count_for(true, Some(12)), 12);
    assert_eq!(page_count_for(true, None), 1);
    assert_eq!(jump_target(5, 10), 5);
    assert_eq!(jump_target(50, 10), 9);
    assert_eq!(jump_target(3, 0), 0);
    assert_eq!(progress_position(true, true, 4, 9), None);
    assert_eq!(progress_position(false, true, 4, 9), Some(4));
    assert_eq!(progress_position(false, false, 4, 9), Some(9));
}

#[test]
fn chapter_viewer_moves_within_the_document() {
    let text = "第一章 开始\n正文一\n\n第二章 继续\n正文二\n";
    let doc = ReflowDocument::open_text_bytes("novel.txt", text.as_bytes()).unwrap();
    let n = doc.chapter_count();
    let mut v = ReflowViewerState::new();
    assert!(!v.has_document());
    assert_eq!(v.chapter_count(), 0);
    assert_eq!(v.current_text(), "");
    let first = v.load(doc);
    assert!(v.has_document());
    assert_eq!(first, v.current_text());
    assert_eq!(v.chapter_count(), n);
    v.prev_chapter();
    assert_eq!(v.current_chapter_index(), 0);
    v.next_chapter();
    assert_eq!(v.current_chapter_index(), 1);
    v.go_to_chapter(99);
    assert_eq!(v.current_chapter_index(), 1);
    v.go_to_chapter(n - 1);
    v.next_chapter();
    assert_eq!(v.current_chapter_index(), n - 1);
    assert!(!v.current_title().is_empty());
}

#[test]
fn epub_spine_and_contents() {
    let manifest = vec![
        ("c1".to_string(), "text/one.xhtml".to_string()),
        ("c2".to_string(), "/text/two.xhtml".to_string()),
        ("css".to_string(), "style.css".to_string()),
        ("c1".to_string(), "text/one-b.xhtml".to_string()),
    ];
    let idrefs = vec!["c1".to_string(), "missing".to_string(), "c2".to_string()];
    let spine = build_spine(&manifest, &idrefs);
    assert_eq!(
        spine,
        vec![
            ("c1".to_string(), "text/one-b.xhtml".to_string()),
            ("c2".to_string(), "/text/two.xhtml".to_string()),
        ]
    );
    let entries = vec![
        ("Two".to_string(), Some("c2".to_string())),
        ("Nowhere".to_string(), None),
        ("Unknown".to_string(), Some("zz".to_string())),
    ];
    let toc = build_toc(&spine, &entries);
    let got: Vec<(&str, usize)> = toc.iter().map(|t| (t.label.as_str(), t.page_index)).collect();
    assert_eq!(got, vec![("Two", 1), ("Nowhere", 1), ("Unknown", 2)]);
    assert_eq!(resource_path("text/one.xhtml"), "/text/one.xhtml");
    assert_eq!(resource_path("/text/two.xhtml"), "/text/two.xhtml");
    assert_eq!(resource_path(""), "/");
}

#[test]
fn test_full_offset_basic() {
    assert_eq!(full_offset("abc\ndef", 0, 0), 0);
    assert_eq!(full_offset("abc\ndef", 0, 3), 3);
    assert_eq!(full_offset("abc\ndef", 1, 0), 4);
    assert_eq!(full_offset("abc\ndef", 1, 3), 7);
}

#[test]
fn full_offset_counts_bytes_and_past_the_end() {
    // "中" takes three bytes, and its line a newline more
    assert_eq!(full_offset("中\nx", 1, 1), 5);
    assert_eq!(full_offset("ab\ncd", 9, 0), 6);
    assert_eq!(full_offset("", 0, 2), 0);
}
