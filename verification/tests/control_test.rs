use folix::control::{
    apply_shortcut, line_from_input, page_from_input, parse_usize, search_matches, step_match, tab_strip_step, OutsideWork, ReadingNav, TabAction, TabKind,
    TabMsg,
};
use folix::docs::{touch_recent, Document, ImageDocument, RecentFile};
use folix::html::{extract_raw_blocks, RawBlock};
use folix::modes::{toggle_word, FitMode, ModeKind, ViewRotation, VocabState};
use folix::toolbox::PdfToolboxState;
use folix::pdfplan::check_merge_inputs;
use folix::shortcuts::ShortcutAction;
use std::io::Cursor;

fn nav(page: usize) -> ReadingNav {
    ReadingNav {
        page,
        mode: ModeKind::LightReading,
        autoplay: false,
        show_sidebar: false,
        ui_visible: true,
        bookmarks: Vec::new(),
        bookmarks_dirty: false,
        stream_jump_to: None,
        stream_page_end: 0,
        goto_page_text: String::new(),
        mo_yu_visible: false,
        mo_yu_page: 0,
        mo_yu_sentences: Vec::new(),
    }
}

#[test]
fn closing_never_closes_the_last_tab() {
    let mut tabs = vec![TabKind::Home];
    let mut active = 0usize;
    assert_eq!(tab_strip_step(&mut tabs, &mut active, TabMsg::CloseTab(0)), TabAction::Nothing);
    assert_eq!(tabs, vec![TabKind::Home]);
    assert_eq!(active, 0);
}

#[test]
fn closing_keeps_the_active_index_in_the_strip() {
    let mut tabs = vec![TabKind::Home, TabKind::Document, TabKind::Settings];
    let mut active = 2usize;
    tab_strip_step(&mut tabs, &mut active, TabMsg::CloseTab(0));
    assert_eq!(tabs, vec![TabKind::Document, TabKind::Settings]);
    assert_eq!(active, 1);
    let mut active2 = 0usize;
    let mut tabs2 = vec![TabKind::Home, TabKind::Document, TabKind::Settings];
    tab_strip_step(&mut tabs2, &mut active2, TabMsg::CloseTab(1));
    assert_eq!(active2, 0);
}

#[test]
fn settings_and_tools_tabs_open_once() {
    let mut tabs = vec![TabKind::Home];
    let mut active = 0usize;
    tab_strip_step(&mut tabs, &mut active, TabMsg::AddSettingsTab);
    assert_eq!(tabs, vec![TabKind::Home, TabKind::Settings]);
    assert_eq!(active, 1);
    tab_strip_step(&mut tabs, &mut active, TabMsg::ActivateTab(0));
    tab_strip_step(&mut tabs, &mut active, TabMsg::AddSettingsTab);
    assert_eq!(tabs.len(), 2);
    assert_eq!(active, 0);
    tab_strip_step(&mut tabs, &mut active, TabMsg::AddPdfToolboxTab);
    tab_strip_step(&mut tabs, &mut active, TabMsg::AddPdfToolboxTab);
    assert_eq!(tabs, vec![TabKind::Home, TabKind::Settings, TabKind::PdfToolbox]);
    tab_strip_step(&mut tabs, &mut active, TabMsg::AddHomeTab);
    assert_eq!(tabs.len(), 4);
    assert_eq!(active, 3);
}

#[test]
fn an_opened_file_replaces_an_active_home_tab() {
    let mut tabs = vec![TabKind::Settings, TabKind::Home];
    let mut active = 1usize;
    assert_eq!(tab_strip_step(&mut tabs, &mut active, TabMsg::FileOpened), TabAction::ShowDocument(1));
    assert_eq!(tabs, vec![TabKind::Settings, TabKind::Document]);
    assert_eq!(tab_strip_step(&mut tabs, &mut active, TabMsg::FileOpened), TabAction::ShowDocument(2));
    assert_eq!(tabs, vec![TabKind::Settings, TabKind::Document, TabKind::Document]);
    assert_eq!(active, 2);
}

#[test]
fn shortcut_page_moves_stay_in_the_document() {
    let mut n = nav(0);
    apply_shortcut(&mut n, ShortcutAction::PrevPage, 5, false, "en", 0);
    assert_eq!(n.page, 0);
    apply_shortcut(&mut n, ShortcutAction::NextPage, 5, false, "en", 0);
    assert_eq!(n.page, 1);
    apply_shortcut(&mut n, ShortcutAction::LastPage, 5, false, "en", 0);
    assert_eq!(n.page, 4);
    apply_shortcut(&mut n, ShortcutAction::NextPage, 5, false, "en", 0);
    assert_eq!(n.page, 4);
    apply_shortcut(&mut n, ShortcutAction::ScrollUp, 5, false, "en", 0);
    assert_eq!(n.page, 3);
    let e = apply_shortcut(&mut n, ShortcutAction::ScrollDown, 5, true, "en", 0);
    assert_eq!(n.page, 3);
    assert_eq!(e.work, OutsideWork::Scroll { down: true });
    apply_shortcut(&mut n, ShortcutAction::FirstPage, 5, false, "en", 0);
    assert_eq!(n.page, 0);
}

#[test]
fn shortcut_bookmark_toggles_and_sync() {
    let mut n = nav(6);
    let e = apply_shortcut(&mut n, ShortcutAction::AddBookmark, 10, false, "en", 6000);
    assert!(e.sync);
    assert_eq!(n.bookmarks.len(), 1);
    assert_eq!(n.bookmarks[0].page, 6);
    assert_eq!(n.bookmarks[0].label, "Page 7");
    assert!(n.bookmarks_dirty);
    apply_shortcut(&mut n, ShortcutAction::AddBookmark, 10, false, "zh-CN", 0);
    assert_eq!(n.bookmarks[1].label, "页 7");
    let e = apply_shortcut(&mut n, ShortcutAction::ToggleSidebar, 10, false, "en", 5000);
    assert!(!e.sync);
    assert!(n.show_sidebar);
    apply_shortcut(&mut n, ShortcutAction::ToggleUI, 10, false, "en", 0);
    assert!(!n.ui_visible);
    let e = apply_shortcut(&mut n, ShortcutAction::Quit, 10, false, "en", 0);
    assert_eq!(e.work, OutsideWork::Quit);
}

#[test]
fn autoplay_only_in_light_reading() {
    let mut n = nav(0);
    let e = apply_shortcut(&mut n, ShortcutAction::ToggleAutoPlay, 3, false, "en", 0);
    assert!(n.autoplay);
    assert_eq!(e.work, OutsideWork::RestartAutoPlay);
    n.switch_mode(ModeKind::DeepReading);
    assert!(!n.autoplay);
    let e = apply_shortcut(&mut n, ShortcutAction::ToggleAutoPlay, 3, false, "en", 0);
    assert!(!n.autoplay);
    assert_eq!(e.work, OutsideWork::Nothing);
}

#[test]
fn search_finds_texts_regardless_of_case() {
    let texts = vec!["Hello World".to_string(), "nothing".to_string(), "WORLDS apart".to_string()];
    assert_eq!(search_matches(&texts, "world"), vec![0, 2]);
    assert_eq!(search_matches(&texts, ""), Vec::<usize>::new());
    assert_eq!(search_matches(&texts, "xyz"), Vec::<usize>::new());
}

#[test]
fn match_steps_go_round() {
    assert_eq!(step_match(0, 3, false), 2);
    assert_eq!(step_match(2, 3, true), 0);
    assert_eq!(step_match(1, 3, true), 2);
    assert_eq!(step_match(1, 3, false), 0);
}

#[test]
fn merge_needs_two_inputs() {
    assert_eq!(check_merge_inputs(1), Err("Need at least 2 PDF files".to_string()));
    assert_eq!(check_merge_inputs(2), Ok(()));
}

#[test]
fn image_document_from_png_bytes() {
    let img = image::RgbaImage::new(3, 2);
    let mut bytes: Vec<u8> = Vec::new();
    img.write_to(&mut Cursor::new(&mut bytes), image::ImageFormat::Png).expect("encodes");
    let d = ImageDocument::open_bytes("/pics/cat.png", &bytes).expect("opens");
    assert_eq!(d.size(), (3, 2));
    assert_eq!(d.page_count(), 1);
    assert_eq!(Document::title(&d), "cat");
    assert!(ImageDocument::open_bytes("/pics/cat.txt", &bytes).is_none());
    assert!(ImageDocument::open_bytes("/pics/cat.png", b"not an image").is_none());
}

#[test]
fn chapter_images_resolve_against_the_chapter_folder() {
    let (blocks, refs) = extract_raw_blocks(
        "<p>Hello</p><img src='../images/a.png'/><p>World</p>",
        "OEBPS/text/ch1.xhtml",
    );
    assert_eq!(refs, vec!["OEBPS/images/a.png".to_string()]);
    assert_eq!(blocks.len(), 3);
    assert!(matches!(&blocks[1], RawBlock::ImageRef(p) if p == "OEBPS/images/a.png"));
}

#[test]
fn sidebar_bookmarks_add_and_remove() {
    let mut n = nav(2);
    n.add_bookmark("en");
    n.page = 4;
    n.add_bookmark("en");
    assert_eq!(n.bookmarks.len(), 2);
    n.bookmarks_dirty = false;
    n.remove_bookmark(0);
    assert!(n.bookmarks_dirty);
    assert_eq!(n.bookmarks.len(), 1);
    assert_eq!(n.bookmarks[0].page, 4);
    assert_eq!(n.bookmarks[0].label, "Page 5");
}

#[test]
fn a_jump_updates_the_view_state() {
    let mut n = nav(1);
    n.stream_page_end = 7;
    n.goto_page_text = "9".to_string();
    n.mo_yu_visible = true;
    n.mo_yu_sentences = vec!["a".to_string()];
    n.jump_to(20, 10);
    assert_eq!(n.page, 9);
    assert_eq!(n.stream_jump_to, Some(9));
    assert_eq!(n.stream_page_end, 9);
    assert!(n.goto_page_text.is_empty());
    assert_eq!(n.mo_yu_page, 9);
    assert!(n.mo_yu_sentences.is_empty());
    n.jump_to(3, 10);
    assert_eq!(n.stream_page_end, 9);
    assert_eq!(n.stream_jump_to, Some(3));
    let mut m = nav(2);
    apply_shortcut(&mut m, ShortcutAction::ToggleUI, 5, false, "en", 0);
    assert_eq!(m.stream_jump_to, None);
    apply_shortcut(&mut m, ShortcutAction::NextPage, 5, false, "en", 0);
    assert_eq!(m.stream_jump_to, Some(3));
}

#[test]
fn reopening_a_file_moves_it_first_and_keeps_its_pin() {
    let mut list = vec![
        RecentFile { path: "a".to_string(), pinned: false },
        RecentFile { path: "b".to_string(), pinned: true },
        RecentFile { path: "c".to_string(), pinned: false },
    ];
    touch_recent(&mut list, "b");
    let v: Vec<(&str, bool)> = list.iter().map(|f| (f.path.as_str(), f.pinned)).collect();
    assert_eq!(v, vec![("b", true), ("a", false), ("c", false)]);
    touch_recent(&mut list, "d");
    assert_eq!(list[0].path, "d");
    assert!(!list[0].pinned);
    assert_eq!(list.len(), 4);
}

#[test]
fn recent_files_keep_ten_with_the_pinned_ones() {
    let mut list: Vec<RecentFile> = Vec::new();
    list.push(RecentFile { path: "p1".to_string(), pinned: true });
    list.push(RecentFile { path: "p2".to_string(), pinned: true });
    for i in 0..12 {
        list.push(RecentFile { path: format!("f{i}"), pinned: false });
    }
    touch_recent(&mut list, "new");
    assert_eq!(list.len(), 10);
    assert_eq!(list[0].path, "new");
    assert_eq!(list.iter().filter(|f| f.pinned).count(), 2);
    assert_eq!(list[9].path, "f6");
}

#[test]
fn typed_page_and_line_numbers() {
    let cs = |s: &str| s.chars().collect::<Vec<char>>();
    assert_eq!(parse_usize(&cs("+12")), Some(12));
    assert_eq!(parse_usize(&cs("")), None);
    assert_eq!(parse_usize(&cs("+")), None);
    assert_eq!(parse_usize(&cs("12a")), None);
    assert_eq!(parse_usize(&cs("-1")), None);
    assert_eq!(parse_usize(&cs("18446744073709551616")), None);
    assert_eq!(parse_usize(&cs("18446744073709551615")), Some(usize::MAX));
    assert_eq!(page_from_input(" 5 ", 3), Some(2));
    assert_eq!(page_from_input("2", 3), Some(1));
    assert_eq!(page_from_input("0", 3), Some(0));
    assert_eq!(page_from_input("x", 3), None);
    assert_eq!(line_from_input("0"), Some(1));
    assert_eq!(line_from_input(" 42\n"), Some(42));
    assert_eq!(line_from_input(""), None);
}

#[test]
fn rotation_fit_and_modes() {
    assert_eq!(ViewRotation::Deg270.turned_right(), ViewRotation::Deg0);
    assert_eq!(ViewRotation::Deg0.turned_left(), ViewRotation::Deg270);
    assert_eq!(ViewRotation::Deg90.turned_right().turned_left(), ViewRotation::Deg90);
    assert_eq!(FitMode::FitWidth.toggled(FitMode::FitWidth), FitMode::Free);
    assert_eq!(FitMode::Free.toggled(FitMode::FitPage), FitMode::FitPage);
    assert_eq!(ModeKind::ContentEdit.for_document(true), ModeKind::LightReading);
    assert_eq!(ModeKind::PageEdit.for_document(true), ModeKind::PageEdit);
    assert!(!ModeKind::PageEdit.suits(false));
    assert_eq!(ModeKind::for_key("!", false), Some(ModeKind::LightReading));
    assert_eq!(ModeKind::for_key("2", true), Some(ModeKind::DeepReading));
    assert_eq!(ModeKind::for_key("#", true), Some(ModeKind::PageEdit));
    assert_eq!(ModeKind::for_key("3", false), Some(ModeKind::ContentEdit));
    assert_eq!(ModeKind::for_key("x", false), None);
}

#[test]
fn shift_click_toggles_words() {
    let mut sel = vec![3usize, 5, 3];
    let mut page = 1usize;
    toggle_word(&mut sel, &mut page, 1, 3);
    assert_eq!(sel, vec![5, 3]);
    toggle_word(&mut sel, &mut page, 1, 7);
    assert_eq!(sel, vec![5, 3, 7]);
    toggle_word(&mut sel, &mut page, 2, 4);
    assert_eq!(sel, vec![4]);
    assert_eq!(page, 2);
}

#[test]
fn vocabulary_words_saved_and_removed() {
    let mut v = VocabState {
        show_add_vocab_dialog: true,
        add_vocab_text: "  serendipity ".to_string(),
        vocab: Vec::new(),
        vocab_dirty: false,
        sentences: Vec::new(),
        sentences_dirty: false,
    };
    v.save_word("id1".to_string(), 4);
    assert_eq!(v.vocab.len(), 1);
    assert_eq!(v.vocab[0].word, "serendipity");
    assert_eq!(v.vocab[0].page, 4);
    assert!(v.vocab_dirty);
    assert!(!v.show_add_vocab_dialog);
    assert!(v.add_vocab_text.is_empty());
    v.add_vocab_text = "   ".to_string();
    v.save_word("id2".to_string(), 5);
    assert_eq!(v.vocab.len(), 1);
    v.vocab_dirty = false;
    v.remove_word(0);
    assert!(v.vocab.is_empty());
    assert!(v.vocab_dirty);
}

#[test]
fn toolbox_inputs_once_and_range_end_clamped() {
    let mut s = PdfToolboxState::new();
    s.add_input("a.pdf".to_string());
    s.add_input("b.pdf".to_string());
    s.add_input("a.pdf".to_string());
    assert_eq!(s.input_files, vec!["a.pdf".to_string(), "b.pdf".to_string()]);
    s.split_start = 5;
    s.split_end = 2;
    s.clamp_split_end();
    assert_eq!(s.split_end, 5);
    s.split_end = 9;
    s.clamp_split_end();
    assert_eq!(s.split_end, 9);
}
