use folix::xml::{xml_tokens, xml_tokens_str, XmlTok};
use folix::docs::{default_recent_files, DocKind, DocumentManager, ReflowFormat};
use folix::features::FeatureSystem;
use folix::i18n::tr;
use folix::markdown::strip_markdown;
use folix::modes::{ModeKind, SearchState};
use folix::paths::{clean_path, normalize_path, resolve_path};
use folix::sentences::{extract_sentences, is_cjk, split_sentences};
use folix::services::{FontLoader, TileCache};
use folix::shortcuts::{default_shortcuts, KeyCombo, ShortcutAction};

#[test]
fn features_count_pin_and_sort() {
    let mut fs = FeatureSystem::new();
    fs.register("zoom", "reading");
    fs.register("search", "reading");
    fs.register("crop", "edit");
    fs.use_feature("search");
    fs.use_feature("search");
    fs.use_feature("zoom");
    fs.use_feature("unknown");
    let v: Vec<(&str, u32)> = fs.visible_features("reading").iter().map(|f| (f.id.as_str(), f.usage)).collect();
    assert_eq!(v, vec![("search", 2), ("zoom", 1)]);
    assert_eq!(fs.visible_features("edit").len(), 1);
    assert!(fs.pinned_features("reading").is_empty());
    fs.toggle_pin("zoom");
    let p: Vec<&str> = fs.pinned_features("reading").iter().map(|f| f.id.as_str()).collect();
    assert_eq!(p, vec!["zoom"]);
    // a pin flipped twice is as before
    fs.toggle_pin("zoom");
    assert!(fs.pinned_features("reading").is_empty());
    // registering again keeps the state
    fs.register("search", "edit");
    let v: Vec<(&str, u32)> = fs.visible_features("reading").iter().map(|f| (f.id.as_str(), f.usage)).collect();
    assert_eq!(v[0], ("search", 2));
}

#[test]
fn shortcuts_labels_and_defaults() {
    let m = default_shortcuts();
    assert_eq!(m.len(), 23);
    let open = m.get(&ShortcutAction::OpenFile).unwrap();
    assert_eq!(open.display(), "Ctrl+O");
    assert_eq!(m.get(&ShortcutAction::NextPage).unwrap().display(), "→");
    assert_eq!(ShortcutAction::OpenFile.label(), "Open File");
    let combo = KeyCombo { key: "PageDown".to_string(), ctrl: true, shift: true, alt: true };
    assert_eq!(combo.display(), "Ctrl+Alt+Shift+PgDn");
    let mut m2 = default_shortcuts();
    m2.insert(ShortcutAction::Quit, KeyCombo { key: "F4".to_string(), ctrl: false, shift: false, alt: true });
    assert_eq!(m2.get(&ShortcutAction::Quit).unwrap().display(), "Alt+F4");
    assert_eq!(m2.len(), 23);
}

#[test]
fn translations() {
    assert_eq!(tr("zh-CN", "Basic"), "基础浏览");
    assert_eq!(tr("en", "Basic"), "Basic");
    assert_eq!(tr("zh-CN", "no such text"), "no such text");
    assert_eq!(ModeKind::PageEdit.name("zh-CN"), "页面编辑");
    assert_eq!(ModeKind::DeepReading.name("en"), "Annotate");
}

#[test]
fn sentences_split_on_punctuation() {
    assert_eq!(split_sentences("你好。世界！ab,c"), vec!["你好", "世界", "ab"]);
    assert_eq!(extract_sentences("Hi. Ok! x"), vec!["Hi.", "Ok!"]);
    assert_eq!(extract_sentences("他说：好。"), vec!["他说：", "好。"]);
    assert!(extract_sentences("").is_empty());
    for piece in split_sentences("一，二三。Four five; six! 七八？") {
        assert!(!piece.contains(['。', '！', '？', '，', '；', '.', '!', '?', ',', ';', '\n']));
        assert!(piece.len() > 1);
    }
    assert!(is_cjk('中'));
    assert!(!is_cjk('a'));
}

#[test]
fn markdown_is_stripped() {
    assert_eq!(strip_markdown("**bold** and *it*"), "bold and it");
    assert_eq!(strip_markdown("see [here](http://x.y) ![p](a.png)"), "see here ");
    assert_eq!(strip_markdown("plain text"), "plain text");
    assert_eq!(strip_markdown("No markup here: a, b; c!"), "No markup here: a, b; c!");
}

#[test]
fn paths_are_normalised_and_resolved() {
    assert_eq!(normalize_path("//a\\b/c"), "a/b/c");
    assert_eq!(clean_path("a/./b/../c"), "a/c");
    assert_eq!(clean_path("../x"), "x");
    // cleaning twice is cleaning once
    for p in ["a/./b/../../c/./d", "../../x/y/..", "a//b/", "./", ""] {
        let once = clean_path(p);
        assert_eq!(clean_path(&once), once);
    }
    assert_eq!(clean_path("a/./b/../../c/./d"), "c/d");
    // a leading backslash becomes a leading slash, so normalising is not idempotent
    assert_eq!(normalize_path("\\a"), "/a");
    assert_eq!(normalize_path(&normalize_path("\\a")), "a");
    assert_eq!(resolve_path("OEBPS/text/ch1.xhtml", "../images/p.png"), "OEBPS/images/p.png");
    assert_eq!(resolve_path("OEBPS/ch1.xhtml", "/images/p.png"), "images/p.png");
    assert_eq!(resolve_path("ch1.xhtml", "http://x/y.png"), "http://x/y.png");
}

#[test]
fn tile_cache_keeps_its_capacity() {
    let mut c = TileCache::new(2);
    assert!(c.get(&1).is_none());
    c.insert(1, vec![1]);
    c.insert(2, vec![2]);
    assert_eq!(c.get(&2), Some(&vec![2]));
    c.insert(3, vec![3]);
    // a read after a write gives back what was written
    assert_eq!(c.get(&3), Some(&vec![3]));
    let held = [1usize, 2, 3].iter().filter(|k| c.get(k).is_some()).count();
    assert_eq!(held, 2);
    let mut z = TileCache::new(0);
    z.insert(7, vec![7]);
    assert_eq!(z.get(&7), Some(&vec![7]));
}

#[test]
fn font_candidates_filtered_by_presence() {
    let l = FontLoader::new();
    let c = l.font_candidates();
    assert_eq!(c.len(), 3);
    assert_eq!(l.load_system_fonts(&[false, true, false]), vec![c[1].clone()]);
    assert!(l.load_system_fonts(&[false, false, false]).is_empty());
}

#[test]
fn documents_by_extension() {
    assert_eq!(DocumentManager::kind_of("a/b.PDF"), Some(DocKind::Fixed));
    assert_eq!(DocumentManager::kind_of("x.Epub"), Some(DocKind::Reflow));
    assert_eq!(DocumentManager::kind_of("notes.md"), Some(DocKind::Reflow));
    assert_eq!(DocumentManager::kind_of("a.docx"), Some(DocKind::Reflow));
    assert_eq!(DocumentManager::kind_of("image.png"), None);
    assert_eq!(DocumentManager::kind_of("pdf"), None);
    assert_eq!(DocumentManager::reflow_format_of("b.TXT"), Some(ReflowFormat::Text));
    assert_eq!(DocumentManager::reflow_format_of("b.epub"), Some(ReflowFormat::Epub));
    assert_eq!(DocumentManager::reflow_format_of("b.DOCX"), Some(ReflowFormat::Docx));
    assert_eq!(DocumentManager::reflow_format_of("b.pdf"), None);
    assert!(default_recent_files().is_empty());
}

#[test]
fn fresh_search_state() {
    let s = SearchState::new();
    assert!(s.query.is_empty() && !s.show_search && s.matches.is_empty());
    assert_eq!(s.current_match, 0);
    assert!(s.page_highlights.is_empty());
}

#[test]
fn xml_tokens_read_every_event_in_order() {
    let toks = xml_tokens(b"<a x=\"1\">hi &amp; bye</a><b/>");
    assert_eq!(toks.len(), 4);
    match &toks[0] {
        XmlTok::Open { name, attrs, .. } => {
            assert_eq!(name.as_slice(), b"a");
            assert_eq!(attrs, &vec![(b"x".to_vec(), b"1".to_vec())]);
        }
        _ => panic!("expected an opening tag"),
    }
    match &toks[1] {
        XmlTok::Text { text } => assert_eq!(text, "hi & bye"),
        _ => panic!("expected text"),
    }
    assert!(matches!(&toks[2], XmlTok::Close { name } if name.as_slice() == b"a"));
    assert!(matches!(&toks[3], XmlTok::Open { name, .. } if name.as_slice() == b"b"));
    let strs = xml_tokens_str("<p>x</p>");
    assert_eq!(strs.len(), 3);
    assert!(xml_tokens(b"").is_empty());
}
