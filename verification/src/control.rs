//! Decisions of the reader's interface: the tab strip's answer to each
//! message, what a keyboard shortcut does to the reading position, and
//! full-text search over chapter or page texts.
use vstd::prelude::*;
use crate::chapters::{decimal, decimal_chars};
use crate::i18n::{tr, translated};
use crate::modes::{Bookmark, ModeKind};
use crate::shortcuts::ShortcutAction;
use crate::text::{chars_of, push_all, string_from_chars, trim, trim_chars};
use crate::viewer::jump_target;

verus! {

/// What a tab of the strip shows.
#[derive(Clone, Copy, PartialEq, Eq, Structural, Debug)]
pub enum TabKind {
    Home,
    Document,
    Settings,
    PdfToolbox,
}

/// A message to the tab strip.
#[derive(Clone, Copy, PartialEq, Eq, Structural, Debug)]
pub enum TabMsg {
    /// Close tab `idx`.
    CloseTab(usize),
    /// Make tab `idx` the active one.
    ActivateTab(usize),
    /// Open a new home tab.
    AddHomeTab,
    /// Open the settings tab, unless it is open.
    AddSettingsTab,
    /// Open the PDF tools tab, unless it is open.
    AddPdfToolboxTab,
    /// A document was opened and needs a tab.
    FileOpened,
}

/// What the caller does after a step of the tab strip.
#[derive(Clone, Copy, PartialEq, Eq, Structural, Debug)]
pub enum TabAction {
    /// Nothing more.
    Nothing,
    /// Put the opened document into tab `idx`.
    ShowDocument(usize),
}

/// Whether a tab of kind `k` is open.
pub open spec fn has_kind(tabs: Seq<TabKind>, k: TabKind) -> bool {
    exists|i: int| 0 <= i < tabs.len() && tabs[i] == k
}

/// The strip after message `msg`: its tabs, the active tab and what the
/// caller does next.  Closing never closes the last tab and keeps the
/// active index within the strip; the settings and PDF tools tabs are
/// opened once; an opened document replaces an active home tab, else it
/// gets a new tab, which becomes active.
pub open spec fn strip_step(tabs: Seq<TabKind>, active: int, msg: TabMsg) -> (Seq<TabKind>, int, TabAction) {
    match msg {
        TabMsg::CloseTab(idx) => if tabs.len() > 1 {
            let t = tabs.remove(idx as int);
            (t, if active >= t.len() {
                t.len() - 1
            } else {
                active
            }, TabAction::Nothing)
        } else {
            (tabs, active, TabAction::Nothing)
        },
        TabMsg::ActivateTab(idx) => (tabs, idx as int, TabAction::Nothing),
        TabMsg::AddHomeTab => (tabs.push(TabKind::Home), tabs.len() as int, TabAction::Nothing),
        TabMsg::AddSettingsTab => if has_kind(tabs, TabKind::Settings) {
            (tabs, active, TabAction::Nothing)
        } else {
            (tabs.push(TabKind::Settings), tabs.len() as int, TabAction::Nothing)
        },
        TabMsg::AddPdfToolboxTab => if has_kind(tabs, TabKind::PdfToolbox) {
            (tabs, active, TabAction::Nothing)
        } else {
            (tabs.push(TabKind::PdfToolbox), tabs.len() as int, TabAction::Nothing)
        },
        TabMsg::FileOpened => if tabs[active] == TabKind::Home {
            (tabs.update(active, TabKind::Document), active, TabAction::ShowDocument(active as usize))
        } else {
            (tabs.push(TabKind::Document), tabs.len() as int, TabAction::ShowDocument(tabs.len() as usize))
        },
    }
}

/// Whether a tab of kind `k` is open.
fn kind_open(tabs: &Vec<TabKind>, k: TabKind) -> (r: bool)
    ensures
        r == has_kind(tabs@, k),
{
    let mut i: usize = 0;
    while i < tabs.len()
        invariant
            i <= tabs@.len(),
            forall|j: int| 0 <= j < i ==> tabs@[j] != k,
        decreases tabs@.len() - i,
    {
        if tabs[i] == k {
            return true;
        }
        i += 1;
    }
    false
}

/// One step of the tab strip: applies `msg` to the tabs and the active
/// index, and says what the caller does next (see `strip_step`).
pub fn tab_strip_step(tabs: &mut Vec<TabKind>, active: &mut usize, msg: TabMsg) -> (act: TabAction)
    requires
        msg is AddHomeTab || msg is AddSettingsTab || msg is AddPdfToolboxTab || msg is FileOpened ==> old(
            tabs,
        )@.len() < usize::MAX,
        msg matches TabMsg::CloseTab(idx) ==> (old(tabs)@.len() > 1 ==> idx < old(tabs)@.len()),
        msg is FileOpened ==> *old(active) < old(tabs)@.len(),
    ensures
        (final(tabs)@, *final(active) as int, act) == strip_step(old(tabs)@, *old(active) as int, msg),
{
    match msg {
        TabMsg::CloseTab(idx) => {
            if tabs.len() > 1 {
                tabs.remove(idx);
                if *active >= tabs.len() {
                    *active = tabs.len() - 1;
                }
            }
            TabAction::Nothing
        },
        TabMsg::ActivateTab(idx) => {
            *active = idx;
            TabAction::Nothing
        },
        TabMsg::AddHomeTab => {
            tabs.push(TabKind::Home);
            *active = tabs.len() - 1;
            TabAction::Nothing
        },
        TabMsg::AddSettingsTab => {
            if !kind_open(tabs, TabKind::Settings) {
                tabs.push(TabKind::Settings);
                *active = tabs.len() - 1;
            }
            TabAction::Nothing
        },
        TabMsg::AddPdfToolboxTab => {
            if !kind_open(tabs, TabKind::PdfToolbox) {
                tabs.push(TabKind::PdfToolbox);
                *active = tabs.len() - 1;
            }
            TabAction::Nothing
        },
        TabMsg::FileOpened => {
            if tabs[*active] == TabKind::Home {
                tabs.set(*active, TabKind::Document);
                TabAction::ShowDocument(*active)
            } else {
                tabs.push(TabKind::Document);
                *active = tabs.len() - 1;
                TabAction::ShowDocument(*active)
            }
        },
    }
}

/// A strip with tabs keeps at least one through every step, and where
/// the active tab was within the strip, after any step but activating a
/// given index it still is.
pub proof fn lemma_strip_keeps_a_tab(tabs: Seq<TabKind>, active: int, msg: TabMsg)
    requires
        tabs.len() >= 1,
        0 <= active < tabs.len(),
        msg matches TabMsg::CloseTab(idx) ==> idx < tabs.len(),
        !(msg is ActivateTab),
    ensures
        strip_step(tabs, active, msg).0.len() >= 1,
        0 <= strip_step(tabs, active, msg).1 < strip_step(tabs, active, msg).0.len(),
{
}

/// Asking twice for the settings (or PDF tools) tab does what asking once
/// does.
pub proof fn lemma_add_singleton_twice(tabs: Seq<TabKind>, active: int, msg: TabMsg)
    requires
        msg is AddSettingsTab || msg is AddPdfToolboxTab,
    ensures
        strip_step(strip_step(tabs, active, msg).0, strip_step(tabs, active, msg).1, msg).0 == strip_step(
            tabs,
            active,
            msg,
        ).0,
        strip_step(strip_step(tabs, active, msg).0, strip_step(tabs, active, msg).1, msg).1 == strip_step(
            tabs,
            active,
            msg,
        ).1,
{
    let k = if msg is AddSettingsTab {
        TabKind::Settings
    } else {
        TabKind::PdfToolbox
    };
    let t1 = strip_step(tabs, active, msg).0;
    if !has_kind(tabs, k) {
        assert(t1[tabs.len() as int] == k);
        assert(has_kind(t1, k));
    }
}

/// The settings and PDF tools tabs are never open twice: a step keeps
/// each of them at most once in the strip.
pub proof fn lemma_singletons_stay_single(tabs: Seq<TabKind>, active: int, msg: TabMsg, k: TabKind)
    requires
        k == TabKind::Settings || k == TabKind::PdfToolbox,
        forall|i: int, j: int| 0 <= i < j < tabs.len() && tabs[i] == k ==> tabs[j] != k,
        msg is FileOpened ==> 0 <= active < tabs.len(),
        msg matches TabMsg::CloseTab(idx) ==> (tabs.len() > 1 ==> idx < tabs.len()),
    ensures
        forall|i: int, j: int|
            0 <= i < j < strip_step(tabs, active, msg).0.len() && strip_step(tabs, active, msg).0[i] == k
                ==> strip_step(tabs, active, msg).0[j] != k,
{
    let t = strip_step(tabs, active, msg).0;
    match msg {
        TabMsg::CloseTab(idx) => {
            if tabs.len() > 1 {
                assert forall|i: int, j: int| 0 <= i < j < t.len() && t[i] == k implies t[j] != k by {
                    let i0 = if i < idx { i } else { i + 1 };
                    let j0 = if j < idx { j } else { j + 1 };
                    assert(t[i] == tabs[i0]);
                    assert(t[j] == tabs[j0]);
                }
            }
        },
        TabMsg::AddSettingsTab => {
            if !has_kind(tabs, TabKind::Settings) && k == TabKind::Settings {
                assert forall|i: int, j: int| 0 <= i < j < t.len() && t[i] == k implies t[j] != k by {
                    if j == tabs.len() {
                        assert(tabs[i] == k);
                    }
                }
            }
        },
        TabMsg::AddPdfToolboxTab => {
            if !has_kind(tabs, TabKind::PdfToolbox) && k == TabKind::PdfToolbox {
                assert forall|i: int, j: int| 0 <= i < j < t.len() && t[i] == k implies t[j] != k by {
                    if j == tabs.len() {
                        assert(tabs[i] == k);
                    }
                }
            }
        },
        _ => {},
    }
}

/// The reading position and the reader's switches that shortcuts change.
pub struct ReadingNav {
    pub page: usize,
    pub mode: ModeKind,
    pub autoplay: bool,
    pub show_sidebar: bool,
    pub ui_visible: bool,
    pub bookmarks: Vec<Bookmark>,
    pub bookmarks_dirty: bool,
    /// A jump the scrolling view has yet to make.
    pub stream_jump_to: Option<usize>,
    /// The furthest page the scrolling view has laid out.
    pub stream_page_end: usize,
    /// The page number being typed in.
    pub goto_page_text: String,
    /// Whether the mini reader is shown, its page and its sentences.
    pub mo_yu_visible: bool,
    pub mo_yu_page: usize,
    pub mo_yu_sentences: Vec<String>,
}

/// The jump state of `b` is that of `a`.
pub open spec fn same_jump_state(a: ReadingNav, b: ReadingNav) -> bool {
    &&& b.stream_jump_to == a.stream_jump_to
    &&& b.stream_page_end == a.stream_page_end
    &&& b.goto_page_text@ == a.goto_page_text@
    &&& b.mo_yu_visible == a.mo_yu_visible
    &&& b.mo_yu_page == a.mo_yu_page
    &&& b.mo_yu_sentences@ == a.mo_yu_sentences@
}

/// `b` is `a` after a jump to page `t`: the page is `t`, the scrolling view
/// is to jump there and has laid out at least that far, the typed page
/// number is cleared, and a shown mini reader moves to `t` with no
/// sentences.
pub open spec fn jumped(a: ReadingNav, b: ReadingNav, t: usize) -> bool {
    &&& b.page == t
    &&& b.stream_jump_to == Some(t)
    &&& b.stream_page_end == if a.stream_page_end >= t {
        a.stream_page_end
    } else {
        t
    }
    &&& b.goto_page_text@.len() == 0
    &&& b.mo_yu_visible == a.mo_yu_visible
    &&& b.mo_yu_page == if a.mo_yu_visible {
        t
    } else {
        a.mo_yu_page
    }
    &&& b.mo_yu_sentences@ == if a.mo_yu_visible {
        Seq::<String>::empty()
    } else {
        a.mo_yu_sentences@
    }
}

/// Whether shortcut `a` on page `page` jumps.
pub open spec fn jump_taken(page: int, a: ShortcutAction, page_count: int, scroll_layout: bool) -> bool {
    match a {
        ShortcutAction::PrevPage => page > 0,
        ShortcutAction::NextPage => page < last_page(page_count),
        ShortcutAction::FirstPage => true,
        ShortcutAction::LastPage => true,
        ShortcutAction::ScrollDown => !scroll_layout && page < last_page(page_count),
        ShortcutAction::ScrollUp => !scroll_layout && page > 0,
        _ => false,
    }
}

/// Work a shortcut leaves to the caller.
#[derive(Clone, Copy, PartialEq, Eq, Structural, Debug)]
pub enum OutsideWork {
    Nothing,
    OpenDialog,
    NewTab,
    /// Save the reading progress, then close the active tab.
    CloseTab,
    /// Save the reading progress, then quit.
    Quit,
    Reload,
    ZoomIn,
    ZoomOut,
    /// Scroll a step down (or up) in the scrolling layout.
    Scroll { down: bool },
    Copy,
    /// Autoplay started: its progress starts over.
    RestartAutoPlay,
}

/// What a shortcut asks of the caller: its outside work, and whether the
/// reading progress is due to be saved.
pub struct ShortcutEffect {
    pub work: OutsideWork,
    pub sync: bool,
}

/// The reading progress is saved when more than 5 seconds have passed
/// since it last was.
pub open spec fn sync_due(elapsed_ms: u64) -> bool {
    elapsed_ms > 5000
}

/// A bookmark as plain values.
pub open spec fn bookmark_v(b: Bookmark) -> (usize, Seq<char>) {
    (b.page, b.label@)
}

pub open spec fn bookmarks_v(v: Seq<Bookmark>) -> Seq<(usize, Seq<char>)> {
    v.map_values(|b: Bookmark| bookmark_v(b))
}

/// The label of a bookmark on page `page` (counted from 0): `Page` in the
/// language, a space and the page counted from 1.
pub open spec fn bookmark_label(lang: Seq<char>, page: nat) -> Seq<char> {
    translated(lang, "Page"@) + seq![' '] + decimal(page + 1)
}

/// Where a jump to `target` lands (see `jump_target`).
pub open spec fn landing(target: int, page_count: int) -> int {
    if page_count == 0 {
        0
    } else if target < page_count {
        target
    } else {
        page_count - 1
    }
}

/// The last page's index, or 0.
pub open spec fn last_page(page_count: int) -> int {
    if page_count > 0 {
        page_count - 1
    } else {
        0
    }
}

/// The page after shortcut `a` on page `page` of `page_count` pages: the
/// page moves turn pages (in the scrolling layout the scroll shortcuts
/// scroll instead); other shortcuts leave the page.
pub open spec fn page_after(page: int, a: ShortcutAction, page_count: int, scroll_layout: bool) -> int {
    let prev = if page > 0 {
        landing(page - 1, page_count)
    } else {
        page
    };
    let next = if page < last_page(page_count) {
        landing(page + 1, page_count)
    } else {
        page
    };
    match a {
        ShortcutAction::PrevPage => prev,
        ShortcutAction::NextPage => next,
        ShortcutAction::FirstPage => landing(0, page_count),
        ShortcutAction::LastPage => landing(last_page(page_count), page_count),
        ShortcutAction::ScrollDown => if scroll_layout {
            page
        } else {
            next
        },
        ShortcutAction::ScrollUp => if scroll_layout {
            page
        } else {
            prev
        },
        _ => page,
    }
}

/// The outside work of shortcut `a`.
pub open spec fn work_of(a: ShortcutAction, scroll_layout: bool, light_reading: bool, autoplay: bool) -> OutsideWork {
    match a {
        ShortcutAction::OpenFile => OutsideWork::OpenDialog,
        ShortcutAction::NewTab => OutsideWork::NewTab,
        ShortcutAction::CloseTab => OutsideWork::CloseTab,
        ShortcutAction::Quit => OutsideWork::Quit,
        ShortcutAction::Reload => OutsideWork::Reload,
        ShortcutAction::ZoomIn => OutsideWork::ZoomIn,
        ShortcutAction::ZoomOut => OutsideWork::ZoomOut,
        ShortcutAction::ScrollDown => if scroll_layout {
            OutsideWork::Scroll { down: true }
        } else {
            OutsideWork::Nothing
        },
        ShortcutAction::ScrollUp => if scroll_layout {
            OutsideWork::Scroll { down: false }
        } else {
            OutsideWork::Nothing
        },
        ShortcutAction::Copy => OutsideWork::Copy,
        ShortcutAction::ToggleAutoPlay => if light_reading && !autoplay {
            OutsideWork::RestartAutoPlay
        } else {
            OutsideWork::Nothing
        },
        _ => OutsideWork::Nothing,
    }
}

/// Page moves by shortcut, for a document of `page_count` pages shown
/// page by page from page `page`: Next Page and Scroll Down (Space,
/// Arrow Down) turn to the next page when there is one; Previous Page and
/// Scroll Up turn back when not on the first page; each of these jumps.
/// In the scrolling layout the scroll shortcuts leave the page to the
/// scrolling.
pub proof fn lemma_shortcut_page_turns(page: int, page_count: int)
    requires
        0 <= page < page_count,
    ensures
        page + 1 < page_count ==> page_after(page, ShortcutAction::NextPage, page_count, false) == page + 1
            && page_after(page, ShortcutAction::ScrollDown, page_count, false) == page + 1 && jump_taken(
            page,
            ShortcutAction::NextPage,
            page_count,
            false,
        ) && jump_taken(page, ShortcutAction::ScrollDown, page_count, false),
        page + 1 == page_count ==> page_after(page, ShortcutAction::NextPage, page_count, false) == page
            && page_after(page, ShortcutAction::ScrollDown, page_count, false) == page,
        page > 0 ==> page_after(page, ShortcutAction::PrevPage, page_count, false) == page - 1 && page_after(
            page,
            ShortcutAction::ScrollUp,
            page_count,
            false,
        ) == page - 1 && jump_taken(page, ShortcutAction::PrevPage, page_count, false) && jump_taken(
            page,
            ShortcutAction::ScrollUp,
            page_count,
            false,
        ),
        page == 0 ==> page_after(page, ShortcutAction::PrevPage, page_count, false) == 0 && page_after(
            page,
            ShortcutAction::ScrollUp,
            page_count,
            false,
        ) == 0,
        page_after(page, ShortcutAction::FirstPage, page_count, false) == 0,
        page_after(page, ShortcutAction::LastPage, page_count, false) == page_count - 1,
        page_after(page, ShortcutAction::ScrollDown, page_count, true) == page,
        page_after(page, ShortcutAction::ScrollUp, page_count, true) == page,
        !jump_taken(page, ShortcutAction::ScrollDown, page_count, true),
        !jump_taken(page, ShortcutAction::ScrollUp, page_count, true),
{
}

/// Whatever the shortcut, the page stays within a document that has pages.
pub proof fn lemma_shortcut_page_in_range(page: int, a: ShortcutAction, page_count: int, scroll_layout: bool)
    requires
        0 <= page < page_count,
    ensures
        0 <= page_after(page, a, page_count, scroll_layout) < page_count,
{
}

/// The page reached by jumping to `target` (the page moves of shortcuts).
fn page_jump(target: usize, page_count: usize) -> (p: usize)
    ensures
        p == landing(target as int, page_count as int),
{
    jump_target(target, page_count)
}

impl ReadingNav {
    /// Jumps to page `target` of a document of `page_count` pages (at most
    /// the last page): see `jumped`.
    pub fn jump_to(&mut self, target: usize, page_count: usize)
        ensures
            jumped(*old(self), *final(self), landing(target as int, page_count as int) as usize),
            final(self).mode == old(self).mode,
            final(self).autoplay == old(self).autoplay,
            final(self).show_sidebar == old(self).show_sidebar,
            final(self).ui_visible == old(self).ui_visible,
            final(self).bookmarks@ == old(self).bookmarks@,
            final(self).bookmarks_dirty == old(self).bookmarks_dirty,
    {
        let t = page_jump(target, page_count);
        self.stream_jump_to = Some(t);
        if self.stream_page_end < t {
            self.stream_page_end = t;
        }
        self.page = t;
        self.goto_page_text = String::new();
        if self.mo_yu_visible {
            self.mo_yu_page = t;
            self.mo_yu_sentences = Vec::new();
        }
    }

    /// Adds a bookmark on the current page, labelled `Page n` in language
    /// `lang` (the page counted from 1), and marks the bookmarks changed.
    pub fn add_bookmark(&mut self, lang: &str)
        requires
            old(self).page < usize::MAX,
        ensures
            bookmarks_v(final(self).bookmarks@) == bookmarks_v(old(self).bookmarks@).push(
                (old(self).page, bookmark_label(lang@, old(self).page as nat)),
            ),
            final(self).bookmarks_dirty,
            same_jump_state(*old(self), *final(self)),
            final(self).page == old(self).page,
            final(self).mode == old(self).mode,
            final(self).autoplay == old(self).autoplay,
            final(self).show_sidebar == old(self).show_sidebar,
            final(self).ui_visible == old(self).ui_visible,
    {
        let cur = self.page;
        let mut label = chars_of(tr(lang, "Page"));
        label.push(' ');
        push_all(&mut label, decimal_chars(cur + 1).as_slice());
        let ghost before = bookmarks_v(self.bookmarks@);
        proof {
            reveal_strlit("Page");
        }
        assert(label@ =~= bookmark_label(lang@, cur as nat));
        let b = Bookmark { page: cur, label: string_from_chars(label.as_slice()) };
        assert(bookmark_v(b) == (cur, bookmark_label(lang@, cur as nat)));
        self.bookmarks.push(b);
        self.bookmarks_dirty = true;
        assert(bookmarks_v(self.bookmarks@) =~= before.push((cur, bookmark_label(lang@, cur as nat))));
    }

    /// Removes bookmark `idx` and marks the bookmarks changed.
    pub fn remove_bookmark(&mut self, idx: usize)
        requires
            idx < old(self).bookmarks@.len(),
        ensures
            bookmarks_v(final(self).bookmarks@) == bookmarks_v(old(self).bookmarks@).remove(idx as int),
            final(self).bookmarks_dirty,
            same_jump_state(*old(self), *final(self)),
            final(self).page == old(self).page,
            final(self).mode == old(self).mode,
            final(self).autoplay == old(self).autoplay,
            final(self).show_sidebar == old(self).show_sidebar,
            final(self).ui_visible == old(self).ui_visible,
    {
        let ghost before = self.bookmarks@;
        self.bookmarks.remove(idx);
        self.bookmarks_dirty = true;
        assert(bookmarks_v(self.bookmarks@) =~= bookmarks_v(before).remove(idx as int));
    }

    /// Switches the tab to mode `target`; leaving light reading stops
    /// autoplay.
    pub fn switch_mode(&mut self, target: ModeKind)
        ensures
            final(self).mode == target,
            final(self).autoplay == (old(self).autoplay && !(old(self).mode == ModeKind::LightReading && target
                != ModeKind::LightReading)),
            final(self).page == old(self).page,
            final(self).show_sidebar == old(self).show_sidebar,
            final(self).ui_visible == old(self).ui_visible,
            final(self).bookmarks@ == old(self).bookmarks@,
            final(self).bookmarks_dirty == old(self).bookmarks_dirty,
            same_jump_state(*old(self), *final(self)),
    {
        if self.mode == ModeKind::LightReading && target != ModeKind::LightReading {
            self.autoplay = false;
        }
        self.mode = target;
    }
}

/// Applies shortcut `a` to the reading position of a document of
/// `page_count` pages, shown in the scrolling layout or page by page, with
/// bookmark labels in language `lang`; `elapsed_ms` is the time since the
/// progress was last saved.  Page moves jump within the document;
/// `ToggleSidebar` and `ToggleUI` flip their switch; `AddBookmark` adds a
/// bookmark on the page, labelled `Page n`; `ToggleAutoPlay` acts only in
/// light reading; the rest is left to the caller.
pub fn apply_shortcut(
    nav: &mut ReadingNav,
    a: ShortcutAction,
    page_count: usize,
    scroll_layout: bool,
    lang: &str,
    elapsed_ms: u64,
) -> (eff: ShortcutEffect)
    requires
        old(nav).page < usize::MAX,
    ensures
        final(nav).page == page_after(old(nav).page as int, a, page_count as int, scroll_layout),
        jump_taken(old(nav).page as int, a, page_count as int, scroll_layout) ==> jumped(
            *old(nav),
            *final(nav),
            final(nav).page,
        ),
        !jump_taken(old(nav).page as int, a, page_count as int, scroll_layout) ==> same_jump_state(
            *old(nav),
            *final(nav),
        ),
        final(nav).mode == old(nav).mode,
        final(nav).autoplay == if a == ShortcutAction::ToggleAutoPlay && old(nav).mode == ModeKind::LightReading {
            !old(nav).autoplay
        } else {
            old(nav).autoplay
        },
        final(nav).show_sidebar == (old(nav).show_sidebar != (a == ShortcutAction::ToggleSidebar)),
        final(nav).ui_visible == (old(nav).ui_visible != (a == ShortcutAction::ToggleUI)),
        bookmarks_v(final(nav).bookmarks@) == if a == ShortcutAction::AddBookmark {
            bookmarks_v(old(nav).bookmarks@).push((old(nav).page, bookmark_label(lang@, old(nav).page as nat)))
        } else {
            bookmarks_v(old(nav).bookmarks@)
        },
        final(nav).bookmarks_dirty == (old(nav).bookmarks_dirty || a == ShortcutAction::AddBookmark),
        eff.work == work_of(a, scroll_layout, old(nav).mode == ModeKind::LightReading, old(nav).autoplay),
        eff.sync == sync_due(elapsed_ms),
{
    let light = nav.mode == ModeKind::LightReading;
    let was_playing = nav.autoplay;
    let max = if page_count > 0 {
        page_count - 1
    } else {
        0
    };
    let cur = nav.page;
    let work = match a {
        ShortcutAction::OpenFile => OutsideWork::OpenDialog,
        ShortcutAction::NewTab => OutsideWork::NewTab,
        ShortcutAction::CloseTab => OutsideWork::CloseTab,
        ShortcutAction::Quit => OutsideWork::Quit,
        ShortcutAction::Reload => OutsideWork::Reload,
        ShortcutAction::ZoomIn => OutsideWork::ZoomIn,
        ShortcutAction::ZoomOut => OutsideWork::ZoomOut,
        ShortcutAction::PrevPage => {
            if cur > 0 {
                nav.jump_to(cur - 1, page_count);
            }
            OutsideWork::Nothing
        },
        ShortcutAction::NextPage => {
            if cur < max {
                nav.jump_to(cur + 1, page_count);
            }
            OutsideWork::Nothing
        },
        ShortcutAction::FirstPage => {
            nav.jump_to(0, page_count);
            OutsideWork::Nothing
        },
        ShortcutAction::LastPage => {
            nav.jump_to(max, page_count);
            OutsideWork::Nothing
        },
        ShortcutAction::ScrollDown => {
            if scroll_layout {
                OutsideWork::Scroll { down: true }
            } else {
                if cur < max {
                    nav.jump_to(cur + 1, page_count);
                }
                OutsideWork::Nothing
            }
        },
        ShortcutAction::ScrollUp => {
            if scroll_layout {
                OutsideWork::Scroll { down: false }
            } else {
                if cur > 0 {
                    nav.jump_to(cur - 1, page_count);
                }
                OutsideWork::Nothing
            }
        },
        ShortcutAction::ToggleAutoPlay => {
            if light {
                nav.autoplay = !was_playing;
                if !was_playing {
                    OutsideWork::RestartAutoPlay
                } else {
                    OutsideWork::Nothing
                }
            } else {
                OutsideWork::Nothing
            }
        },
        ShortcutAction::AddBookmark => {
            nav.add_bookmark(lang);
            OutsideWork::Nothing
        },
        ShortcutAction::ToggleSidebar => {
            nav.show_sidebar = !nav.show_sidebar;
            OutsideWork::Nothing
        },
        ShortcutAction::ToggleUI => {
            nav.ui_visible = !nav.ui_visible;
            OutsideWork::Nothing
        },
        ShortcutAction::Copy => OutsideWork::Copy,
        _ => OutsideWork::Nothing,
    };
    ShortcutEffect { work, sync: elapsed_ms > 5000 }
}

/// What `str::to_lowercase` gives for `s`.
pub uninterp spec fn lowercase_of(s: Seq<char>) -> Seq<char>;

/// `str::to_lowercase`: the result is `lowercase_of` the text.
#[verifier::external_body]
fn to_lower(s: &str) -> (out: String)
    ensures
        out@ == lowercase_of(s@),
{
    s.to_lowercase()
}

/// `needle` stands in `hay` at `i`.
pub open spec fn occurs_at(hay: Seq<char>, needle: Seq<char>, i: int) -> bool {
    0 <= i && i + needle.len() <= hay.len() && hay.subrange(i, i + needle.len()) == needle
}

/// `needle` stands somewhere in `hay`.
pub open spec fn occurs(hay: Seq<char>, needle: Seq<char>) -> bool {
    exists|i: int| #[trigger] occurs_at(hay, needle, i)
}

/// The indices, in order, of the first `n` texts that hold `q` when both
/// are lower-cased.
pub open spec fn matches_upto(texts: Seq<Seq<char>>, q: Seq<char>, n: int) -> Seq<usize>
    decreases n,
{
    if n <= 0 {
        Seq::empty()
    } else if occurs(lowercase_of(texts[n - 1]), lowercase_of(q)) {
        matches_upto(texts, q, n - 1).push((n - 1) as usize)
    } else {
        matches_upto(texts, q, n - 1)
    }
}

/// The texts that a search for `q` finds: none for an empty query, else
/// each that holds `q` regardless of case.
pub open spec fn search_result(texts: Seq<Seq<char>>, q: Seq<char>) -> Seq<usize> {
    if q.len() == 0 {
        Seq::empty()
    } else {
        matches_upto(texts, q, texts.len() as int)
    }
}

/// Whether `needle` stands in `hay`.
fn holds_chars(hay: &Vec<char>, needle: &Vec<char>) -> (r: bool)
    ensures
        r == occurs(hay@, needle@),
{
    if needle.len() > hay.len() {
        assert forall|i: int| !#[trigger] occurs_at(hay@, needle@, i) by {}
        return false;
    }
    let hn = hay.len();
    let last = hn - needle.len();
    let mut i: usize = 0;
    loop
        invariant
            hn == hay@.len(),
            last == hay@.len() - needle@.len(),
            needle@.len() <= hay@.len(),
            i <= last,
            forall|k: int| 0 <= k < i ==> !#[trigger] occurs_at(hay@, needle@, k),
        ensures
            forall|k: int| 0 <= k <= last ==> !#[trigger] occurs_at(hay@, needle@, k),
        decreases last - i,
    {
        let mut j: usize = 0;
        let mut same = true;
        while j < needle.len()
            invariant
                hn == hay@.len(),
                i <= last,
                last == hay@.len() - needle@.len(),
                needle@.len() <= hay@.len(),
                j <= needle@.len(),
                same == forall|m: int| 0 <= m < j ==> hay@[i + m] == needle@[m],
            decreases needle@.len() - j,
        {
            if hay[i + j] != needle[j] {
                same = false;
            }
            j += 1;
        }
        if same {
            assert(hay@.subrange(i as int, i + needle@.len()) =~= needle@);
            assert(occurs_at(hay@, needle@, i as int));
            return true;
        }
        proof {
            let m = choose|m: int| 0 <= m < needle@.len() && hay@[i + m] != needle@[m];
            assert(hay@.subrange(i as int, i + needle@.len())[m] != needle@[m]);
        }
        if i == last {
            break;
        }
        i += 1;
    }
    assert forall|k: int| !#[trigger] occurs_at(hay@, needle@, k) by {
        if 0 <= k && k + needle@.len() <= hay@.len() {
            assert(k <= last);
        }
    }
    false
}

/// Full-text search: the indices of the texts (chapter or page texts)
/// that hold `query` regardless of case; none for an empty query.
pub fn search_matches(texts: &Vec<String>, query: &str) -> (out: Vec<usize>)
    ensures
        out@ == search_result(texts@.map_values(|t: String| t@), query@),
{
    let ghost tv = texts@.map_values(|t: String| t@);
    let mut out: Vec<usize> = Vec::new();
    if query.is_empty() {
        return out;
    }
    let q = chars_of(to_lower(query).as_str());
    let mut i: usize = 0;
    while i < texts.len()
        invariant
            i <= texts@.len(),
            tv == texts@.map_values(|t: String| t@),
            q@ == lowercase_of(query@),
            out@ == matches_upto(tv, query@, i as int),
        decreases texts@.len() - i,
    {
        let t = chars_of(to_lower(texts[i].as_str()).as_str());
        assert(tv[i as int] == texts@[i as int]@);
        if holds_chars(&t, &q) {
            out.push(i);
        }
        i += 1;
    }
    out
}

/// The match after (or before) match `current` of `total`, going round at
/// either end.
pub fn step_match(current: usize, total: usize, forward: bool) -> (r: usize)
    requires
        total > 0,
    ensures
        r == if forward {
            if current + 1 >= total {
                0
            } else {
                current + 1
            }
        } else {
            if current == 0 {
                total - 1
            } else {
                current - 1
            }
        },
{
    if forward {
        if current >= total - 1 {
            0
        } else {
            current + 1
        }
    } else {
        if current == 0 {
            total - 1
        } else {
            current - 1
        }
    }
}

/// `c` is an ASCII digit.
pub open spec fn is_digit(c: char) -> bool {
    '0' <= c && c <= '9'
}

/// The number that decimal digits `d` write.
pub open spec fn digits_value(d: Seq<char>) -> int
    decreases d.len(),
{
    if d.len() == 0 {
        0
    } else {
        digits_value(d.drop_last()) * 10 + (d.last() as int - '0' as int)
    }
}

/// `s` without a leading `+`.
pub open spec fn unsigned_part(s: Seq<char>) -> Seq<char> {
    if s.len() > 0 && s[0] == '+' {
        s.drop_first()
    } else {
        s
    }
}

/// Every character of `d` is a decimal digit.
pub open spec fn all_digits(d: Seq<char>) -> bool {
    forall|i: int| 0 <= i < d.len() ==> #[trigger] is_digit(d[i])
}

/// What `usize::from_str` reads from `s`: an optional `+`, then one or
/// more decimal digits whose number fits a `usize`; otherwise nothing.
pub open spec fn parsed_usize(s: Seq<char>) -> Option<usize> {
    let d = unsigned_part(s);
    if d.len() > 0 && all_digits(d) && digits_value(d) <= usize::MAX {
        Some(digits_value(d) as usize)
    } else {
        None
    }
}

proof fn lemma_digits_grow(d: Seq<char>, k: int)
    requires
        0 <= k <= d.len(),
        all_digits(d),
    ensures
        digits_value(d) >= digits_value(d.take(k)),
        digits_value(d.take(k)) >= 0,
    decreases d.len(),
{
    if d.len() == 0 {
        assert(d.take(k) =~= d);
    } else if k == d.len() {
        assert(d.take(k) =~= d);
        lemma_digits_grow(d.drop_last(), k - 1);
        assert(is_digit(d.last()));
    } else {
        lemma_digits_grow(d.drop_last(), k);
        assert(d.drop_last().take(k) =~= d.take(k));
        lemma_digits_grow(d.drop_last(), 0);
        assert(is_digit(d.last()));
    }
}

/// Reads a `usize` as `usize::from_str` does (see `parsed_usize`).
pub fn parse_usize(s: &[char]) -> (out: Option<usize>)
    ensures
        out == parsed_usize(s@),
{
    let start: usize = if s.len() > 0 && s[0] == '+' {
        1
    } else {
        0
    };
    let ghost d = unsigned_part(s@);
    assert(d =~= s@.skip(start as int));
    if s.len() <= start {
        return None;
    }
    let mut value: usize = 0;
    let mut i: usize = start;
    assert(d.take(0) =~= Seq::<char>::empty());
    while i < s.len()
        invariant
            start <= i <= s@.len(),
            d =~= s@.skip(start as int),
            d == unsigned_part(s@),
            forall|j: int| 0 <= j < i - start ==> #[trigger] is_digit(d[j]),
            value as int == digits_value(d.take(i - start)),
        decreases s@.len() - i,
    {
        let c = s[i];
        assert(d[i - start] == c);
        if !('0' <= c && c <= '9') {
            assert(!is_digit(d[i - start]));
            assert(!all_digits(d));
            assert(parsed_usize(s@) is None);
            return None;
        }
        let dig: usize = (c as u32 - '0' as u32) as usize;
        assert(d.take(i - start + 1).drop_last() =~= d.take(i - start));
        assert(d.take(i - start + 1).last() == c);
        assert(digits_value(d.take(i - start + 1)) == value * 10 + dig);
        if value > (usize::MAX - dig) / 10 {
            proof {
                assert(value * 10 + dig > usize::MAX) by (nonlinear_arith)
                    requires
                        value > (usize::MAX - dig) / 10,
                        dig <= 9,
                ;
                if all_digits(d) {
                    lemma_digits_grow(d, i - start + 1);
                }
                assert(parsed_usize(s@) is None);
            }
            return None;
        }
        assert(value * 10 + dig <= usize::MAX) by (nonlinear_arith)
            requires
                value <= (usize::MAX - dig) / 10,
                dig <= 9,
        ;
        value = value * 10 + dig;
        i += 1;
    }
    assert(d.take(i - start) =~= d);
    Some(value)
}

/// The page (counted from 0) that typed page number `p` (counted from 1)
/// asks for: held within `1..=page_count` first (page 0 without pages).
pub open spec fn page_target(p: int, page_count: int) -> int {
    let a = if p < 1 {
        1
    } else {
        p
    };
    let b = if a > page_count {
        page_count
    } else {
        a
    };
    if b > 0 {
        b - 1
    } else {
        0
    }
}

/// The page (counted from 0) that a typed page number asks for: the
/// number read from the trimmed text (see `page_target`); none when the
/// text holds no number.
pub fn page_from_input(text: &str, page_count: usize) -> (out: Option<usize>)
    ensures
        out == match parsed_usize(trim(text@)) {
            Some(p) => Some(page_target(p as int, page_count as int) as usize),
            None => None,
        },
{
    let t = trim_chars(chars_of(text).as_slice());
    match parse_usize(t.as_slice()) {
        Some(p) => {
            let a = if p < 1 {
                1
            } else {
                p
            };
            let b = if a > page_count {
                page_count
            } else {
                a
            };
            Some(
                if b > 0 {
                    b - 1
                } else {
                    0
                },
            )
        },
        None => None,
    }
}

/// The line (counted from 1) that a typed line number asks for: the
/// number read from the trimmed text, at least 1; none when the text
/// holds no number.
pub fn line_from_input(text: &str) -> (out: Option<usize>)
    ensures
        out == match parsed_usize(trim(text@)) {
            Some(l) => Some(if l < 1 {
                1usize
            } else {
                l
            }),
            None => None,
        },
{
    let t = trim_chars(chars_of(text).as_slice());
    match parse_usize(t.as_slice()) {
        Some(l) => Some(
            if l < 1 {
                1
            } else {
                l
            },
        ),
        None => None,
    }
}

} // verus!
