//! Open tabs: documents, the new-tab page, settings and the PDF toolbox;
//! which one is active, and what opening and closing tabs does to that.
use vstd::prelude::*;
use crate::features::{FeatureSystem, FeatureV};
use crate::i18n::{tr, translated};
use crate::reflow::file_stem;
use crate::paths::{file_name_of, has_plain_stem, slash_path, std_file_stem, stem_of};
use crate::toolbox::or_default;
use crate::toolbox::PdfToolboxState;

verus! {

/// What a tab shows.
pub enum TabContent {
    Document,
    NewTab,
    Settings,
    PdfToolbox(PdfToolboxState),
}

/// An open tab: its content, the document it holds (of type `D`), the
/// document's path, its reading modes (of type `M`) and its book id.
pub struct OpenTab<D, M> {
    pub content: TabContent,
    pub document: Option<D>,
    pub path: Option<String>,
    pub modes: M,
    pub book_id: Option<String>,
}

impl<D, M> OpenTab<D, M> {
    /// Whether the tab is the new-tab page.
    pub fn is_new_tab(&self) -> (r: bool)
        ensures
            r == self.content is NewTab,
    {
        match self.content {
            TabContent::NewTab => true,
            _ => false,
        }
    }

    /// Whether the tab shows the settings.
    pub fn is_settings_tab(&self) -> (r: bool)
        ensures
            r == self.content is Settings,
    {
        match self.content {
            TabContent::Settings => true,
            _ => false,
        }
    }

    /// Whether the tab shows a document it holds.
    pub fn has_document(&self) -> (r: bool)
        ensures
            r == (self.content is Document && self.document is Some),
    {
        match self.content {
            TabContent::Document => self.document.is_some(),
            _ => false,
        }
    }

    /// Whether the tab is the PDF toolbox.
    pub fn is_pdf_toolbox(&self) -> (r: bool)
        ensures
            r == self.content is PdfToolbox,
    {
        match self.content {
            TabContent::PdfToolbox(_) => true,
            _ => false,
        }
    }

    /// The tab's title in language `lang`: the settings and toolbox tabs
    /// by name, a document by its file's stem (`Untitled` when the name has
    /// none), a tab without a path as the new-tab page.  For a plain path
    /// the stem is that of its file name; for other paths it follows the
    /// platform's path rules.
    pub fn title(&self, lang: &str) -> (s: String)
        ensures
            self.content is Settings ==> s@ == translated(lang@, "⚙ Settings"@),
            self.content is PdfToolbox ==> s@ == translated(lang@, "📄 PDF Tools"@),
            !(self.content is Settings) && !(self.content is PdfToolbox) && self.path is None ==> s@
                == translated(lang@, "+ New Tab"@),
            !(self.content is Settings) && !(self.content is PdfToolbox) && self.path is Some && has_plain_stem(
                self.path->0@,
            ) ==> s@ == stem_of(file_name_of(self.path->0@)),
            !(self.content is Settings) && !(self.content is PdfToolbox) && self.path is Some && slash_path(
                self.path->0@,
            ) ==> s@ == or_default(std_file_stem(self.path->0@), translated(lang@, "Untitled"@)),
    {
        match &self.content {
            TabContent::Settings => String::from_str(tr(lang, "⚙ Settings")),
            TabContent::PdfToolbox(_) => String::from_str(tr(lang, "📄 PDF Tools")),
            _ => match &self.path {
                Some(p) => match file_stem(p.as_str()) {
                    Some(stem) => {
                        stem
                    },
                    None => {
                        let u = String::from_str(tr(lang, "Untitled"));
                        u
                    },
                },
                None => String::from_str(tr(lang, "+ New Tab")),
            },
        }
    }
}

/// A tab without document or path, showing `content`.
pub open spec fn bare_tab<D, M>(t: OpenTab<D, M>, content_is: spec_fn(TabContent) -> bool, modes: M) -> bool {
    &&& content_is(t.content)
    &&& t.document is None
    &&& t.path is None
    &&& t.book_id is None
    &&& t.modes == modes
}

/// The index of the first tab whose content satisfies `p`, if any.
pub open spec fn first_tab<D, M>(tabs: Seq<OpenTab<D, M>>, p: spec_fn(TabContent) -> bool) -> Option<int> {
    if exists|i: int| 0 <= i < tabs.len() && p(#[trigger] tabs[i].content) {
        Some(choose|i: int| 0 <= i < tabs.len() && p(#[trigger] tabs[i].content) && forall|j: int| 0 <= j < i ==> !p(#[trigger] tabs[j].content))
    } else {
        None
    }
}

pub open spec fn is_settings() -> spec_fn(TabContent) -> bool {
    |c: TabContent| c is Settings
}

pub open spec fn is_toolbox() -> spec_fn(TabContent) -> bool {
    |c: TabContent| c is PdfToolbox
}

pub open spec fn is_new() -> spec_fn(TabContent) -> bool {
    |c: TabContent| c is NewTab
}

/// Where the active tab goes when tab `idx` of `len` tabs closes while
/// `active` is active: it stays on the same tab when that tab is before
/// the closed one, moves back one when after it, and falls on the last tab
/// when it pointed past the end.
pub open spec fn active_after_close(len: int, active: int, idx: int) -> int {
    if active >= len - 1 {
        len - 2
    } else if idx < active {
        active - 1
    } else {
        active
    }
}

/// The application's tabs and shared state: settings of type `S`.
pub struct AppState<D, M, S> {
    pub tabs: Vec<OpenTab<D, M>>,
    pub active_tab: usize,
    pub feature_system: FeatureSystem,
    pub ui_visible: bool,
    pub settings: S,
}

impl<D, M, S> AppState<D, M, S> {
    /// A fresh state: one new-tab page, active; no feature registered; the
    /// interface shown.
    pub fn new(settings: S, modes: M) -> (st: Self)
        ensures
            st.tabs@.len() == 1,
            bare_tab(st.tabs@[0], is_new(), modes),
            st.active_tab == 0,
            st.feature_system.wf(),
            st.feature_system@ == Map::<Seq<char>, FeatureV>::empty(),
            st.ui_visible,
            st.settings == settings,
    {
        let mut st = AppState {
            tabs: Vec::new(),
            active_tab: 0,
            feature_system: FeatureSystem::new(),
            ui_visible: true,
            settings,
        };
        st.add_new_tab(modes);
        st
    }

    /// Opens a document tab and makes it active; returns its index.
    pub fn add_tab(&mut self, path: String, document: D, modes: M) -> (idx: usize)
        requires
            old(self).tabs@.len() < usize::MAX,
        ensures
            idx == old(self).tabs@.len(),
            final(self).tabs@.len() == old(self).tabs@.len() + 1,
            final(self).tabs@.take(idx as int) == old(self).tabs@,
            final(self).tabs@[idx as int].content is Document,
            final(self).tabs@[idx as int].document == Some(document),
            final(self).tabs@[idx as int].path == Some(path),
            final(self).tabs@[idx as int].modes == modes,
            final(self).tabs@[idx as int].book_id is None,
            final(self).active_tab == idx,
            final(self).settings == old(self).settings,
            final(self).feature_system == old(self).feature_system,
            final(self).ui_visible == old(self).ui_visible,
    {
        let idx = self.tabs.len();
        self.tabs.push(
            OpenTab { content: TabContent::Document, document: Some(document), path: Some(path), modes, book_id: None },
        );
        self.active_tab = idx;
        assert(self.tabs@.take(idx as int) =~= old(self).tabs@);
        idx
    }

    /// Opens a new-tab page and makes it active; returns its index.
    pub fn add_new_tab(&mut self, modes: M) -> (idx: usize)
        requires
            old(self).tabs@.len() < usize::MAX,
        ensures
            idx == old(self).tabs@.len(),
            final(self).tabs@ == old(self).tabs@.push(final(self).tabs@[idx as int]),
            bare_tab(final(self).tabs@[idx as int], is_new(), modes),
            final(self).active_tab == idx,
            final(self).settings == old(self).settings,
            final(self).feature_system == old(self).feature_system,
            final(self).ui_visible == old(self).ui_visible,
    {
        let idx = self.tabs.len();
        self.tabs.push(OpenTab { content: TabContent::NewTab, document: None, path: None, modes, book_id: None });
        self.active_tab = idx;
        idx
    }

    /// Activates the settings tab, opening it first when there is none;
    /// returns its index.
    pub fn add_settings_tab(&mut self, modes: M) -> (idx: usize)
        requires
            old(self).tabs@.len() < usize::MAX,
        ensures
            first_tab(old(self).tabs@, is_settings()) matches Some(i) ==> idx == i && final(self).tabs@
                == old(self).tabs@,
            first_tab(old(self).tabs@, is_settings()) is None ==> {
                &&& idx == old(self).tabs@.len()
                &&& final(self).tabs@ == old(self).tabs@.push(final(self).tabs@[idx as int])
                &&& bare_tab(final(self).tabs@[idx as int], is_settings(), modes)
            },
            final(self).active_tab == idx,
            final(self).settings == old(self).settings,
            final(self).feature_system == old(self).feature_system,
            final(self).ui_visible == old(self).ui_visible,
    {
        let mut i: usize = 0;
        while i < self.tabs.len()
            invariant
                i <= self.tabs@.len(),
                self.tabs@ == old(self).tabs@,
                self.active_tab == old(self).active_tab,
                self.settings == old(self).settings,
                self.feature_system == old(self).feature_system,
                self.ui_visible == old(self).ui_visible,
                forall|j: int| 0 <= j < i ==> !(#[trigger] self.tabs@[j].content is Settings),
            decreases self.tabs@.len() - i,
        {
            if self.tabs[i].is_settings_tab() {
                self.active_tab = i;
                proof {
                    let p = is_settings();
                    assert(p(self.tabs@[i as int].content));
                    let c = choose|c: int| 0 <= c < self.tabs@.len() && p(#[trigger] self.tabs@[c].content) && forall|j: int| 0 <= j < c ==> !p(#[trigger] self.tabs@[j].content);
                    assert(c == i) by {
                        if c < i {
                            assert(!p(self.tabs@[c].content));
                        } else if c > i {
                            assert(!p(self.tabs@[i as int].content));
                        }
                    }
                }
                return i;
            }
            i += 1;
        }
        proof {
            let p = is_settings();
            assert(!exists|j: int| 0 <= j < self.tabs@.len() && p(#[trigger] self.tabs@[j].content));
        }
        let idx = self.tabs.len();
        self.tabs.push(OpenTab { content: TabContent::Settings, document: None, path: None, modes, book_id: None });
        self.active_tab = idx;
        idx
    }

    /// Activates the PDF toolbox tab, opening a fresh one first when there
    /// is none; returns its index.
    pub fn add_pdf_toolbox_tab(&mut self, modes: M) -> (idx: usize)
        requires
            old(self).tabs@.len() < usize::MAX,
        ensures
            first_tab(old(self).tabs@, is_toolbox()) matches Some(i) ==> idx == i && final(self).tabs@
                == old(self).tabs@,
            first_tab(old(self).tabs@, is_toolbox()) is None ==> {
                &&& idx == old(self).tabs@.len()
                &&& final(self).tabs@ == old(self).tabs@.push(final(self).tabs@[idx as int])
                &&& bare_tab(final(self).tabs@[idx as int], is_toolbox(), modes)
                &&& final(self).tabs@[idx as int].content matches TabContent::PdfToolbox(st) && st.log@.len()
                    == 0 && st.input_files@.len() == 0
            },
            final(self).active_tab == idx,
            final(self).settings == old(self).settings,
            final(self).feature_system == old(self).feature_system,
            final(self).ui_visible == old(self).ui_visible,
    {
        let mut i: usize = 0;
        while i < self.tabs.len()
            invariant
                i <= self.tabs@.len(),
                self.tabs@ == old(self).tabs@,
                self.active_tab == old(self).active_tab,
                self.settings == old(self).settings,
                self.feature_system == old(self).feature_system,
                self.ui_visible == old(self).ui_visible,
                forall|j: int| 0 <= j < i ==> !(#[trigger] self.tabs@[j].content is PdfToolbox),
            decreases self.tabs@.len() - i,
        {
            if self.tabs[i].is_pdf_toolbox() {
                self.active_tab = i;
                proof {
                    let p = is_toolbox();
                    assert(p(self.tabs@[i as int].content));
                    let c = choose|c: int| 0 <= c < self.tabs@.len() && p(#[trigger] self.tabs@[c].content) && forall|j: int| 0 <= j < c ==> !p(#[trigger] self.tabs@[j].content);
                    assert(c == i) by {
                        if c < i {
                            assert(!p(self.tabs@[c].content));
                        } else if c > i {
                            assert(!p(self.tabs@[i as int].content));
                        }
                    }
                }
                return i;
            }
            i += 1;
        }
        proof {
            let p = is_toolbox();
            assert(!exists|j: int| 0 <= j < self.tabs@.len() && p(#[trigger] self.tabs@[j].content));
        }
        let idx = self.tabs.len();
        self.tabs.push(
            OpenTab {
                content: TabContent::PdfToolbox(PdfToolboxState::new()),
                document: None,
                path: None,
                modes,
                book_id: None,
            },
        );
        self.active_tab = idx;
        idx
    }

    /// Closes tab `idx` (a tab past the last changes nothing).  The last
    /// tab closed leaves a new-tab page, active; else the active tab is
    /// `active_after_close`.
    pub fn close_tab(&mut self, idx: usize, modes: M)
        ensures
            idx >= old(self).tabs@.len() ==> *final(self) == *old(self),
            idx < old(self).tabs@.len() && old(self).tabs@.len() == 1 ==> {
                &&& final(self).tabs@.len() == 1
                &&& bare_tab(final(self).tabs@[0], is_new(), modes)
                &&& final(self).active_tab == 0
            },
            idx < old(self).tabs@.len() && old(self).tabs@.len() > 1 ==> {
                &&& final(self).tabs@ == old(self).tabs@.remove(idx as int)
                &&& final(self).active_tab == active_after_close(
                    old(self).tabs@.len() as int,
                    old(self).active_tab as int,
                    idx as int,
                )
            },
            final(self).settings == old(self).settings,
            final(self).feature_system == old(self).feature_system,
            final(self).ui_visible == old(self).ui_visible,
    {
        if idx >= self.tabs.len() {
            return;
        }
        self.tabs.remove(idx);
        if self.tabs.len() == 0 {
            self.add_new_tab(modes);
        } else if self.active_tab >= self.tabs.len() {
            self.active_tab = self.tabs.len() - 1;
        } else if idx < self.active_tab {
            self.active_tab = self.active_tab - 1;
        }
    }

    /// The active tab, if the index points at one.
    pub fn current_tab(&self) -> (t: Option<&OpenTab<D, M>>)
        ensures
            self.active_tab < self.tabs@.len() ==> t == Some(&self.tabs@[self.active_tab as int]),
            self.active_tab >= self.tabs@.len() ==> t is None,
    {
        if self.active_tab < self.tabs.len() {
            Some(&self.tabs[self.active_tab])
        } else {
            None
        }
    }
}

/// Closing a tab keeps the active index on a tab: if it pointed at one
/// before, it points at one after.
pub proof fn lemma_close_keeps_active_in_range(len: int, active: int, idx: int)
    requires
        0 <= idx < len,
        len > 1,
        0 <= active < len,
    ensures
        0 <= active_after_close(len, active, idx) < len - 1,
{
}

/// A settings or toolbox tab opens once: once it is added where there was
/// none, it is the first such tab, so asking for it again activates it.
pub proof fn lemma_single_tab_opens_once<D, M>(
    tabs: Seq<OpenTab<D, M>>,
    t: OpenTab<D, M>,
    p: spec_fn(TabContent) -> bool,
)
    requires
        first_tab(tabs, p) is None,
        p(t.content),
    ensures
        first_tab(tabs.push(t), p) == Some(tabs.len() as int),
{
    let n = tabs.push(t);
    assert(p(n[tabs.len() as int].content));
    assert(exists|i: int| 0 <= i < n.len() && p(#[trigger] n[i].content));
    let c = choose|c: int| 0 <= c < n.len() && p(#[trigger] n[c].content) && forall|j: int| 0 <= j < c ==> !p(#[trigger] n[j].content);
    assert forall|j: int| 0 <= j < tabs.len() implies !p(#[trigger] n[j].content) by {
        assert(n[j] == tabs[j]);
        if p(tabs[j].content) {
            assert(exists|i: int| 0 <= i < tabs.len() && p(#[trigger] tabs[i].content));
        }
    }
    assert(forall|j: int| 0 <= j < tabs.len() ==> !p(#[trigger] n[j].content));
    assert(c == tabs.len());
}

} // verus!
