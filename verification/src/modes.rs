//! Reading modes and the plain state that goes with them: view options,
//! search state, bookmarks, vocabulary and saved sentences.
use vstd::prelude::*;
use crate::i18n::{tr, translated};
use crate::text::{chars_of, str_eq, string_from_chars, trim, trim_chars};
use std::collections::HashMap;

verus! {

/// How a page is shown.
#[derive(Clone, Copy, PartialEq, Eq, Structural, Debug)]
pub enum ViewMode {
    Text,
    Image,
}

/// Page by page, or one scrolled stream.
#[derive(Clone, Copy, PartialEq, Eq, Structural, Debug)]
pub enum ReadingLayout {
    Paged,
    Scroll,
}

/// How a page is scaled into the view.
#[derive(Clone, Copy, PartialEq, Eq, Structural, Debug)]
pub enum FitMode {
    Free,
    FitWidth,
    FitPage,
}

/// A page's rotation.
#[derive(Clone, Copy, PartialEq, Eq, Structural, Debug)]
pub enum ViewRotation {
    Deg0,
    Deg90,
    Deg180,
    Deg270,
}

/// The search box: the query, whether it is shown, the pages that match,
/// the current match and the highlighted words of each page.
pub struct SearchState {
    pub query: String,
    pub show_search: bool,
    pub matches: Vec<usize>,
    pub current_match: usize,
    pub page_highlights: HashMap<usize, Vec<usize>>,
}

impl SearchState {
    /// An empty, hidden search.
    pub fn new() -> (s: Self)
        ensures
            s.query@.len() == 0,
            !s.show_search,
            s.matches@.len() == 0,
            s.current_match == 0,
            s.page_highlights@ == Map::<usize, Vec<usize>>::empty(),
    {
        SearchState {
            query: String::new(),
            show_search: false,
            matches: Vec::new(),
            current_match: 0,
            page_highlights: HashMap::new(),
        }
    }
}

/// A bookmark: a page and its label.
pub struct Bookmark {
    pub page: usize,
    pub label: String,
}

/// A saved word with where it was read.
pub struct Vocabulary {
    pub id: String,
    pub word: String,
    pub context_sentence: Option<String>,
    pub definition: Option<String>,
    pub page: usize,
}

/// A saved sentence.
pub struct Sentence_ {
    pub id: String,
    pub text: String,
    pub page: usize,
}

/// The panels of the sidebar.
#[derive(Clone, Copy, PartialEq, Eq, Structural, Debug)]
pub enum SidebarSection {
    TOC,
    Search,
    Bookmarks,
    Vocab,
    Sentences,
    Magnifier,
}

/// The vocabulary panel: the add dialog, the saved words and sentences,
/// and whether each list has unsaved changes.
pub struct VocabState {
    pub show_add_vocab_dialog: bool,
    pub add_vocab_text: String,
    pub vocab: Vec<Vocabulary>,
    pub vocab_dirty: bool,
    pub sentences: Vec<Sentence_>,
    pub sentences_dirty: bool,
}

/// The page editing mode holds no state of its own.
pub struct PageEditState;

/// The modes a tab can be in.
#[derive(Clone, Copy, PartialEq, Eq, Structural, Debug)]
pub enum ModeKind {
    LightReading,
    DeepReading,
    PageEdit,
    ContentEdit,
}

/// The untranslated name of a mode.
pub open spec fn mode_key(m: ModeKind) -> Seq<char> {
    match m {
        ModeKind::LightReading => "Basic"@,
        ModeKind::DeepReading => "Annotate"@,
        ModeKind::PageEdit => "Page Edit"@,
        ModeKind::ContentEdit => "Content"@,
    }
}

impl ModeKind {
    /// The mode's name in language `lang`.
    pub fn name(&self, lang: &str) -> (s: &'static str)
        ensures
            s@ == translated(lang@, mode_key(*self)),
    {
        let key = match self {
            ModeKind::LightReading => "Basic",
            ModeKind::DeepReading => "Annotate",
            ModeKind::PageEdit => "Page Edit",
            ModeKind::ContentEdit => "Content",
        };
        tr(lang, key)
    }
}

/// A rotation in degrees.
pub open spec fn degrees(r: ViewRotation) -> int {
    match r {
        ViewRotation::Deg0 => 0,
        ViewRotation::Deg90 => 90,
        ViewRotation::Deg180 => 180,
        ViewRotation::Deg270 => 270,
    }
}

impl ViewRotation {
    /// A quarter turn clockwise.
    pub fn turned_right(&self) -> (r: ViewRotation)
        ensures
            degrees(r) == (degrees(*self) + 90) % 360,
    {
        match self {
            ViewRotation::Deg0 => ViewRotation::Deg90,
            ViewRotation::Deg90 => ViewRotation::Deg180,
            ViewRotation::Deg180 => ViewRotation::Deg270,
            ViewRotation::Deg270 => ViewRotation::Deg0,
        }
    }

    /// A quarter turn anticlockwise.
    pub fn turned_left(&self) -> (r: ViewRotation)
        ensures
            degrees(r) == (degrees(*self) + 270) % 360,
    {
        match self {
            ViewRotation::Deg0 => ViewRotation::Deg270,
            ViewRotation::Deg90 => ViewRotation::Deg0,
            ViewRotation::Deg180 => ViewRotation::Deg90,
            ViewRotation::Deg270 => ViewRotation::Deg180,
        }
    }
}

/// Turning right, then left, comes back to the same rotation; four turns
/// to the right make a full turn.
pub proof fn lemma_turns_undo(r: ViewRotation)
    ensures
        degrees(r) == (((degrees(r) + 90) % 360) + 270) % 360,
        degrees(r) == ((((degrees(r) + 90) % 360 + 90) % 360 + 90) % 360 + 90) % 360,
{
}

impl FitMode {
    /// The fit a fit button leaves: `target`, or free scaling when
    /// `target` was already on.
    pub fn toggled(&self, target: FitMode) -> (f: FitMode)
        ensures
            f == if *self == target {
                FitMode::Free
            } else {
                target
            },
    {
        if *self == target {
            FitMode::Free
        } else {
            target
        }
    }
}

/// The modes offered for a document of fixed pages (reading, annotating,
/// page editing) or for a reflowable one (reading, annotating, content
/// editing).
pub open spec fn suits(m: ModeKind, fixed: bool) -> bool {
    match m {
        ModeKind::LightReading => true,
        ModeKind::DeepReading => true,
        ModeKind::PageEdit => fixed,
        ModeKind::ContentEdit => !fixed,
    }
}

impl ModeKind {
    /// Whether the mode is offered for the document.
    pub fn suits(&self, fixed: bool) -> (b: bool)
        ensures
            b == suits(*self, fixed),
    {
        match self {
            ModeKind::LightReading => true,
            ModeKind::DeepReading => true,
            ModeKind::PageEdit => fixed,
            ModeKind::ContentEdit => !fixed,
        }
    }

    /// The mode a tab shows for its document: the active one when it is
    /// offered, else light reading.
    pub fn for_document(&self, fixed: bool) -> (m: ModeKind)
        ensures
            m == if suits(*self, fixed) {
                *self
            } else {
                ModeKind::LightReading
            },
            suits(m, fixed),
    {
        if self.suits(fixed) {
            *self
        } else {
            ModeKind::LightReading
        }
    }

    /// The mode a number key picks: `1` (or `!`) light reading, `2` (or
    /// `@`) annotating, `3` (or `#`) the editing mode of the document.
    pub fn for_key(key: &str, fixed: bool) -> (m: Option<ModeKind>)
        ensures
            m == if key@ == "1"@ || key@ == "!"@ {
                Some(ModeKind::LightReading)
            } else if key@ == "2"@ || key@ == "@"@ {
                Some(ModeKind::DeepReading)
            } else if key@ == "3"@ || key@ == "#"@ {
                Some(if fixed {
                    ModeKind::PageEdit
                } else {
                    ModeKind::ContentEdit
                })
            } else {
                None
            },
    {
        if str_eq(key, "1") || str_eq(key, "!") {
            Some(ModeKind::LightReading)
        } else if str_eq(key, "2") || str_eq(key, "@") {
            Some(ModeKind::DeepReading)
        } else if str_eq(key, "3") || str_eq(key, "#") {
            Some(
                if fixed {
                    ModeKind::PageEdit
                } else {
                    ModeKind::ContentEdit
                },
            )
        } else {
            None
        }
    }
}

/// Words as plain values: word, page.
pub open spec fn vocab_v(v: Seq<Vocabulary>) -> Seq<(Seq<char>, Seq<char>, usize)> {
    v.map_values(|w: Vocabulary| (w.id@, w.word@, w.page))
}

impl VocabState {
    /// Saves the word being typed (trimmed) on page `page` under `id`,
    /// unless it is blank; the dialog closes and its text is cleared.
    pub fn save_word(&mut self, id: String, page: usize)
        ensures
            vocab_v(final(self).vocab@) == if trim(old(self).add_vocab_text@).len() == 0 {
                vocab_v(old(self).vocab@)
            } else {
                vocab_v(old(self).vocab@).push((id@, trim(old(self).add_vocab_text@), page))
            },
            trim(old(self).add_vocab_text@).len() > 0 ==> final(self).vocab@.last().context_sentence is None
                && final(self).vocab@.last().definition is None,
            final(self).vocab_dirty == (old(self).vocab_dirty || trim(old(self).add_vocab_text@).len() > 0),
            !final(self).show_add_vocab_dialog,
            final(self).add_vocab_text@.len() == 0,
            final(self).sentences@ == old(self).sentences@,
            final(self).sentences_dirty == old(self).sentences_dirty,
    {
        let text = trim_chars(chars_of(self.add_vocab_text.as_str()).as_slice());
        if text.len() > 0 {
            let ghost before = vocab_v(self.vocab@);
            let w = Vocabulary {
                id,
                word: string_from_chars(text.as_slice()),
                context_sentence: None,
                definition: None,
                page,
            };
            self.vocab.push(w);
            self.vocab_dirty = true;
            assert(vocab_v(self.vocab@) =~= before.push((id@, text@, page)));
        }
        self.show_add_vocab_dialog = false;
        self.add_vocab_text = String::new();
    }

    /// Removes word `idx` and marks the words changed.
    pub fn remove_word(&mut self, idx: usize)
        requires
            idx < old(self).vocab@.len(),
        ensures
            vocab_v(final(self).vocab@) == vocab_v(old(self).vocab@).remove(idx as int),
            final(self).vocab_dirty,
            final(self).sentences@ == old(self).sentences@,
            final(self).add_vocab_text@ == old(self).add_vocab_text@,
    {
        let ghost before = self.vocab@;
        self.vocab.remove(idx);
        self.vocab_dirty = true;
        assert(vocab_v(self.vocab@) =~= vocab_v(before).remove(idx as int));
    }
}

/// Where `x` first stands in `s` (when it does).
pub open spec fn first_index(s: Seq<usize>, x: usize) -> int {
    choose|k: int| 0 <= k < s.len() && s[k] == x && forall|j: int| 0 <= j < k ==> s[j] != x
}

/// The selected words after a shift-click on word `idx` of page `page`:
/// on the page of the selection the word is taken out when selected and
/// added at the end when not; on another page it alone is selected.
pub open spec fn toggled_words(sel: Seq<usize>, sel_page: usize, page: usize, idx: usize) -> Seq<usize> {
    if sel_page != page {
        seq![idx]
    } else if sel.contains(idx) {
        sel.remove(first_index(sel, idx))
    } else {
        sel.push(idx)
    }
}

/// Shift-click on word `idx` of page `page` (see `toggled_words`); the
/// selection's page becomes `page`.
pub fn toggle_word(sel: &mut Vec<usize>, sel_page: &mut usize, page: usize, idx: usize)
    ensures
        final(sel)@ == toggled_words(old(sel)@, *old(sel_page), page, idx),
        *final(sel_page) == page,
{
    if *sel_page != page {
        *sel = vec![idx];
        *sel_page = page;
        return;
    }
    let mut k: usize = 0;
    while k < sel.len()
        invariant
            k <= sel@.len(),
            sel@ == old(sel)@,
            *old(sel_page) == page,
            *sel_page == page,
            forall|j: int| 0 <= j < k ==> sel@[j] != idx,
        decreases sel@.len() - k,
    {
        if sel[k] == idx {
            proof {
                assert(sel@.contains(idx));
                assert(0 <= k < sel@.len() && sel@[k as int] == idx && forall|j: int| 0 <= j < k ==> sel@[j] != idx);
                let f = first_index(sel@, idx);
                assert(f == k) by {
                    if f < k {
                        assert(sel@[f] != idx);
                    } else if f > k {
                        assert(sel@[k as int] != idx);
                    }
                }
            }
            sel.remove(k);
            return;
        }
        k += 1;
    }
    assert(!sel@.contains(idx));
    sel.push(idx);
}

} // verus!
