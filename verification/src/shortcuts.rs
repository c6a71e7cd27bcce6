//! Keyboard shortcuts: the actions, their key combinations, the defaults.
use vstd::prelude::*;
use crate::text::{chars_of, push_all, str_eq, string_from_chars};

verus! {

/// An action a keyboard shortcut can trigger.
#[derive(Clone, Copy, PartialEq, Eq, Structural, Hash, Debug)]
pub enum ShortcutAction {
    OpenFile,
    NewTab,
    CloseTab,
    Quit,
    Reload,
    ZoomIn,
    ZoomOut,
    FitPage,
    ActualSize,
    FitWidth,
    NextPage,
    PrevPage,
    FirstPage,
    LastPage,
    ScrollDown,
    ScrollUp,
    HighlightSel,
    AddBookmark,
    ToggleSidebar,
    ToggleUI,
    Copy,
    ToggleAutoPlay,
    ToggleMoYu,
}

/// The label of an action.
pub open spec fn action_label(a: ShortcutAction) -> Seq<char> {
    match a {
        ShortcutAction::OpenFile => "Open File"@,
        ShortcutAction::NewTab => "New Tab"@,
        ShortcutAction::CloseTab => "Close Tab"@,
        ShortcutAction::Quit => "Quit"@,
        ShortcutAction::Reload => "Reload"@,
        ShortcutAction::ZoomIn => "Zoom In"@,
        ShortcutAction::ZoomOut => "Zoom Out"@,
        ShortcutAction::FitPage => "Fit Page"@,
        ShortcutAction::ActualSize => "Actual Size"@,
        ShortcutAction::FitWidth => "Fit Width"@,
        ShortcutAction::NextPage => "Next Page"@,
        ShortcutAction::PrevPage => "Prev Page"@,
        ShortcutAction::FirstPage => "First Page"@,
        ShortcutAction::LastPage => "Last Page"@,
        ShortcutAction::ScrollDown => "Scroll Down"@,
        ShortcutAction::ScrollUp => "Scroll Up"@,
        ShortcutAction::HighlightSel => "Highlight Selection"@,
        ShortcutAction::AddBookmark => "Add Bookmark"@,
        ShortcutAction::ToggleSidebar => "Toggle Sidebar"@,
        ShortcutAction::ToggleUI => "Toggle UI"@,
        ShortcutAction::Copy => "Copy"@,
        ShortcutAction::ToggleAutoPlay => "Toggle Auto Play"@,
        ShortcutAction::ToggleMoYu => "Toggle Mo Yu"@,
    }
}

impl ShortcutAction {
    /// The label shown for this action.
    pub fn label(&self) -> (r: &'static str)
        ensures
            r@ == action_label(*self),
    {
        match self {
            ShortcutAction::OpenFile => "Open File",
            ShortcutAction::NewTab => "New Tab",
            ShortcutAction::CloseTab => "Close Tab",
            ShortcutAction::Quit => "Quit",
            ShortcutAction::Reload => "Reload",
            ShortcutAction::ZoomIn => "Zoom In",
            ShortcutAction::ZoomOut => "Zoom Out",
            ShortcutAction::FitPage => "Fit Page",
            ShortcutAction::ActualSize => "Actual Size",
            ShortcutAction::FitWidth => "Fit Width",
            ShortcutAction::NextPage => "Next Page",
            ShortcutAction::PrevPage => "Prev Page",
            ShortcutAction::FirstPage => "First Page",
            ShortcutAction::LastPage => "Last Page",
            ShortcutAction::ScrollDown => "Scroll Down",
            ShortcutAction::ScrollUp => "Scroll Up",
            ShortcutAction::HighlightSel => "Highlight Selection",
            ShortcutAction::AddBookmark => "Add Bookmark",
            ShortcutAction::ToggleSidebar => "Toggle Sidebar",
            ShortcutAction::ToggleUI => "Toggle UI",
            ShortcutAction::Copy => "Copy",
            ShortcutAction::ToggleAutoPlay => "Toggle Auto Play",
            ShortcutAction::ToggleMoYu => "Toggle Mo Yu",
        }
    }
}

/// Every action, in the order the settings list them.
pub open spec fn all_actions_v() -> Seq<ShortcutAction> {
    seq![ShortcutAction::OpenFile, ShortcutAction::NewTab, ShortcutAction::CloseTab, ShortcutAction::Quit, ShortcutAction::Reload, ShortcutAction::ZoomIn, ShortcutAction::ZoomOut, ShortcutAction::FitPage, ShortcutAction::ActualSize, ShortcutAction::FitWidth, ShortcutAction::NextPage, ShortcutAction::PrevPage, ShortcutAction::FirstPage, ShortcutAction::LastPage, ShortcutAction::ScrollDown, ShortcutAction::ScrollUp, ShortcutAction::HighlightSel, ShortcutAction::AddBookmark, ShortcutAction::ToggleSidebar, ShortcutAction::ToggleUI, ShortcutAction::Copy, ShortcutAction::ToggleAutoPlay, ShortcutAction::ToggleMoYu]
}

pub fn all_actions() -> (v: Vec<ShortcutAction>)
    ensures
        v@ == all_actions_v(),
{
    let mut v: Vec<ShortcutAction> = Vec::new();
    v.push(ShortcutAction::OpenFile);
    v.push(ShortcutAction::NewTab);
    v.push(ShortcutAction::CloseTab);
    v.push(ShortcutAction::Quit);
    v.push(ShortcutAction::Reload);
    v.push(ShortcutAction::ZoomIn);
    v.push(ShortcutAction::ZoomOut);
    v.push(ShortcutAction::FitPage);
    v.push(ShortcutAction::ActualSize);
    v.push(ShortcutAction::FitWidth);
    v.push(ShortcutAction::NextPage);
    v.push(ShortcutAction::PrevPage);
    v.push(ShortcutAction::FirstPage);
    v.push(ShortcutAction::LastPage);
    v.push(ShortcutAction::ScrollDown);
    v.push(ShortcutAction::ScrollUp);
    v.push(ShortcutAction::HighlightSel);
    v.push(ShortcutAction::AddBookmark);
    v.push(ShortcutAction::ToggleSidebar);
    v.push(ShortcutAction::ToggleUI);
    v.push(ShortcutAction::Copy);
    v.push(ShortcutAction::ToggleAutoPlay);
    v.push(ShortcutAction::ToggleMoYu);
    assert(v@ =~= all_actions_v());
    v
}

/// The key names a shortcut can be bound to.
pub open spec fn available_keys_v() -> Seq<Seq<char>> {
    seq!["A"@, "B"@, "C"@, "D"@, "E"@, "F"@, "G"@, "H"@, "I"@, "J"@, "K"@, "L"@, "M"@, "N"@, "O"@, "P"@, "Q"@, "R"@, "S"@, "T"@, "U"@, "V"@, "W"@, "X"@, "Y"@, "Z"@, "Num0"@, "Num1"@, "Num2"@, "Num3"@, "Num4"@, "Num5"@, "Num6"@, "Num7"@, "Num8"@, "Num9"@, "F1"@, "F2"@, "F3"@, "F4"@, "F5"@, "F6"@, "F7"@, "F8"@, "F9"@, "F10"@, "F11"@, "F12"@, "Space"@, "ArrowLeft"@, "ArrowRight"@, "ArrowUp"@, "ArrowDown"@, "PageUp"@, "PageDown"@, "Home"@, "End"@, "Tab"@, "Minus"@, "Equals"@]
}

pub fn available_keys() -> (v: Vec<&'static str>)
    ensures
        v@.map_values(|k: &'static str| k@) == available_keys_v(),
{
    let mut v: Vec<&'static str> = Vec::new();
    v.push("A");
    v.push("B");
    v.push("C");
    v.push("D");
    v.push("E");
    v.push("F");
    v.push("G");
    v.push("H");
    v.push("I");
    v.push("J");
    v.push("K");
    v.push("L");
    v.push("M");
    v.push("N");
    v.push("O");
    v.push("P");
    v.push("Q");
    v.push("R");
    v.push("S");
    v.push("T");
    v.push("U");
    v.push("V");
    v.push("W");
    v.push("X");
    v.push("Y");
    v.push("Z");
    v.push("Num0");
    v.push("Num1");
    v.push("Num2");
    v.push("Num3");
    v.push("Num4");
    v.push("Num5");
    v.push("Num6");
    v.push("Num7");
    v.push("Num8");
    v.push("Num9");
    v.push("F1");
    v.push("F2");
    v.push("F3");
    v.push("F4");
    v.push("F5");
    v.push("F6");
    v.push("F7");
    v.push("F8");
    v.push("F9");
    v.push("F10");
    v.push("F11");
    v.push("F12");
    v.push("Space");
    v.push("ArrowLeft");
    v.push("ArrowRight");
    v.push("ArrowUp");
    v.push("ArrowDown");
    v.push("PageUp");
    v.push("PageDown");
    v.push("Home");
    v.push("End");
    v.push("Tab");
    v.push("Minus");
    v.push("Equals");
    assert(v@.map_values(|k: &'static str| k@) =~= available_keys_v());
    v
}

/// A key with its modifiers.
#[derive(Clone)]
pub struct KeyCombo {
    pub key: String,
    pub ctrl: bool,
    pub shift: bool,
    pub alt: bool,
}

/// A combination as (key, ctrl, shift, alt).
pub type KeyComboV = (Seq<char>, bool, bool, bool);

impl View for KeyCombo {
    type V = KeyComboV;

    open spec fn view(&self) -> KeyComboV {
        (self.key@, self.ctrl, self.shift, self.alt)
    }
}

impl PartialEq for KeyCombo {
    fn eq(&self, other: &Self) -> (r: bool) {
        self.key == other.key && self.ctrl == other.ctrl && self.shift == other.shift && self.alt
            == other.alt
    }
}

impl vstd::std_specs::cmp::PartialEqSpecImpl for KeyCombo {
    open spec fn obeys_eq_spec() -> bool {
        true
    }

    open spec fn eq_spec(&self, other: &Self) -> bool {
        self@ == other@
    }
}

/// The shown name of a key: arrows as arrow signs, `PageUp`/`PageDown`
/// as `PgUp`/`PgDn`, any other key as it is.
pub open spec fn key_label(k: Seq<char>) -> Seq<char> {
    if k == "ArrowLeft"@ {
        "←"@
    } else if k == "ArrowRight"@ {
        "→"@
    } else if k == "ArrowUp"@ {
        "↑"@
    } else if k == "ArrowDown"@ {
        "↓"@
    } else if k == "PageUp"@ {
        "PgUp"@
    } else if k == "PageDown"@ {
        "PgDn"@
    } else {
        k
    }
}

/// Parts joined with `+`.
pub open spec fn join_plus(ls: Seq<Seq<char>>) -> Seq<char>
    decreases ls.len(),
{
    if ls.len() == 0 {
        Seq::<char>::empty()
    } else if ls.len() == 1 {
        ls[0]
    } else {
        join_plus(ls.drop_last()) + seq!['+'] + ls.last()
    }
}

/// The modifiers shown, in the order Ctrl, Alt, Shift.
pub open spec fn modifier_parts(c: KeyComboV) -> Seq<Seq<char>> {
    let a = if c.1 {
        seq!["Ctrl"@]
    } else {
        Seq::empty()
    };
    let b = if c.3 {
        a.push("Alt"@)
    } else {
        a
    };
    if c.2 {
        b.push("Shift"@)
    } else {
        b
    }
}

/// How a combination is shown, such as `Ctrl+Shift+PgUp`.
pub open spec fn combo_display(c: KeyComboV) -> Seq<char> {
    join_plus(modifier_parts(c).push(key_label(c.0)))
}

fn push_part(out: &mut Vec<char>, parts: Ghost<Seq<Seq<char>>>, part: &str)
    requires
        old(out)@ == join_plus(parts@),
        parts@.len() > 0,
    ensures
        final(out)@ == join_plus(parts@.push(part@)),
{
    out.push('+');
    let c = chars_of(part);
    push_all(out, c.as_slice());
    assert(parts@.push(part@).drop_last() =~= parts@);
}

impl KeyCombo {
    /// The combination as shown: modifiers, then the key, joined by `+`.
    pub fn display(&self) -> (s: String)
        ensures
            s@ == combo_display(self@),
    {
        proof {
            reveal_strlit("Ctrl");
            reveal_strlit("Alt");
            reveal_strlit("Shift");
        }
        let label: &str = if str_eq(self.key.as_str(), "ArrowLeft") {
            "←"
        } else if str_eq(self.key.as_str(), "ArrowRight") {
            "→"
        } else if str_eq(self.key.as_str(), "ArrowUp") {
            "↑"
        } else if str_eq(self.key.as_str(), "ArrowDown") {
            "↓"
        } else if str_eq(self.key.as_str(), "PageUp") {
            "PgUp"
        } else if str_eq(self.key.as_str(), "PageDown") {
            "PgDn"
        } else {
            self.key.as_str()
        };
        assert(label@ == key_label(self.key@));
        let ghost mods = modifier_parts(self@);
        let mut out: Vec<char> = Vec::new();
        let ghost mut parts: Seq<Seq<char>> = Seq::empty();
        let mut any = false;
        if self.ctrl {
            let c = chars_of("Ctrl");
            push_all(&mut out, c.as_slice());
            proof {
                parts = seq!["Ctrl"@];
                assert(out@ =~= join_plus(parts));
            }
            any = true;
        }
        assert(any <==> parts.len() > 0);
        if self.alt {
            if !any {
                let c = chars_of("Alt");
                push_all(&mut out, c.as_slice());
                proof {
                    parts = seq!["Alt"@];
                    assert(out@ =~= join_plus(parts));
                }
                any = true;
            } else {
                push_part(&mut out, Ghost(parts), "Alt");
                proof {
                    parts = parts.push("Alt"@);
                }
            }
        }
        assert(any <==> parts.len() > 0);
        if self.shift {
            if !any {
                let c = chars_of("Shift");
                push_all(&mut out, c.as_slice());
                proof {
                    parts = seq!["Shift"@];
                    assert(out@ =~= join_plus(parts));
                }
                any = true;
            } else {
                push_part(&mut out, Ghost(parts), "Shift");
                proof {
                    parts = parts.push("Shift"@);
                }
            }
        }
        assert(any <==> parts.len() > 0);
        assert(parts =~= mods);
        if !any {
            let c = chars_of(label);
            push_all(&mut out, c.as_slice());
            assert(mods.push(label@) =~= seq![label@]);
            assert(out@ =~= join_plus(mods.push(label@)));
        } else {
            push_part(&mut out, Ghost(parts), label);
        }
        string_from_chars(out.as_slice())
    }
}

/// Shortcut bindings: at most one combination per action.
pub struct ShortcutMap {
    entries: Vec<(ShortcutAction, KeyCombo)>,
}

impl View for ShortcutMap {
    type V = Map<ShortcutAction, KeyComboV>;

    closed spec fn view(&self) -> Map<ShortcutAction, KeyComboV> {
        Map::new(
            |a: ShortcutAction| exists|k: int| 0 <= k < self.entries@.len() && #[trigger] self.entries@[k].0 == a,
            |a: ShortcutAction| {
                let k = choose|k: int| 0 <= k < self.entries@.len() && #[trigger] self.entries@[k].0 == a;
                self.entries@[k].1@
            },
        )
    }
}

impl ShortcutMap {
    pub closed spec fn wf(&self) -> bool {
        forall|a: int, b: int| 0 <= a < b < self.entries@.len() ==> self.entries@[a].0 != self.entries@[b].0
    }

    proof fn lemma_at(&self, k: int)
        requires
            self.wf(),
            0 <= k < self.entries@.len(),
        ensures
            self@.contains_key(self.entries@[k].0),
            self@[self.entries@[k].0] == self.entries@[k].1@,
    {
        let a = self.entries@[k].0;
        assert(self@.contains_key(a));
        let c = choose|c: int| 0 <= c < self.entries@.len() && #[trigger] self.entries@[c].0 == a;
        assert(c == k);
    }

    /// No bindings.
    pub fn new() -> (m: Self)
        ensures
            m.wf(),
            m@ == Map::<ShortcutAction, KeyComboV>::empty(),
    {
        let m = ShortcutMap { entries: Vec::new() };
        assert(m@ =~= Map::<ShortcutAction, KeyComboV>::empty());
        m
    }

    /// The number of bound actions.
    pub fn len(&self) -> (n: usize)
        requires
            self.wf(),
        ensures
            n == self@.len(),
    {
        proof {
            self.lemma_len();
        }
        self.entries.len()
    }

    proof fn lemma_len(&self)
        requires
            self.wf(),
        ensures
            self@.dom().finite(),
            self@.len() == self.entries@.len(),
        decreases self.entries@.len(),
    {
        let d = self@.dom();
        let s = self.entries@.map_values(|e: (ShortcutAction, KeyCombo)| e.0);
        assert forall|i: int, j: int| 0 <= i < j < s.len() implies s[i] != s[j] by {}
        assert(d =~= s.to_set()) by {
            assert forall|a: ShortcutAction| d.contains(a) implies s.contains(a) by {
                let k = choose|k: int| 0 <= k < self.entries@.len() && #[trigger] self.entries@[k].0 == a;
                assert(s[k] == a);
            }
            assert forall|a: ShortcutAction| s.contains(a) implies d.contains(a) by {
                let k = choose|k: int| 0 <= k < s.len() && s[k] == a;
                assert(self.entries@[k].0 == a);
            }
        }
        s.unique_seq_to_set();
    }

    fn index_of(&self, a: ShortcutAction) -> (out: Option<usize>)
        requires
            self.wf(),
        ensures
            out is None <==> !self@.contains_key(a),
            out matches Some(k) ==> k < self.entries@.len() && self.entries@[k as int].0 == a,
    {
        let mut k: usize = 0;
        while k < self.entries.len()
            invariant
                k <= self.entries@.len(),
                forall|j: int| 0 <= j < k ==> self.entries@[j].0 != a,
            decreases self.entries@.len() - k,
        {
            if self.entries[k].0 == a {
                return Some(k);
            }
            k += 1;
        }
        None
    }

    /// The combination bound to action `a`, if any.
    pub fn get(&self, a: &ShortcutAction) -> (out: Option<&KeyCombo>)
        requires
            self.wf(),
        ensures
            out is None <==> !self@.contains_key(*a),
            out matches Some(c) ==> c@ == self@[*a],
    {
        match self.index_of(*a) {
            Some(k) => {
                proof {
                    self.lemma_at(k as int);
                }
                Some(&self.entries[k].1)
            },
            None => None,
        }
    }

    /// Binds action `a` to combination `c`, replacing any earlier binding.
    pub fn insert(&mut self, a: ShortcutAction, c: KeyCombo)
        requires
            old(self).wf(),
        ensures
            final(self).wf(),
            final(self)@ == old(self)@.insert(a, c@),
    {
        let ghost oldm = self@;
        let ghost olde = self.entries@;
        let ghost cv = c@;
        match self.index_of(a) {
            Some(k) => {
                self.entries.set(k, (a, c));
                assert forall|x: int, y: int| 0 <= x < y < self.entries@.len() implies self.entries@[x].0 != self.entries@[y].0 by {
                    assert(olde[x].0 != olde[y].0);
                }
                assert forall|b: ShortcutAction| self@.contains_key(b) == oldm.insert(a, cv).contains_key(b) by {
                    if self@.contains_key(b) {
                        let j = choose|j: int| 0 <= j < self.entries@.len() && #[trigger] self.entries@[j].0 == b;
                        assert(olde[j].0 == b);
                    }
                    if oldm.contains_key(b) {
                        let j = choose|j: int| 0 <= j < olde.len() && #[trigger] olde[j].0 == b;
                        assert(self.entries@[j].0 == b);
                    }
                    if b == a {
                        assert(self.entries@[k as int].0 == b);
                    }
                }
                assert forall|b: ShortcutAction| #[trigger] self@.contains_key(b) implies self@[b] == oldm.insert(a, cv)[b] by {
                    let j = choose|j: int| 0 <= j < self.entries@.len() && #[trigger] self.entries@[j].0 == b;
                    self.lemma_at(j);
                    if b != a {
                        let j0 = choose|j0: int| 0 <= j0 < olde.len() && #[trigger] olde[j0].0 == b;
                        assert(j0 == j) by {
                            if j0 != j {
                                assert(self.entries@[j0].0 == b);
                            }
                        }
                        assert(oldm[b] == olde[j].1@) by {
                            let c0 = choose|c0: int| 0 <= c0 < olde.len() && #[trigger] olde[c0].0 == b;
                        }
                    }
                }
                assert(self@ =~= oldm.insert(a, cv));
            },
            None => {
                self.entries.push((a, c));
                let ghost n = olde.len() as int;
                assert forall|x: int, y: int| 0 <= x < y < self.entries@.len() implies self.entries@[x].0 != self.entries@[y].0 by {
                    if y == n {
                        if olde[x].0 == a {
                            assert(oldm.contains_key(a));
                        }
                    }
                }
                assert forall|b: ShortcutAction| self@.contains_key(b) == oldm.insert(a, cv).contains_key(b) by {
                    if self@.contains_key(b) {
                        let j = choose|j: int| 0 <= j < self.entries@.len() && #[trigger] self.entries@[j].0 == b;
                        if j < n {
                            assert(olde[j].0 == b);
                        }
                    }
                    if oldm.contains_key(b) {
                        let j = choose|j: int| 0 <= j < olde.len() && #[trigger] olde[j].0 == b;
                        assert(self.entries@[j].0 == b);
                    }
                    if b == a {
                        assert(self.entries@[n].0 == b);
                    }
                }
                assert forall|b: ShortcutAction| #[trigger] self@.contains_key(b) implies self@[b] == oldm.insert(a, cv)[b] by {
                    let j = choose|j: int| 0 <= j < self.entries@.len() && #[trigger] self.entries@[j].0 == b;
                    self.lemma_at(j);
                    if b != a {
                        assert(j < n);
                        let j0 = choose|j0: int| 0 <= j0 < olde.len() && #[trigger] olde[j0].0 == b;
                        assert(self.entries@[j0].0 == b);
                        assert(j0 == j) by {
                            if j0 != j {
                                if j0 < j {
                                    assert(self.entries@[j0].0 != self.entries@[j].0);
                                } else {
                                    assert(self.entries@[j].0 != self.entries@[j0].0);
                                }
                            }
                        }
                    }
                }
                assert(self@ =~= oldm.insert(a, cv));
            },
        }
    }
}

/// The default bindings.
pub open spec fn default_map() -> Map<ShortcutAction, KeyComboV> {
    map![
        ShortcutAction::OpenFile => ("O"@, true, false, false),
        ShortcutAction::NewTab => ("T"@, true, false, false),
        ShortcutAction::CloseTab => ("W"@, true, false, false),
        ShortcutAction::Quit => ("Q"@, true, false, false),
        ShortcutAction::Reload => ("F5"@, false, false, false),
        ShortcutAction::ZoomIn => ("Equals"@, true, false, false),
        ShortcutAction::ZoomOut => ("Minus"@, true, false, false),
        ShortcutAction::FitPage => ("Num0"@, true, false, false),
        ShortcutAction::ActualSize => ("Num1"@, true, false, false),
        ShortcutAction::FitWidth => ("Num2"@, true, false, false),
        ShortcutAction::NextPage => ("ArrowRight"@, false, false, false),
        ShortcutAction::PrevPage => ("ArrowLeft"@, false, false, false),
        ShortcutAction::FirstPage => ("Home"@, false, false, false),
        ShortcutAction::LastPage => ("End"@, false, false, false),
        ShortcutAction::ScrollDown => ("ArrowDown"@, false, false, false),
        ShortcutAction::ScrollUp => ("ArrowUp"@, false, false, false),
        ShortcutAction::ToggleAutoPlay => ("Space"@, false, false, false),
        ShortcutAction::HighlightSel => ("A"@, false, false, false),
        ShortcutAction::AddBookmark => ("B"@, true, false, false),
        ShortcutAction::ToggleSidebar => ("F12"@, false, false, false),
        ShortcutAction::ToggleUI => ("Tab"@, false, false, false),
        ShortcutAction::Copy => ("C"@, true, false, false),
        ShortcutAction::ToggleMoYu => ("M"@, false, false, false)
    ]
}

/// The default shortcut bindings.
pub fn default_shortcuts() -> (m: ShortcutMap)
    ensures
        m.wf(),
        m@ == default_map(),
{
    let mut m = ShortcutMap::new();
    m.insert(ShortcutAction::OpenFile, KeyCombo { key: String::from_str("O"), ctrl: true, shift: false, alt: false });
    m.insert(ShortcutAction::NewTab, KeyCombo { key: String::from_str("T"), ctrl: true, shift: false, alt: false });
    m.insert(ShortcutAction::CloseTab, KeyCombo { key: String::from_str("W"), ctrl: true, shift: false, alt: false });
    m.insert(ShortcutAction::Quit, KeyCombo { key: String::from_str("Q"), ctrl: true, shift: false, alt: false });
    m.insert(ShortcutAction::Reload, KeyCombo { key: String::from_str("F5"), ctrl: false, shift: false, alt: false });
    m.insert(ShortcutAction::ZoomIn, KeyCombo { key: String::from_str("Equals"), ctrl: true, shift: false, alt: false });
    m.insert(ShortcutAction::ZoomOut, KeyCombo { key: String::from_str("Minus"), ctrl: true, shift: false, alt: false });
    m.insert(ShortcutAction::FitPage, KeyCombo { key: String::from_str("Num0"), ctrl: true, shift: false, alt: false });
    m.insert(ShortcutAction::ActualSize, KeyCombo { key: String::from_str("Num1"), ctrl: true, shift: false, alt: false });
    m.insert(ShortcutAction::FitWidth, KeyCombo { key: String::from_str("Num2"), ctrl: true, shift: false, alt: false });
    m.insert(ShortcutAction::NextPage, KeyCombo { key: String::from_str("ArrowRight"), ctrl: false, shift: false, alt: false });
    m.insert(ShortcutAction::PrevPage, KeyCombo { key: String::from_str("ArrowLeft"), ctrl: false, shift: false, alt: false });
    m.insert(ShortcutAction::FirstPage, KeyCombo { key: String::from_str("Home"), ctrl: false, shift: false, alt: false });
    m.insert(ShortcutAction::LastPage, KeyCombo { key: String::from_str("End"), ctrl: false, shift: false, alt: false });
    m.insert(ShortcutAction::ScrollDown, KeyCombo { key: String::from_str("ArrowDown"), ctrl: false, shift: false, alt: false });
    m.insert(ShortcutAction::ScrollUp, KeyCombo { key: String::from_str("ArrowUp"), ctrl: false, shift: false, alt: false });
    m.insert(ShortcutAction::ToggleAutoPlay, KeyCombo { key: String::from_str("Space"), ctrl: false, shift: false, alt: false });
    m.insert(ShortcutAction::HighlightSel, KeyCombo { key: String::from_str("A"), ctrl: false, shift: false, alt: false });
    m.insert(ShortcutAction::AddBookmark, KeyCombo { key: String::from_str("B"), ctrl: true, shift: false, alt: false });
    m.insert(ShortcutAction::ToggleSidebar, KeyCombo { key: String::from_str("F12"), ctrl: false, shift: false, alt: false });
    m.insert(ShortcutAction::ToggleUI, KeyCombo { key: String::from_str("Tab"), ctrl: false, shift: false, alt: false });
    m.insert(ShortcutAction::Copy, KeyCombo { key: String::from_str("C"), ctrl: true, shift: false, alt: false });
    m.insert(ShortcutAction::ToggleMoYu, KeyCombo { key: String::from_str("M"), ctrl: false, shift: false, alt: false });
    assert(m@ =~= default_map());
    m
}

} // verus!
