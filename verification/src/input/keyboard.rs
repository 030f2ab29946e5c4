//! Keyboard shortcuts: the actions that can be bound to keys, their names,
//! descriptions and default bindings, and the table of current bindings.

use crate::text::push_str;
use vstd::prelude::*;

verus! {

/// The message of the error `KeySeq::from_str` gives for `text`, or none
/// when `text` is a valid key sequence.
pub uninterp spec fn key_sequence_error(text: Seq<char>) -> Option<Seq<char>>;

/// `keybinds::KeySeq::from_str`: whether `text` is a valid key sequence,
/// and the error's message (its `Display`) when it is not.
#[verifier::external_body]
fn parse_key_sequence(text: &str) -> (r: Result<(), String>)
    ensures
        match r {
            Ok(()) => key_sequence_error(text@) is None,
            Err(m) => key_sequence_error(text@) == Some(m@),
        },
{
    match text.parse::<keybinds::KeySeq>() {
        Ok(_) => Ok(()),
        Err(e) => Err(format!("{e}")),
    }
}

/// Keyboard shortcut actions that can be rebound
#[derive(Clone, Copy, Debug, PartialEq, Eq, Hash, Structural)]
pub enum ShortcutAction {
    MoveUp,
    MoveDown,
    ToggleBookmark,
    FocusSearch,
    NewFilterTab,
    NewBookmarksTab,
    CloseTab,
    JumpToTop,
    JumpToBottom,
    PageUp,
    PageDown,
    OpenFile,
    FocusPaneLeft,
    FocusPaneDown,
    FocusPaneUp,
    FocusPaneRight,
    CycleTab,
    ReverseCycleTab,
    RenameFilter,
}

/// Every shortcut action, in the order in which they are listed.
pub open spec fn all_actions() -> Seq<ShortcutAction> {
    seq![ShortcutAction::MoveUp, ShortcutAction::MoveDown, ShortcutAction::ToggleBookmark, ShortcutAction::FocusSearch, ShortcutAction::NewFilterTab, ShortcutAction::NewBookmarksTab, ShortcutAction::CloseTab, ShortcutAction::JumpToTop, ShortcutAction::JumpToBottom, ShortcutAction::PageUp, ShortcutAction::PageDown, ShortcutAction::OpenFile, ShortcutAction::FocusPaneLeft, ShortcutAction::FocusPaneDown, ShortcutAction::FocusPaneUp, ShortcutAction::FocusPaneRight, ShortcutAction::CycleTab, ShortcutAction::ReverseCycleTab, ShortcutAction::RenameFilter]
}

impl ShortcutAction {
    /// The display name of the action.
    pub open spec fn action_name(self) -> Seq<char> {
        match self {
            ShortcutAction::MoveUp => "Move Selection Up"@,
            ShortcutAction::MoveDown => "Move Selection Down"@,
            ShortcutAction::ToggleBookmark => "Toggle Bookmark"@,
            ShortcutAction::FocusSearch => "Focus Search Input"@,
            ShortcutAction::NewFilterTab => "New Filter Tab"@,
            ShortcutAction::NewBookmarksTab => "New Bookmarks Tab"@,
            ShortcutAction::CloseTab => "Close Current Tab"@,
            ShortcutAction::JumpToTop => "Jump to Top"@,
            ShortcutAction::JumpToBottom => "Jump to Bottom"@,
            ShortcutAction::PageUp => "Page Up"@,
            ShortcutAction::PageDown => "Page Down"@,
            ShortcutAction::OpenFile => "Open File"@,
            ShortcutAction::FocusPaneLeft => "Focus Pane Left"@,
            ShortcutAction::FocusPaneDown => "Focus Pane Down"@,
            ShortcutAction::FocusPaneUp => "Focus Pane Up"@,
            ShortcutAction::FocusPaneRight => "Focus Pane Right"@,
            ShortcutAction::CycleTab => "Cycle to Next Tab"@,
            ShortcutAction::ReverseCycleTab => "Cycle to Previous Tab"@,
            ShortcutAction::RenameFilter => "Rename Filter"@,
        }
    }

    /// The help text of the action.
    pub open spec fn action_description(self) -> Seq<char> {
        match self {
            ShortcutAction::MoveUp => "Move to the previous log line in the active view"@,
            ShortcutAction::MoveDown => "Move to the next log line in the active view"@,
            ShortcutAction::ToggleBookmark => "Add or remove a bookmark on the selected line"@,
            ShortcutAction::FocusSearch => "Jump to the search input field (filter tabs only). Press Enter to return focus to logs."@,
            ShortcutAction::NewFilterTab => "Create a new filter tab with search focused"@,
            ShortcutAction::NewBookmarksTab => "Create a new bookmarks tab next to the current tab"@,
            ShortcutAction::CloseTab => "Close the currently active tab"@,
            ShortcutAction::JumpToTop => "Jump to the first log line (Vim-style: gg)"@,
            ShortcutAction::JumpToBottom => "Jump to the last log line (Vim-style: Shift+G)"@,
            ShortcutAction::PageUp => "Jump up by one page of log lines"@,
            ShortcutAction::PageDown => "Jump down by one page of log lines"@,
            ShortcutAction::OpenFile => "Open a file dialog to load a new log file"@,
            ShortcutAction::FocusPaneLeft => "Move focus to the pane on the left (Vim-style: Shift+H)"@,
            ShortcutAction::FocusPaneDown => "Move focus to the pane below (Vim-style: Shift+J)"@,
            ShortcutAction::FocusPaneUp => "Move focus to the pane above (Vim-style: Shift+K)"@,
            ShortcutAction::FocusPaneRight => "Move focus to the pane on the right (Vim-style: Shift+L)"@,
            ShortcutAction::CycleTab => "Cycle to the next tab in the active pane"@,
            ShortcutAction::ReverseCycleTab => "Cycle to the previous tab in the active pane"@,
            ShortcutAction::RenameFilter => "Open rename dialog for the current filter tab"@,
        }
    }

    /// The key sequence bound to the action by default.
    pub open spec fn action_default_binding(self) -> Seq<char> {
        match self {
            ShortcutAction::MoveUp => "k"@,
            ShortcutAction::MoveDown => "j"@,
            ShortcutAction::ToggleBookmark => "Space"@,
            ShortcutAction::FocusSearch => "Ctrl+l"@,
            ShortcutAction::NewFilterTab => "Ctrl+t"@,
            ShortcutAction::NewBookmarksTab => "Ctrl+b"@,
            ShortcutAction::CloseTab => "Ctrl+w"@,
            ShortcutAction::JumpToTop => "g g"@,
            ShortcutAction::JumpToBottom => "G"@,
            ShortcutAction::PageUp => "PageUp"@,
            ShortcutAction::PageDown => "PageDown"@,
            ShortcutAction::OpenFile => "Ctrl+o"@,
            ShortcutAction::FocusPaneLeft => "H"@,
            ShortcutAction::FocusPaneDown => "J"@,
            ShortcutAction::FocusPaneUp => "K"@,
            ShortcutAction::FocusPaneRight => "L"@,
            ShortcutAction::CycleTab => "Ctrl+Tab"@,
            ShortcutAction::ReverseCycleTab => "Ctrl+Shift+Tab"@,
            ShortcutAction::RenameFilter => "\u{E002}"@,
        }
    }

    /// No two actions share a default key sequence.
    #[verifier::rlimit(50)]
    pub proof fn lemma_default_bindings_distinct(a: ShortcutAction, b: ShortcutAction)
        requires
            a != b,
        ensures
            a.action_default_binding() != b.action_default_binding(),
    {
        reveal_strlit("k");
        reveal_strlit("j");
        reveal_strlit("Space");
        reveal_strlit("Ctrl+l");
        reveal_strlit("Ctrl+t");
        reveal_strlit("Ctrl+b");
        reveal_strlit("Ctrl+w");
        reveal_strlit("g g");
        reveal_strlit("G");
        reveal_strlit("PageUp");
        reveal_strlit("PageDown");
        reveal_strlit("Ctrl+o");
        reveal_strlit("H");
        reveal_strlit("J");
        reveal_strlit("K");
        reveal_strlit("L");
        reveal_strlit("Ctrl+Tab");
        reveal_strlit("Ctrl+Shift+Tab");
        reveal_strlit("\u{E002}");
        let x = a.action_default_binding();
        let y = b.action_default_binding();
        assert(x.len() != y.len() || x[0] != y[0] || x[x.len() - 1] != y[y.len() - 1]);
    }

    /// Get all shortcut actions
    pub fn all() -> (r: &'static [ShortcutAction])
        ensures
            r@ == all_actions(),
    {
        let r: &'static [ShortcutAction] = &[
            ShortcutAction::MoveUp,
            ShortcutAction::MoveDown,
            ShortcutAction::ToggleBookmark,
            ShortcutAction::FocusSearch,
            ShortcutAction::NewFilterTab,
            ShortcutAction::NewBookmarksTab,
            ShortcutAction::CloseTab,
            ShortcutAction::JumpToTop,
            ShortcutAction::JumpToBottom,
            ShortcutAction::PageUp,
            ShortcutAction::PageDown,
            ShortcutAction::OpenFile,
            ShortcutAction::FocusPaneLeft,
            ShortcutAction::FocusPaneDown,
            ShortcutAction::FocusPaneUp,
            ShortcutAction::FocusPaneRight,
            ShortcutAction::CycleTab,
            ShortcutAction::ReverseCycleTab,
            ShortcutAction::RenameFilter,
        ];
        assert(r@ =~= all_actions());
        r
    }

    /// The display name of the action.
    pub fn name(self) -> (r: &'static str)
        ensures
            r@ == self.action_name(),
    {
        match self {
            ShortcutAction::MoveUp => "Move Selection Up",
            ShortcutAction::MoveDown => "Move Selection Down",
            ShortcutAction::ToggleBookmark => "Toggle Bookmark",
            ShortcutAction::FocusSearch => "Focus Search Input",
            ShortcutAction::NewFilterTab => "New Filter Tab",
            ShortcutAction::NewBookmarksTab => "New Bookmarks Tab",
            ShortcutAction::CloseTab => "Close Current Tab",
            ShortcutAction::JumpToTop => "Jump to Top",
            ShortcutAction::JumpToBottom => "Jump to Bottom",
            ShortcutAction::PageUp => "Page Up",
            ShortcutAction::PageDown => "Page Down",
            ShortcutAction::OpenFile => "Open File",
            ShortcutAction::FocusPaneLeft => "Focus Pane Left",
            ShortcutAction::FocusPaneDown => "Focus Pane Down",
            ShortcutAction::FocusPaneUp => "Focus Pane Up",
            ShortcutAction::FocusPaneRight => "Focus Pane Right",
            ShortcutAction::CycleTab => "Cycle to Next Tab",
            ShortcutAction::ReverseCycleTab => "Cycle to Previous Tab",
            ShortcutAction::RenameFilter => "Rename Filter",
        }
    }

    /// The help text of the action.
    pub fn description(self) -> (r: &'static str)
        ensures
            r@ == self.action_description(),
    {
        match self {
            ShortcutAction::MoveUp => "Move to the previous log line in the active view",
            ShortcutAction::MoveDown => "Move to the next log line in the active view",
            ShortcutAction::ToggleBookmark => "Add or remove a bookmark on the selected line",
            ShortcutAction::FocusSearch => "Jump to the search input field (filter tabs only). Press Enter to return focus to logs.",
            ShortcutAction::NewFilterTab => "Create a new filter tab with search focused",
            ShortcutAction::NewBookmarksTab => "Create a new bookmarks tab next to the current tab",
            ShortcutAction::CloseTab => "Close the currently active tab",
            ShortcutAction::JumpToTop => "Jump to the first log line (Vim-style: gg)",
            ShortcutAction::JumpToBottom => "Jump to the last log line (Vim-style: Shift+G)",
            ShortcutAction::PageUp => "Jump up by one page of log lines",
            ShortcutAction::PageDown => "Jump down by one page of log lines",
            ShortcutAction::OpenFile => "Open a file dialog to load a new log file",
            ShortcutAction::FocusPaneLeft => "Move focus to the pane on the left (Vim-style: Shift+H)",
            ShortcutAction::FocusPaneDown => "Move focus to the pane below (Vim-style: Shift+J)",
            ShortcutAction::FocusPaneUp => "Move focus to the pane above (Vim-style: Shift+K)",
            ShortcutAction::FocusPaneRight => "Move focus to the pane on the right (Vim-style: Shift+L)",
            ShortcutAction::CycleTab => "Cycle to the next tab in the active pane",
            ShortcutAction::ReverseCycleTab => "Cycle to the previous tab in the active pane",
            ShortcutAction::RenameFilter => "Open rename dialog for the current filter tab",
        }
    }

    /// The key sequence bound to the action by default (the last one is
    /// the private-use character that stands for F2).
    pub fn default_binding(self) -> (r: &'static str)
        ensures
            r@ == self.action_default_binding(),
    {
        match self {
            ShortcutAction::MoveUp => "k",
            ShortcutAction::MoveDown => "j",
            ShortcutAction::ToggleBookmark => "Space",
            ShortcutAction::FocusSearch => "Ctrl+l",
            ShortcutAction::NewFilterTab => "Ctrl+t",
            ShortcutAction::NewBookmarksTab => "Ctrl+b",
            ShortcutAction::CloseTab => "Ctrl+w",
            ShortcutAction::JumpToTop => "g g",
            ShortcutAction::JumpToBottom => "G",
            ShortcutAction::PageUp => "PageUp",
            ShortcutAction::PageDown => "PageDown",
            ShortcutAction::OpenFile => "Ctrl+o",
            ShortcutAction::FocusPaneLeft => "H",
            ShortcutAction::FocusPaneDown => "J",
            ShortcutAction::FocusPaneUp => "K",
            ShortcutAction::FocusPaneRight => "L",
            ShortcutAction::CycleTab => "Ctrl+Tab",
            ShortcutAction::ReverseCycleTab => "Ctrl+Shift+Tab",
            ShortcutAction::RenameFilter => "\u{E002}",
        }
    }
}

/// Every action is listed by `all`, exactly once.
pub proof fn lemma_all_lists_each_action_once(a: ShortcutAction)
    ensures
        all_actions().contains(a),
        all_actions().no_duplicates(),
{
    let s = all_actions();
    assert(s.len() == 19);
    match a {
        ShortcutAction::MoveUp => assert(s[0] == a),
        ShortcutAction::MoveDown => assert(s[1] == a),
        ShortcutAction::ToggleBookmark => assert(s[2] == a),
        ShortcutAction::FocusSearch => assert(s[3] == a),
        ShortcutAction::NewFilterTab => assert(s[4] == a),
        ShortcutAction::NewBookmarksTab => assert(s[5] == a),
        ShortcutAction::CloseTab => assert(s[6] == a),
        ShortcutAction::JumpToTop => assert(s[7] == a),
        ShortcutAction::JumpToBottom => assert(s[8] == a),
        ShortcutAction::PageUp => assert(s[9] == a),
        ShortcutAction::PageDown => assert(s[10] == a),
        ShortcutAction::OpenFile => assert(s[11] == a),
        ShortcutAction::FocusPaneLeft => assert(s[12] == a),
        ShortcutAction::FocusPaneDown => assert(s[13] == a),
        ShortcutAction::FocusPaneUp => assert(s[14] == a),
        ShortcutAction::FocusPaneRight => assert(s[15] == a),
        ShortcutAction::CycleTab => assert(s[16] == a),
        ShortcutAction::ReverseCycleTab => assert(s[17] == a),
        ShortcutAction::RenameFilter => assert(s[18] == a),
    }
    assert forall|i: int, j: int| 0 <= i < s.len() && 0 <= j < s.len() && i != j implies s[i] != s[j] by {
    }
}

/// The key sequence bound to `action`: the last entry for it.
pub open spec fn binding_in(entries: Seq<(ShortcutAction, Seq<char>)>, action: ShortcutAction) -> Option<Seq<char>>
    decreases entries.len(),
{
    if entries.len() == 0 {
        None
    } else if entries.last().0 == action {
        Some(entries.last().1)
    } else {
        binding_in(entries.drop_last(), action)
    }
}

/// No action has two entries.
pub open spec fn distinct_actions(entries: Seq<(ShortcutAction, Seq<char>)>) -> bool {
    forall|i: int, j: int| 0 <= i < j < entries.len() ==> entries[i].0 != entries[j].0
}

proof fn lemma_binding_at(entries: Seq<(ShortcutAction, Seq<char>)>, i: int)
    requires
        distinct_actions(entries),
        0 <= i < entries.len(),
    ensures
        binding_in(entries, entries[i].0) == Some(entries[i].1),
    decreases entries.len(),
{
    if i < entries.len() - 1 {
        assert(entries.drop_last()[i] == entries[i]);
        lemma_binding_at(entries.drop_last(), i);
    }
}

proof fn lemma_binding_absent(entries: Seq<(ShortcutAction, Seq<char>)>, action: ShortcutAction)
    requires
        forall|i: int| 0 <= i < entries.len() ==> entries[i].0 != action,
    ensures
        binding_in(entries, action) is None,
    decreases entries.len(),
{
    if entries.len() > 0 {
        lemma_binding_absent(entries.drop_last(), action);
    }
}

/// The binding of `action` is that of its entry, or none without one.
proof fn lemma_binding_lookup(entries: Seq<(ShortcutAction, Seq<char>)>, action: ShortcutAction)
    requires
        distinct_actions(entries),
    ensures
        (exists|i: int| 0 <= i < entries.len() && entries[i].0 == action) || binding_in(entries, action) is None,
        forall|i: int| 0 <= i < entries.len() && entries[i].0 == action ==> binding_in(entries, action) == Some(entries[i].1),
{
    assert forall|i: int| 0 <= i < entries.len() && entries[i].0 == action implies binding_in(entries, action) == Some(entries[i].1) by {
        lemma_binding_at(entries, i);
    }
    if !(exists|i: int| 0 <= i < entries.len() && entries[i].0 == action) {
        lemma_binding_absent(entries, action);
    }
}

/// The key sequences the shortcut actions are bound to.
pub struct ShortcutBindings {
    bindings: Vec<(ShortcutAction, String)>,
}

/// The entries of a list of bindings, as character sequences.
pub open spec fn binding_entries(v: Seq<(ShortcutAction, String)>) -> Seq<(ShortcutAction, Seq<char>)> {
    v.map_values(|e: (ShortcutAction, String)| (e.0, e.1@))
}

impl ShortcutBindings {
    /// The binding of each action.
    pub closed spec fn entries(&self) -> Seq<(ShortcutAction, Seq<char>)> {
        binding_entries(self.bindings@)
    }

    /// The key sequence bound to `action`, if any.
    pub open spec fn bound(&self, action: ShortcutAction) -> Option<Seq<char>> {
        binding_in(self.entries(), action)
    }

    /// No action is bound twice.
    pub closed spec fn wf(&self) -> bool {
        distinct_actions(self.entries())
    }

    /// Binds `action` to `shortcut`, replacing its binding.
    fn bind(&mut self, action: ShortcutAction, shortcut: String)
        requires
            old(self).wf(),
        ensures
            final(self).wf(),
            final(self).bound(action) == Some(shortcut@),
            forall|a: ShortcutAction| a != action ==> #[trigger] final(self).bound(a) == old(self).bound(a),
    {
        let ghost before = self.entries();
        let mut i: usize = 0;
        let mut found: Option<usize> = None;
        while i < self.bindings.len() && found.is_none()
            invariant
                i <= self.bindings@.len(),
                before == self.entries(),
                before == binding_entries(self.bindings@),
                before.len() == self.bindings@.len(),
                found is None ==> forall|j: int| 0 <= j < i ==> before[j].0 != action,
                found matches Some(f) ==> f < before.len() && before[f as int].0 == action,
            decreases self.bindings.len() - i,
        {
            assert(before[i as int] == (self.bindings@[i as int].0, self.bindings@[i as int].1@));
            if self.bindings[i].0 == action {
                found = Some(i);
            }
            i += 1;
        }
        match found {
            Some(f) => {
                self.bindings.set(f, (action, shortcut));
            },
            None => {
                self.bindings.push((action, shortcut));
            },
        }
        let ghost after = self.entries();
        proof {
            match found {
                Some(f) => {
                    assert(after =~= before.update(f as int, (action, shortcut@)));
                    lemma_binding_at(after, f as int);
                    assert forall|a: ShortcutAction| a != action implies binding_in(after, a) == binding_in(before, a) by {
                        lemma_binding_lookup(before, a);
                        lemma_binding_lookup(after, a);
                        if exists|j: int| 0 <= j < before.len() && before[j].0 == a {
                            let j = choose|j: int| 0 <= j < before.len() && before[j].0 == a;
                            assert(after[j] == before[j]);
                        } else if exists|j: int| 0 <= j < after.len() && after[j].0 == a {
                            let j = choose|j: int| 0 <= j < after.len() && after[j].0 == a;
                            assert(after[j] == before[j]);
                        }
                    }
                },
                None => {
                    assert(after =~= before.push((action, shortcut@)));
                    assert(after.drop_last() =~= before);
                },
            }
        }
    }

    /// Every action bound to its default key sequence.
    pub fn defaults() -> (r: Self)
        ensures
            r.wf(),
            forall|a: ShortcutAction| #[trigger] r.bound(a) == Some(a.action_default_binding()),
    {
        let mut r = ShortcutBindings { bindings: Vec::new() };
        assert(r.entries() =~= Seq::<(ShortcutAction, Seq<char>)>::empty());
        let all = ShortcutAction::all();
        let mut i: usize = 0;
        while i < all.len()
            invariant
                i <= all@.len(),
                all@ == all_actions(),
                r.wf(),
                forall|j: int| 0 <= j < i ==> #[trigger] r.bound(all@[j]) == Some(all@[j].action_default_binding()),
            decreases all.len() - i,
        {
            let a = all[i];
            let ghost prev = r;
            r.bind(a, a.default_binding().to_string());
            assert forall|j: int| 0 <= j < i + 1 implies #[trigger] r.bound(all@[j]) == Some(all@[j].action_default_binding()) by {
                if j < i {
                    assert(all@[j] != a) by {
                        lemma_all_lists_each_action_once(a);
                    }
                }
            }
            i += 1;
        }
        assert forall|a: ShortcutAction| #[trigger] r.bound(a) == Some(a.action_default_binding()) by {
            lemma_all_lists_each_action_once(a);
            let j = choose|j: int| 0 <= j < all_actions().len() && all_actions()[j] == a;
            assert(r.bound(all@[j]) == Some(all@[j].action_default_binding()));
        }
        r
    }

    /// The bindings a configuration gives: its shortcuts when it has any
    /// (a later entry for an action replacing an earlier one), every
    /// default otherwise.
    pub fn load(shortcuts: &Vec<(ShortcutAction, String)>) -> (r: Self)
        ensures
            r.wf(),
            shortcuts@.len() == 0 ==> forall|a: ShortcutAction| #[trigger] r.bound(a) == Some(a.action_default_binding()),
            shortcuts@.len() > 0 ==> forall|a: ShortcutAction| #[trigger] r.bound(a) == binding_in(binding_entries(shortcuts@), a),
    {
        if shortcuts.len() == 0 {
            return ShortcutBindings::defaults();
        }
        let mut r = ShortcutBindings { bindings: Vec::new() };
        assert(r.entries() =~= Seq::<(ShortcutAction, Seq<char>)>::empty());
        let mut i: usize = 0;
        while i < shortcuts.len()
            invariant
                i <= shortcuts@.len(),
                r.wf(),
                forall|a: ShortcutAction| #[trigger] r.bound(a) == binding_in(binding_entries(shortcuts@.take(i as int)), a),
            decreases shortcuts.len() - i,
        {
            let (a, s) = &shortcuts[i];
            r.bind(*a, s.clone());
            assert(binding_entries(shortcuts@.take(i + 1)).drop_last() =~= binding_entries(shortcuts@.take(i as int)));
            i += 1;
        }
        assert(shortcuts@.take(shortcuts@.len() as int) =~= shortcuts@);
        r
    }

    /// Get the shortcut string for a specific action ("" when unbound).
    pub fn get_shortcut(&self, action: ShortcutAction) -> (r: &str)
        requires
            self.wf(),
        ensures
            r@ == match self.bound(action) {
                Some(s) => s,
                None => Seq::empty(),
            },
    {
        let ghost es = self.entries();
        let mut i: usize = 0;
        while i < self.bindings.len()
            invariant
                i <= self.bindings@.len(),
                es == self.entries(),
                es == binding_entries(self.bindings@),
                es.len() == self.bindings@.len(),
                distinct_actions(es),
                forall|j: int| 0 <= j < i ==> es[j].0 != action,
            decreases self.bindings.len() - i,
        {
            assert(es[i as int] == (self.bindings@[i as int].0, self.bindings@[i as int].1@));
            if self.bindings[i].0 == action {
                proof {
                    lemma_binding_at(es, i as int);
                }
                return self.bindings[i].1.as_str();
            }
            i += 1;
        }
        proof {
            lemma_binding_absent(es, action);
            reveal_strlit("");
        }
        ""
    }

    /// Set the shortcut for a specific action, after checking that it is a
    /// valid key sequence.
    pub fn set_shortcut(&mut self, action: ShortcutAction, shortcut: &str) -> (r: Result<(), String>)
        requires
            old(self).wf(),
        ensures
            final(self).wf(),
            match key_sequence_error(shortcut@) {
                None => r is Ok && final(self).bound(action) == Some(shortcut@)
                    && forall|a: ShortcutAction| a != action ==> #[trigger] final(self).bound(a) == old(self).bound(a),
                Some(m) => (r matches Err(e) && e@ == "Invalid keybind: "@ + m) && forall|a: ShortcutAction|
                    #[trigger] final(self).bound(a) == old(self).bound(a),
            },
    {
        match parse_key_sequence(shortcut) {
            Ok(()) => {
                self.bind(action, shortcut.to_string());
                Ok(())
            },
            Err(m) => {
                let mut e = String::new();
                push_str(&mut e, "Invalid keybind: ");
                push_str(&mut e, m.as_str());
                Err(e)
            },
        }
    }

    /// The bindings, to be saved in the configuration.
    pub fn save_to_config(&self) -> (r: Vec<(ShortcutAction, String)>)
        ensures
            binding_entries(r@) == self.entries(),
    {
        let mut r: Vec<(ShortcutAction, String)> = Vec::new();
        let mut i: usize = 0;
        while i < self.bindings.len()
            invariant
                i <= self.bindings@.len(),
                r@.len() == i,
                forall|j: int| 0 <= j < i ==> (#[trigger] r@[j]).0 == self.bindings@[j].0 && r@[j].1@
                    == self.bindings@[j].1@,
            decreases self.bindings.len() - i,
        {
            let (a, s) = &self.bindings[i];
            let copy = s.clone();
            assert(copy@ == self.bindings@[i as int].1@);
            r.push((*a, copy));
            i += 1;
        }
        assert(binding_entries(r@) =~= self.entries());
        r
    }
}

} // verus!
