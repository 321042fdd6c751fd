//! The ordered collection of open tabs and the active selection, with the
//! lifecycle operations open / close / move / refresh. The store keeps two
//! invariants at all times: at least one tab is open (a fresh default tab is
//! synthesised when the last one is closed), and the selection stays within
//! the tab sequence.

use vstd::prelude::*;
use vstd::string::*;
use crate::text::name_of;

verus! {

/// Upper bound on how many tabs a session may hold. `open_file` is a silent
/// no-op at this capacity.
pub const MAX_TABS: usize = 20;

/// One open document buffer: its filesystem path (the literal `untitled`
/// means "never saved to disk"), full text, language identifier, dirty flag
/// and view state.
pub struct Tab {
    pub path: String,
    pub code: String,
    pub language: String,
    pub saved: bool,
    pub scroll_offset: usize,
    pub last_cursor: Option<(usize, usize)>,
}

/// The sentinel name of a buffer that was never saved to disk.
pub open spec fn untitled() -> Seq<char> {
    "untitled"@
}

/// Holds of the fresh buffer a session starts with and of every tab opened
/// without a path.
pub open spec fn is_default_tab(t: Tab) -> bool {
    &&& t.path@ == untitled()
    &&& t.code@ == "// Hello there, Master"@
    &&& t.language@ == "rs"@
    &&& !t.saved
    &&& t.scroll_offset == 0
    &&& t.last_cursor is None
}

impl Default for Tab {
    /// A fresh unsaved buffer named `untitled`.
    fn default() -> (t: Tab)
        ensures
            is_default_tab(t),
    {
        Tab {
            path: String::from_str("untitled"),
            code: String::from_str("// Hello there, Master"),
            language: String::from_str("rs"),
            saved: false,
            scroll_offset: 0,
            last_cursor: None,
        }
    }
}

impl Tab {
    /// The tab's display name: the last component of its path.
    pub fn get_name(&self) -> (r: String)
        ensures
            r@ == name_of(self.path@),
    {
        crate::text::base_name(self.path.as_str())
    }

    /// Whether saving this tab must be routed through save-as: holds exactly
    /// of tabs whose display name is the `untitled` sentinel.
    pub fn needs_save_as(&self) -> (r: bool)
        ensures
            r == (name_of(self.path@) == untitled()),
    {
        let name = self.get_name();
        crate::text::str_eq(name.as_str(), "untitled")
    }
}

/// Legacy closed enumeration addressing the first eight tabs; selection in
/// `SessionStore` is a plain bounded index, independent of it.
#[derive(Debug, PartialEq, Eq, Structural, Clone, Copy)]
pub enum TabNumber {
    NoTab,
    Open,
    Zero,
    One,
    Two,
    Three,
    Four,
    Five,
    Six,
    Seven,
}

/// The index a `TabNumber` stands for, `NoTab` for anything past the eighth.
pub open spec fn spec_from_index(n: int) -> TabNumber {
    if n == 0 {
        TabNumber::Zero
    } else if n == 1 {
        TabNumber::One
    } else if n == 2 {
        TabNumber::Two
    } else if n == 3 {
        TabNumber::Three
    } else if n == 4 {
        TabNumber::Four
    } else if n == 5 {
        TabNumber::Five
    } else if n == 6 {
        TabNumber::Six
    } else if n == 7 {
        TabNumber::Seven
    } else {
        TabNumber::NoTab
    }
}

impl TabNumber {
    pub fn from_index(n: usize) -> (r: TabNumber)
        ensures
            r == spec_from_index(n as int),
    {
        match n {
            0 => TabNumber::Zero,
            1 => TabNumber::One,
            2 => TabNumber::Two,
            3 => TabNumber::Three,
            4 => TabNumber::Four,
            5 => TabNumber::Five,
            6 => TabNumber::Six,
            7 => TabNumber::Seven,
            _ => TabNumber::NoTab,
        }
    }

    pub fn to_index(&self) -> (r: usize)
        ensures
            forall|n: int| 0 <= n < 8 && *self == spec_from_index(n) ==> r == n,
            (*self is NoTab || *self is Open) ==> r == 0,
    {
        match self {
            TabNumber::Zero => 0,
            TabNumber::One => 1,
            TabNumber::Two => 2,
            TabNumber::Three => 3,
            TabNumber::Four => 4,
            TabNumber::Five => 5,
            TabNumber::Six => 6,
            TabNumber::Seven => 7,
            _ => 0,
        }
    }
}

/// Cyclic selection shift over `len` tabs: forward wraps from the last tab
/// to the first, backward from the first to the last.
pub open spec fn spec_move_selection(sel: int, len: int, forward: bool) -> int {
    if forward {
        if sel + 1 == len {
            0
        } else {
            sel + 1
        }
    } else {
        if sel == 0 {
            len - 1
        } else {
            sel - 1
        }
    }
}

/// The ordered, bounded sequence of open tabs plus the current selection.
pub struct SessionStore {
    pub tabs: Vec<Tab>,
    pub selected: usize,
}

impl SessionStore {
    /// The session invariant: never empty, never over capacity, and the
    /// selection addresses an existing tab.
    pub open spec fn wf(&self) -> bool {
        &&& 1 <= self.tabs@.len() <= MAX_TABS
        &&& (self.selected as int) < self.tabs@.len()
    }

    /// The paths of the open tabs, in display order.
    pub open spec fn paths(&self) -> Seq<Seq<char>> {
        self.tabs@.map_values(|t: Tab| t.path@)
    }

    /// A session holding exactly the fresh default tab.
    pub fn new() -> (s: SessionStore)
        ensures
            s.wf(),
            s.tabs@.len() == 1,
            is_default_tab(s.tabs@[0]),
            s.selected == 0,
    {
        let mut tabs: Vec<Tab> = Vec::new();
        tabs.push(Tab::default());
        SessionStore { tabs, selected: 0 }
    }

    /// Appends a tab (the given one, or a fresh default buffer) and selects
    /// it; at capacity the call is a silent no-op.
    pub fn open_file(&mut self, source: Option<Tab>)
        requires
            old(self).wf(),
        ensures
            final(self).wf(),
            old(self).tabs@.len() == MAX_TABS ==> *final(self) == *old(self),
            old(self).tabs@.len() < MAX_TABS ==> {
                &&& final(self).tabs@.len() == old(self).tabs@.len() + 1
                &&& final(self).tabs@.take(old(self).tabs@.len() as int) == old(self).tabs@
                &&& (source matches Some(t) ==> final(self).tabs@.last() == t)
                &&& (source is None ==> is_default_tab(final(self).tabs@.last()))
                &&& final(self).selected == old(self).tabs@.len()
            },
    {
        if self.tabs.len() < MAX_TABS {
            match source {
                Some(t) => self.tabs.push(t),
                None => self.tabs.push(Tab::default()),
            }
            self.selected = self.tabs.len() - 1;
            proof {
                assert(final(self).tabs@.take(old(self).tabs@.len() as int)
                    =~= old(self).tabs@);
            }
        }
    }

    /// Removes the tab at `index`; closing the last tab synthesises a fresh
    /// default tab, so at least one always remains. The selection is reset
    /// to `min(index, len - 1)` and so never points past the end.
    pub fn delete_tab(&mut self, index: usize)
        requires
            old(self).wf(),
            index < old(self).tabs@.len(),
        ensures
            deleted_rel(*old(self), *final(self), index as int),
            final(self).wf(),
            old(self).tabs@.len() > 1
                ==> final(self).tabs@ == old(self).tabs@.remove(index as int),
            old(self).tabs@.len() == 1
                ==> final(self).tabs@.len() == 1 && is_default_tab(final(self).tabs@[0]),
            final(self).selected as int == if index < final(self).tabs@.len() - 1 {
                index as int
            } else {
                final(self).tabs@.len() - 1
            },
            final(self).selected < final(self).tabs@.len(),
    {
        self.tabs.remove(index);
        if self.tabs.len() == 0 {
            self.tabs.push(Tab::default());
        }
        let len = self.tabs.len();
        if index < len - 1 {
            self.selected = index;
        } else {
            self.selected = len - 1;
        }
    }

    /// Cyclic selection shift; the tab sequence itself is untouched.
    pub fn move_through_tabs(&mut self, forward: bool)
        requires
            old(self).wf(),
        ensures
            final(self).wf(),
            final(self).tabs == old(self).tabs,
            final(self).selected as int == spec_move_selection(
                old(self).selected as int,
                old(self).tabs@.len() as int,
                forward,
            ),
    {
        let len = self.tabs.len();
        if forward {
            if self.selected + 1 == len {
                self.selected = 0;
            } else {
                self.selected = self.selected + 1;
            }
        } else {
            if self.selected == 0 {
                self.selected = len - 1;
            } else {
                self.selected = self.selected - 1;
            }
        }
    }

    /// Replaces the tab's buffer with content reloaded from its path,
    /// discarding unsaved edits; everything else about the tab is kept.
    pub fn refresh(&mut self, index: usize, code: String)
        requires
            old(self).wf(),
            index < old(self).tabs@.len(),
        ensures
            final(self).wf(),
            final(self).tabs@.len() == old(self).tabs@.len(),
            final(self).selected == old(self).selected,
            final(self).tabs@[index as int].code == code,
            final(self).tabs@[index as int].saved,
            final(self).tabs@[index as int].path == old(self).tabs@[index as int].path,
            final(self).tabs@[index as int].language
                == old(self).tabs@[index as int].language,
            final(self).tabs@[index as int].scroll_offset
                == old(self).tabs@[index as int].scroll_offset,
            final(self).tabs@[index as int].last_cursor
                == old(self).tabs@[index as int].last_cursor,
            forall|j: int|
                0 <= j < old(self).tabs@.len() && j != index
                    ==> final(self).tabs@[j] == old(self).tabs@[j],
    {
        self.tabs[index].code = code;
        self.tabs[index].saved = true;
    }

    /// Records the outcome of a save: on success the current tab takes the
    /// written path and becomes clean; on failure nothing changes.
    pub fn handle_save_file(&mut self, path_option: Option<String>)
        requires
            old(self).wf(),
        ensures
            final(self).wf(),
            path_option is None ==> *final(self) == *old(self),
            path_option matches Some(p) ==> {
                &&& final(self).tabs@.len() == old(self).tabs@.len()
                &&& final(self).selected == old(self).selected
                &&& final(self).tabs@[old(self).selected as int].path == p
                &&& final(self).tabs@[old(self).selected as int].saved
                &&& final(self).tabs@[old(self).selected as int].code
                    == old(self).tabs@[old(self).selected as int].code
                &&& final(self).tabs@[old(self).selected as int].language
                    == old(self).tabs@[old(self).selected as int].language
                &&& final(self).tabs@[old(self).selected as int].scroll_offset
                    == old(self).tabs@[old(self).selected as int].scroll_offset
                &&& final(self).tabs@[old(self).selected as int].last_cursor
                    == old(self).tabs@[old(self).selected as int].last_cursor
                &&& forall|j: int|
                    0 <= j < old(self).tabs@.len() && j != old(self).selected
                        ==> final(self).tabs@[j] == old(self).tabs@[j]
            },
    {
        match path_option {
            Some(path) => {
                let sel = self.selected;
                self.tabs[sel].path = path;
                self.tabs[sel].saved = true;
            },
            None => {},
        }
    }

    /// Where a save of the current tab must write: its own path, unless the
    /// tab is `untitled`, in which case save must be routed through save-as
    /// and no direct target exists.
    pub fn save_target(&self) -> (r: Option<String>)
        requires
            self.wf(),
        ensures
            r is None <==> name_of(self.tabs@[self.selected as int].path@) == untitled(),
            r matches Some(p) ==> p@ == self.tabs@[self.selected as int].path@,
    {
        let sel = self.selected;
        if self.tabs[sel].needs_save_as() {
            None
        } else {
            Some(self.tabs[sel].path.clone())
        }
    }
}

/// How a session after `delete_tab(index)` relates to the one before it:
/// the tab is removed (or, for a one-tab session, replaced by the fresh
/// default tab) and the selection is reset to `min(index, len - 1)`.
pub open spec fn deleted_rel(pre: SessionStore, post: SessionStore, index: int) -> bool {
    &&& post.wf()
    &&& pre.tabs@.len() > 1 ==> post.tabs@ == pre.tabs@.remove(index)
    &&& pre.tabs@.len() == 1 ==> post.tabs@.len() == 1 && is_default_tab(post.tabs@[0])
    &&& post.selected as int == if index < post.tabs@.len() - 1 {
        index
    } else {
        post.tabs@.len() - 1
    }
}

/// A tab-lifecycle step: opening a buffer or closing one by index.
pub enum SessionOp {
    Open(Option<Tab>),
    Close(int),
}

/// The session shape after one lifecycle step, as `open_file` and
/// `delete_tab` perform it (an out-of-range close is a no-op; a close of the
/// last tab leaves the fresh default tab in a one-tab session).
pub open spec fn spec_apply_op(tabs_len: int, sel: int, op: SessionOp) -> (int, int) {
    match op {
        SessionOp::Open(_) => {
            if tabs_len < MAX_TABS {
                (tabs_len + 1, tabs_len)
            } else {
                (tabs_len, sel)
            }
        },
        SessionOp::Close(i) => {
            if 0 <= i < tabs_len {
                let len2 = if tabs_len == 1 {
                    1
                } else {
                    tabs_len - 1
                };
                (len2, if i < len2 - 1 {
                    i
                } else {
                    len2 - 1
                })
            } else {
                (tabs_len, sel)
            }
        },
    }
}

/// The session shape after a sequence of lifecycle steps.
pub open spec fn spec_apply_ops(tabs_len: int, sel: int, ops: Seq<SessionOp>) -> (int, int)
    decreases ops.len(),
{
    if ops.len() == 0 {
        (tabs_len, sel)
    } else {
        let mid = spec_apply_op(tabs_len, sel, ops.first());
        spec_apply_ops(mid.0, mid.1, ops.drop_first())
    }
}

/// Whether a session shape satisfies the invariant: at least one tab, at
/// most `MAX_TABS`, selection in bounds.
pub open spec fn shape_wf(tabs_len: int, sel: int) -> bool {
    1 <= tabs_len <= MAX_TABS && 0 <= sel < tabs_len
}

/// Any sequence of opens and closes, starting from a valid session, leaves
/// at least one tab and a selection within bounds at every step: every
/// prefix of the sequence is itself such a sequence, so the invariant holds
/// throughout, not only at the end.
pub proof fn lemma_session_ops_preserve_wf(tabs_len: int, sel: int, ops: Seq<SessionOp>)
    requires
        shape_wf(tabs_len, sel),
    ensures
        shape_wf(
            spec_apply_ops(tabs_len, sel, ops).0,
            spec_apply_ops(tabs_len, sel, ops).1,
        ),
    decreases ops.len(),
{
    if ops.len() > 0 {
        let mid = spec_apply_op(tabs_len, sel, ops.first());
        lemma_session_ops_preserve_wf(mid.0, mid.1, ops.drop_first());
    }
}

/// Repeated forward rotation of the selection.
pub open spec fn spec_iter_forward(sel: int, len: int, k: nat) -> int
    decreases k,
{
    if k == 0 {
        sel
    } else {
        spec_move_selection(spec_iter_forward(sel, len, (k - 1) as nat), len, true)
    }
}

proof fn lemma_iter_forward_shape(sel: int, len: int, k: nat)
    requires
        0 < len,
        0 <= sel < len,
        k <= len,
    ensures
        spec_iter_forward(sel, len, k) == if sel + k < len {
            sel + k
        } else {
            sel + k - len
        },
    decreases k,
{
    if k > 0 {
        lemma_iter_forward_shape(sel, len, (k - 1) as nat);
    }
}

/// Moving the selection forward is a cyclic rotation: applying it exactly
/// `len` times returns to the original selection.
pub proof fn lemma_move_selection_cycle(sel: int, len: int)
    requires
        0 < len,
        0 <= sel < len,
    ensures
        spec_iter_forward(sel, len, len as nat) == sel,
{
    lemma_iter_forward_shape(sel, len, len as nat);
}

/// A forward move followed by a backward move (and the other way round) is
/// the identity on the selection of any non-empty session.
pub proof fn lemma_move_selection_inverse(sel: int, len: int)
    requires
        0 < len,
        0 <= sel < len,
    ensures
        spec_move_selection(spec_move_selection(sel, len, true), len, false) == sel,
        spec_move_selection(spec_move_selection(sel, len, false), len, true) == sel,
{
}

} // verus!
