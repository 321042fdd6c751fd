//! The coordinator over the session store and its three confirmation
//! gates: it routes the intents the input layer raises (close, refresh,
//! exit, save), applies clean-tab actions immediately, defers dirty-tab
//! actions through a gate, and reduces a confirmed answer to the action it
//! guards. It also converts the session to and from its persisted shape.

use vstd::prelude::*;
use vstd::string::*;
use crate::confirm::{ConfirmationGate, PendingAction};
use crate::persist::AppState;
use crate::session::{deleted_rel, is_default_tab, SessionStore, Tab, MAX_TABS};
use crate::text::{base_name, derive_language, language_of, name_of, str_eq};

verus! {

/// What the surrounding loop must perform after an intent resolves:
/// reload a tab's buffer from disk, or end the session.
#[derive(PartialEq, Eq, Structural, Clone, Copy, Debug)]
pub enum Effect {
    ReloadTab(usize),
    Exit,
}

/// The editor core: the tab session, the active theme index, and one
/// confirmation gate per destructive action.
pub struct Editor {
    pub session: SessionStore,
    pub theme: usize,
    pub close_tab_confirm: ConfirmationGate,
    pub refresh_confirm: ConfirmationGate,
    pub exit_confirm: ConfirmationGate,
}

/// The concatenated display names of the unsaved tabs, in tab order.
pub open spec fn unsaved_names(tabs: Seq<Tab>) -> Seq<char>
    decreases tabs.len(),
{
    if tabs.len() == 0 {
        Seq::empty()
    } else {
        unsaved_names(tabs.drop_last()) + if !tabs.last().saved {
            name_of(tabs.last().path@)
        } else {
            Seq::<char>::empty()
        }
    }
}

/// The question asked before exiting with unsaved tabs: it lists exactly
/// the display names of the unsaved tabs and no others.
pub open spec fn exit_prompt_of(tabs: Seq<Tab>) -> Seq<char> {
    "You have some unsaved changes :\n"@ + unsaved_names(tabs)
        + "\nDo you still want to exit ?"@
}

/// Whether any open tab has unsaved edits.
pub open spec fn any_unsaved(tabs: Seq<Tab>) -> bool {
    exists|i: int| 0 <= i < tabs.len() && !tabs[i].saved
}

/// Whether a confirmed close answer releases a tab deletion.
pub open spec fn close_fires(e: Editor) -> bool {
    e.close_tab_confirm.proceed && (e.close_tab_confirm.pending matches Some(
        PendingAction::CloseTab(i),
    ) && i < e.session.tabs@.len())
}

/// Whether a confirmed refresh answer releases a buffer reload, judged
/// against the tab count after any confirmed close was applied.
pub open spec fn refresh_fires(e: Editor, post_len: int) -> bool {
    e.refresh_confirm.proceed && (e.refresh_confirm.pending matches Some(
        PendingAction::RefreshTab(i),
    ) && i < post_len)
}

impl Editor {
    pub open spec fn wf(&self) -> bool {
        self.session.wf()
    }

    /// A fresh editor: one default tab, default theme, all gates idle.
    pub fn new() -> (e: Editor)
        ensures
            e.wf(),
            e.session.tabs@.len() == 1,
            is_default_tab(e.session.tabs@[0]),
            e.session.selected == 0,
            e.theme == 0,
            e.close_tab_confirm.is_idle(),
            e.refresh_confirm.is_idle(),
            e.exit_confirm.is_idle(),
    {
        Editor {
            session: SessionStore::new(),
            theme: 0,
            close_tab_confirm: ConfirmationGate::new(),
            refresh_confirm: ConfirmationGate::new(),
            exit_confirm: ConfirmationGate::new(),
        }
    }

    /// Builds the exit question from the current tabs, per `exit_prompt_of`.
    pub fn build_exit_prompt(&self) -> (r: String)
        requires
            self.wf(),
        ensures
            r@ == exit_prompt_of(self.session.tabs@),
    {
        proof {
            assert(unsaved_names(self.session.tabs@.take(0)) =~= Seq::<char>::empty());
        }
        let mut names = String::new();
        let mut i: usize = 0;
        while i < self.session.tabs.len()
            invariant
                i <= self.session.tabs@.len(),
                names@ == unsaved_names(self.session.tabs@.take(i as int)),
            decreases self.session.tabs@.len() - i,
        {
            proof {
                assert(self.session.tabs@.take(i + 1).drop_last() =~= self.session.tabs@.take(
                    i as int,
                ));
                assert(self.session.tabs@.take(i + 1).last() == self.session.tabs@[i as int]);
            }
            if !self.session.tabs[i].saved {
                let name = self.session.tabs[i].get_name();
                names.append(name.as_str());
            }
            i += 1;
        }
        proof {
            assert(self.session.tabs@.take(self.session.tabs@.len() as int)
                =~= self.session.tabs@);
        }
        let mut prompt = String::from_str("You have some unsaved changes :\n");
        prompt.append(names.as_str());
        prompt.append("\nDo you still want to exit ?");
        prompt
    }

    /// Whether any open tab has unsaved edits, per `any_unsaved`.
    pub fn has_unsaved(&self) -> (r: bool)
        requires
            self.wf(),
        ensures
            r == any_unsaved(self.session.tabs@),
    {
        let mut i: usize = 0;
        while i < self.session.tabs.len()
            invariant
                i <= self.session.tabs@.len(),
                forall|j: int| 0 <= j < i ==> self.session.tabs@[j].saved,
            decreases self.session.tabs@.len() - i,
        {
            if !self.session.tabs[i].saved {
                return true;
            }
            i += 1;
        }
        false
    }

    /// Routes a close-tab intent: a clean tab is closed immediately, a
    /// dirty one defers to the close gate; nothing happens for an index
    /// past the end or while another close question is in flight.
    pub fn request_close(&mut self, index: usize)
        requires
            old(self).wf(),
        ensures
            final(self).wf(),
            final(self).theme == old(self).theme,
            final(self).refresh_confirm == old(self).refresh_confirm,
            final(self).exit_confirm == old(self).exit_confirm,
            index >= old(self).session.tabs@.len() ==> *final(self) == *old(self),
            index < old(self).session.tabs@.len()
                && old(self).session.tabs@[index as int].saved ==> {
                &&& deleted_rel(old(self).session, final(self).session, index as int)
                &&& final(self).close_tab_confirm == old(self).close_tab_confirm
            },
            index < old(self).session.tabs@.len() && !old(self).session.tabs@[
                index as int
            ].saved && old(self).close_tab_confirm.is_idle() ==> {
                &&& final(self).session == old(self).session
                &&& final(self).close_tab_confirm.visible
                &&& !final(self).close_tab_confirm.proceed
                &&& final(self).close_tab_confirm.pending == Some(
                    PendingAction::CloseTab(index),
                )
                &&& final(self).close_tab_confirm.prompt@
                    == "You have some unsaved changes, Do you still want to close this document ?"@
                &&& final(self).close_tab_confirm.title@ == "Confirm Close"@
            },
            index < old(self).session.tabs@.len() && !old(self).session.tabs@[
                index as int
            ].saved && !old(self).close_tab_confirm.is_idle() ==> *final(self) == *old(self),
    {
        if index >= self.session.tabs.len() {
            return;
        }
        if self.session.tabs[index].saved {
            self.session.delete_tab(index);
        } else if !self.close_tab_confirm.visible && !self.close_tab_confirm.proceed
            && self.close_tab_confirm.pending.is_none() {
            self.close_tab_confirm.ask(
                String::from_str(
                    "You have some unsaved changes, Do you still want to close this document ?",
                ),
                String::from_str("Confirm Close"),
                PendingAction::CloseTab(index),
            );
        }
    }

    /// Routes a refresh-tab intent: a clean tab is reloaded immediately
    /// (the caller fetches the content), a dirty one defers to the refresh
    /// gate.
    pub fn request_refresh(&mut self, index: usize) -> (r: Option<Effect>)
        requires
            old(self).wf(),
        ensures
            final(self).wf(),
            final(self).theme == old(self).theme,
            final(self).close_tab_confirm == old(self).close_tab_confirm,
            final(self).exit_confirm == old(self).exit_confirm,
            index >= old(self).session.tabs@.len() ==> *final(self) == *old(self) && r
                is None,
            index < old(self).session.tabs@.len()
                && old(self).session.tabs@[index as int].saved ==> {
                &&& *final(self) == *old(self)
                &&& r == Some(Effect::ReloadTab(index))
            },
            index < old(self).session.tabs@.len() && !old(self).session.tabs@[
                index as int
            ].saved && old(self).refresh_confirm.is_idle() ==> {
                &&& final(self).session == old(self).session
                &&& final(self).refresh_confirm.visible
                &&& !final(self).refresh_confirm.proceed
                &&& final(self).refresh_confirm.pending == Some(
                    PendingAction::RefreshTab(index),
                )
                &&& final(self).refresh_confirm.prompt@
                    == "You have some unsaved changes, Do you still want to refresh this document ?"@
                &&& final(self).refresh_confirm.title@ == "Confirm Refresh"@
                &&& r is None
            },
            index < old(self).session.tabs@.len() && !old(self).session.tabs@[
                index as int
            ].saved && !old(self).refresh_confirm.is_idle() ==> *final(self) == *old(self)
                && r is None,
    {
        if index >= self.session.tabs.len() {
            return None;
        }
        if self.session.tabs[index].saved {
            return Some(Effect::ReloadTab(index));
        }
        if !self.refresh_confirm.visible && !self.refresh_confirm.proceed
            && self.refresh_confirm.pending.is_none() {
            self.refresh_confirm.ask(
                String::from_str(
                    "You have some unsaved changes, Do you still want to refresh this document ?",
                ),
                String::from_str("Confirm Refresh"),
                PendingAction::RefreshTab(index),
            );
        }
        None
    }

    /// Routes a request to end the session: with every tab saved the exit
    /// may proceed at once; otherwise the exit gate asks, with a prompt
    /// rebuilt to list the display name of every unsaved tab.
    pub fn request_exit(&mut self) -> (r: bool)
        requires
            old(self).wf(),
        ensures
            final(self).wf(),
            final(self).session == old(self).session,
            final(self).theme == old(self).theme,
            final(self).close_tab_confirm == old(self).close_tab_confirm,
            final(self).refresh_confirm == old(self).refresh_confirm,
            r == !any_unsaved(old(self).session.tabs@),
            !any_unsaved(old(self).session.tabs@) ==> *final(self) == *old(self),
            any_unsaved(old(self).session.tabs@) && old(self).exit_confirm.is_idle()
                ==> {
                &&& final(self).exit_confirm.visible
                &&& !final(self).exit_confirm.proceed
                &&& final(self).exit_confirm.pending == Some(PendingAction::Exit)
                &&& final(self).exit_confirm.prompt@ == exit_prompt_of(
                    old(self).session.tabs@,
                )
                &&& final(self).exit_confirm.title@ == "Confirm Exit"@
            },
            any_unsaved(old(self).session.tabs@) && !old(self).exit_confirm.is_idle()
                ==> {
                &&& final(self).exit_confirm.prompt@ == exit_prompt_of(
                    old(self).session.tabs@,
                )
                &&& final(self).exit_confirm.visible == old(self).exit_confirm.visible
                &&& final(self).exit_confirm.proceed == old(self).exit_confirm.proceed
                &&& final(self).exit_confirm.pending == old(self).exit_confirm.pending
                &&& final(self).exit_confirm.title == old(self).exit_confirm.title
            },
    {
        if !self.has_unsaved() {
            return true;
        }
        let prompt = self.build_exit_prompt();
        if !self.exit_confirm.visible && !self.exit_confirm.proceed
            && self.exit_confirm.pending.is_none() {
            self.exit_confirm.ask(
                prompt,
                String::from_str("Confirm Exit"),
                PendingAction::Exit,
            );
        } else {
            // The question is rebuilt every time the request fires, so a
            // prompt already on screen never lists a stale set of tabs.
            self.exit_confirm.prompt = prompt;
        }
        false
    }

    /// Consumes the answered gates, one tick's worth: a confirmed close is
    /// applied to the session, a confirmed refresh or exit is handed back
    /// for the caller to perform, and every consumed gate returns to Idle.
    /// A gate whose answer was never set changes nothing.
    pub fn handle_confirm(&mut self) -> (r: Option<Effect>)
        requires
            old(self).wf(),
        ensures
            final(self).wf(),
            final(self).theme == old(self).theme,
            old(self).close_tab_confirm.proceed ==> final(self).close_tab_confirm.is_idle(),
            !old(self).close_tab_confirm.proceed ==> final(self).close_tab_confirm == old(self).close_tab_confirm,
            close_fires(*old(self)) ==> (old(self).close_tab_confirm.pending matches Some(
                PendingAction::CloseTab(i),
            ) && deleted_rel(old(self).session, final(self).session, i as int)),
            !close_fires(*old(self)) ==> final(self).session == old(self).session,
            old(self).refresh_confirm.proceed ==> final(self).refresh_confirm.is_idle(),
            !old(self).refresh_confirm.proceed ==> final(self).refresh_confirm == old(self).refresh_confirm,
            refresh_fires(*old(self), final(self).session.tabs@.len() as int) ==> (old(self).refresh_confirm.pending matches Some(PendingAction::RefreshTab(i)) && r
                == Some(Effect::ReloadTab(i))),
            refresh_fires(*old(self), final(self).session.tabs@.len() as int) ==> final(self).exit_confirm == old(self).exit_confirm,
            !refresh_fires(*old(self), final(self).session.tabs@.len() as int) && old(self).exit_confirm.proceed ==> r == Some(Effect::Exit) && final(self).exit_confirm.is_idle(),
            !refresh_fires(*old(self), final(self).session.tabs@.len() as int) && !old(self).exit_confirm.proceed ==> r is None && final(self).exit_confirm == old(self).exit_confirm,
    {
        if self.close_tab_confirm.proceed {
            let pending = self.close_tab_confirm.pending;
            self.close_tab_confirm.close();
            match pending {
                Some(PendingAction::CloseTab(i)) => {
                    if i < self.session.tabs.len() {
                        self.session.delete_tab(i);
                    }
                },
                _ => {},
            }
        }
        if self.refresh_confirm.proceed {
            let pending = self.refresh_confirm.pending;
            self.refresh_confirm.close();
            match pending {
                Some(PendingAction::RefreshTab(i)) => {
                    if i < self.session.tabs.len() {
                        return Some(Effect::ReloadTab(i));
                    }
                },
                _ => {},
            }
        }
        if self.exit_confirm.proceed {
            self.exit_confirm.close();
            return Some(Effect::Exit);
        }
        None
    }

    /// Applies a reload released by `request_refresh` or `handle_confirm`:
    /// the tab takes the content re-read from its path and becomes clean.
    /// An index past the end (possible only if tabs were closed in between)
    /// changes nothing.
    pub fn apply_reload(&mut self, index: usize, code: String)
        requires
            old(self).wf(),
        ensures
            final(self).wf(),
            final(self).theme == old(self).theme,
            final(self).close_tab_confirm == old(self).close_tab_confirm,
            final(self).refresh_confirm == old(self).refresh_confirm,
            final(self).exit_confirm == old(self).exit_confirm,
            index >= old(self).session.tabs@.len() ==> *final(self) == *old(self),
            index < old(self).session.tabs@.len() ==> {
                &&& final(self).session.tabs@.len() == old(self).session.tabs@.len()
                &&& final(self).session.selected == old(self).session.selected
                &&& final(self).session.tabs@[index as int].code == code
                &&& final(self).session.tabs@[index as int].saved
                &&& final(self).session.tabs@[index as int].path == old(self).session.tabs@[index as int].path
                &&& forall|j: int|
                    0 <= j < old(self).session.tabs@.len() && j != index ==> final(self).session.tabs@[j] == old(self).session.tabs@[j]
            },
    {
        if index < self.session.tabs.len() {
            self.session.refresh(index, code);
        }
    }

    /// The session reduced to its persisted shape: every tab path, in
    /// order, and the theme index.
    pub fn to_app_state(&self) -> (st: AppState)
        requires
            self.wf(),
        ensures
            st.tabs.deep_view() == self.session.paths(),
            st.theme == self.theme,
    {
        let mut tabs: Vec<String> = Vec::new();
        let mut i: usize = 0;
        while i < self.session.tabs.len()
            invariant
                i <= self.session.tabs@.len(),
                tabs.deep_view() =~= self.session.paths().take(i as int),
            decreases self.session.tabs@.len() - i,
        {
            let ghost prev = tabs.deep_view();
            let p = self.session.tabs[i].path.clone();
            tabs.push(p);
            proof {
                assert(tabs@.len() == prev.len() + 1);
                assert forall|k: int| 0 <= k < tabs@.len() implies tabs.deep_view()[k]
                    == self.session.paths().take(i + 1)[k] by {
                    if k < prev.len() {
                        assert(tabs.deep_view()[k] == prev[k]);
                    } else {
                        assert(tabs.deep_view()[k] == tabs@[k]@);
                        assert(tabs@[k]@ == self.session.tabs@[i as int].path@);
                    }
                }
                assert(tabs.deep_view() =~= self.session.paths().take(i + 1));
            }
            i += 1;
        }
        proof {
            assert(self.session.paths().take(self.session.paths().len() as int)
                =~= self.session.paths());
        }
        AppState { tabs, theme: self.theme }
    }
}

/// The paths a restored session opens: the persisted paths whose display
/// name is not the `untitled` sentinel, in order.
pub open spec fn kept_paths(ps: Seq<Seq<char>>) -> Seq<Seq<char>>
    decreases ps.len(),
{
    if ps.len() == 0 {
        Seq::empty()
    } else {
        kept_paths(ps.drop_last()) + if name_of(ps.last()) != crate::session::untitled() {
            seq![ps.last()]
        } else {
            Seq::<Seq<char>>::empty()
        }
    }
}

/// Restoring never yields more tabs than were persisted.
pub proof fn lemma_kept_paths_len(ps: Seq<Seq<char>>)
    ensures
        kept_paths(ps).len() <= ps.len(),
    decreases ps.len(),
{
    if ps.len() > 0 {
        lemma_kept_paths_len(ps.drop_last());
    }
}

impl Editor {
    /// Rebuilds an editor from a persisted snapshot: one clean tab per
    /// non-untitled path, in order and bounded by capacity, each awaiting
    /// its buffer content from disk; with no such path, the single fresh
    /// default tab. The last tab is selected and all gates start idle.
    pub fn from_app_state(state: AppState) -> (e: Editor)
        ensures
            e.wf(),
            e.theme == state.theme,
            e.close_tab_confirm.is_idle(),
            e.refresh_confirm.is_idle(),
            e.exit_confirm.is_idle(),
            e.session.selected == e.session.tabs@.len() - 1,
            kept_paths(state.tabs.deep_view()).len() == 0 ==> e.session.tabs@.len() == 1
                && is_default_tab(e.session.tabs@[0]),
            kept_paths(state.tabs.deep_view()).len() > 0 ==> {
                &&& e.session.paths() == if kept_paths(state.tabs.deep_view()).len()
                    <= MAX_TABS {
                    kept_paths(state.tabs.deep_view())
                } else {
                    kept_paths(state.tabs.deep_view()).take(MAX_TABS as int)
                }
                &&& forall|j: int|
                    0 <= j < e.session.tabs@.len() ==> {
                        &&& e.session.tabs@[j].saved
                        &&& e.session.tabs@[j].code@ == Seq::<char>::empty()
                        &&& e.session.tabs@[j].language@ == language_of(
                            name_of(e.session.tabs@[j].path@),
                        )
                    }
            },
    {
        let ghost ps = state.tabs.deep_view();
        let mut tabs: Vec<Tab> = Vec::new();
        let mut i: usize = 0;
        proof {
            assert(kept_paths(ps.take(0)) =~= Seq::<Seq<char>>::empty());
            assert(tabs@.map_values(|t: Tab| t.path@) =~= Seq::<Seq<char>>::empty());
        }
        while i < state.tabs.len()
            invariant
                ps == state.tabs.deep_view(),
                ps.len() == state.tabs@.len(),
                i <= state.tabs@.len(),
                tabs@.len() <= MAX_TABS,
                kept_paths(ps.take(i as int)).len() <= MAX_TABS ==> tabs@.map_values(
                    |t: Tab| t.path@,
                ) == kept_paths(ps.take(i as int)),
                kept_paths(ps.take(i as int)).len() > MAX_TABS ==> tabs@.map_values(
                    |t: Tab| t.path@,
                ) == kept_paths(ps.take(i as int)).take(MAX_TABS as int),
                forall|j: int|
                    0 <= j < tabs@.len() ==> {
                        &&& tabs@[j].saved
                        &&& tabs@[j].code@ == Seq::<char>::empty()
                        &&& tabs@[j].language@ == language_of(name_of(tabs@[j].path@))
                    },
            decreases state.tabs@.len() - i,
        {
            proof {
                assert(ps.take(i + 1).drop_last() =~= ps.take(i as int));
                assert(ps.take(i + 1).last() == ps[i as int]);
                assert(ps[i as int] == state.tabs@[i as int]@);
            }
            let name = base_name(state.tabs[i].as_str());
            if !str_eq(name.as_str(), "untitled") {
                if tabs.len() < MAX_TABS {
                    let lang = derive_language(name.as_str());
                    let tab = Tab {
                        path: state.tabs[i].clone(),
                        code: String::new(),
                        language: lang,
                        saved: true,
                        scroll_offset: 0,
                        last_cursor: None,
                    };
                    tabs.push(tab);
                    proof {
                        assert(kept_paths(ps.take(i + 1)) =~= kept_paths(
                            ps.take(i as int),
                        ).push(ps[i as int]));
                        assert(tabs@.map_values(|t: Tab| t.path@) =~= kept_paths(
                            ps.take(i + 1),
                        ));
                    }
                } else {
                    proof {
                        assert(kept_paths(ps.take(i + 1)) =~= kept_paths(
                            ps.take(i as int),
                        ).push(ps[i as int]));
                        if kept_paths(ps.take(i as int)).len() <= MAX_TABS {
                            assert(kept_paths(ps.take(i as int)).len() == tabs@.len());
                            assert(kept_paths(ps.take(i + 1)).take(MAX_TABS as int)
                                =~= kept_paths(ps.take(i as int)));
                        } else {
                            assert(kept_paths(ps.take(i + 1)).take(MAX_TABS as int)
                                =~= kept_paths(ps.take(i as int)).take(MAX_TABS as int));
                        }
                    }
                }
            } else {
                proof {
                    assert(kept_paths(ps.take(i + 1)) =~= kept_paths(ps.take(i as int)));
                }
            }
            i += 1;
        }
        proof {
            assert(ps.take(ps.len() as int) =~= ps);
        }
        if tabs.len() == 0 {
            tabs.push(Tab::default());
            proof {
                assert(kept_paths(ps).len() == 0);
            }
        }
        let sel = tabs.len() - 1;
        Editor {
            session: SessionStore { tabs, selected: sel },
            theme: state.theme,
            close_tab_confirm: ConfirmationGate::new(),
            refresh_confirm: ConfirmationGate::new(),
            exit_confirm: ConfirmationGate::new(),
        }
    }
}

/// Persistence round trip: a session's saved snapshot, written as JSON and
/// parsed back, yields exactly the paths and theme it was built from; and
/// restoring keeps every non-untitled path (a session holds at most
/// `MAX_TABS` tabs, so no restored path is dropped for capacity), so the
/// reconstructed session's tab paths are exactly the saved session's
/// non-untitled paths and its theme index is unchanged.
pub proof fn lemma_persistence_round_trip(paths: Seq<Seq<char>>, theme: nat)
    requires
        paths.len() <= MAX_TABS,
        theme <= usize::MAX,
    ensures
        crate::persist::sp_state(crate::persist::enc_state(paths, theme)) == Some(
            (paths, theme),
        ),
        kept_paths(paths).len() <= MAX_TABS,
{
    crate::persist::lemma_state_round_trip(paths, theme);
    lemma_kept_paths_len(paths);
}

} // verus!
