//! A reusable yes/no workflow guarding one pending destructive action.
//! Lifecycle: Idle, then Asking once `ask` stores the prompt and the action
//! context, then Answered once the user sets `proceed`; the consumer
//! observes `proceed`, acts on it, and `close` unconditionally returns
//! everything to Idle, so a declined action leaves it ready for reuse.

use vstd::prelude::*;
use vstd::string::*;

verus! {

/// The destructive intent a confirmation guards, stored alongside the
/// question so no stale sibling context can outlive it.
#[derive(PartialEq, Eq, Structural, Clone, Copy, Debug)]
pub enum PendingAction {
    CloseTab(usize),
    RefreshTab(usize),
    Exit,
}

/// One confirmation workflow: the question shown to the user, whether it is
/// on screen, the recorded assent, and the guarded action.
pub struct ConfirmationGate {
    pub prompt: String,
    pub title: String,
    pub visible: bool,
    pub proceed: bool,
    pub pending: Option<PendingAction>,
}

/// The workflow state after `ask`: visible, not yet assented, with the
/// question and the guarded action stored.
pub open spec fn spec_ask(
    g: ConfirmationGate,
    prompt: String,
    title: String,
    action: PendingAction,
) -> ConfirmationGate {
    ConfirmationGate {
        prompt,
        title,
        visible: true,
        proceed: false,
        pending: Some(action),
    }
}

/// The workflow state after `close`: back to Idle with both `visible` and
/// `proceed` cleared and no action pending, whatever the answer was.
pub open spec fn spec_close(g: ConfirmationGate) -> ConfirmationGate {
    ConfirmationGate { visible: false, proceed: false, pending: None, ..g }
}

impl ConfirmationGate {
    /// Idle: nothing shown, no assent recorded, no action pending.
    pub open spec fn is_idle(&self) -> bool {
        &&& !self.visible
        &&& !self.proceed
        &&& self.pending is None
    }

    pub fn new() -> (g: ConfirmationGate)
        ensures
            g.is_idle(),
            g.prompt@ == Seq::<char>::empty(),
            g.title@ == Seq::<char>::empty(),
    {
        ConfirmationGate {
            prompt: String::new(),
            title: String::new(),
            visible: false,
            proceed: false,
            pending: None,
        }
    }

    /// Raises the question; only valid from Idle. Stores the prompt, the
    /// title and the action to perform if the user assents.
    pub fn ask(&mut self, prompt: String, title: String, action: PendingAction)
        requires
            old(self).is_idle(),
        ensures
            *final(self) == spec_ask(*old(self), prompt, title, action),
    {
        self.prompt = prompt;
        self.title = title;
        self.visible = true;
        self.proceed = false;
        self.pending = Some(action);
    }

    /// Records the user's answer; every other field is kept.
    pub fn answer(&mut self, yes: bool)
        requires
            old(self).visible,
        ensures
            final(self).proceed == yes,
            final(self).visible == old(self).visible,
            final(self).prompt == old(self).prompt,
            final(self).title == old(self).title,
            final(self).pending == old(self).pending,
    {
        self.proceed = yes;
    }

    /// Unconditionally returns the workflow to Idle: clears `visible` and
    /// `proceed` and drops the pending action, regardless of the answer.
    pub fn close(&mut self)
        ensures
            *final(self) == spec_close(*old(self)),
            final(self).is_idle(),
    {
        self.visible = false;
        self.proceed = false;
        self.pending = None;
    }
}

/// Asking and then closing without any assent never records `proceed`, so
/// the guarded action is never released to its consumer, and the workflow
/// ends Idle, ready for reuse.
pub proof fn lemma_declined_gate_stays_idle(
    g: ConfirmationGate,
    prompt: String,
    title: String,
    action: PendingAction,
)
    requires
        g.is_idle(),
    ensures
        !spec_ask(g, prompt, title, action).proceed,
        spec_close(spec_ask(g, prompt, title, action)).is_idle(),
{
}

} // verus!
