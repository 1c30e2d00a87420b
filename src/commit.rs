//! Posting the mention comment, then saving the state: the state changes only
//! after a confirmed post.
use vstd::prelude::*;
use crate::aggregate::MentionState;

verus! {

#[derive(PartialEq, Eq, Structural, Clone, Copy, Debug)]
pub enum CommitPhase {
    /// Nothing done yet.
    Start,
    /// The comment has been handed out for posting.
    Posting,
    /// The comment is posted; the new state has been handed out for saving.
    Saving,
    /// Finished: nothing to post, or posted and saved.
    Done,
    /// Stopped on a failed post or save.
    Failed,
}

/// What the caller is to do next.
#[derive(Debug)]
pub enum CommitAction {
    /// Post this comment on the issue, then report with `on_posted`.
    Post(String),
    /// Save this state under the issue, then report with `on_saved`.
    Save(MentionState),
    /// Finished with success.
    Finish,
    /// Finished with the failure just reported.
    Abort,
    /// The report did not fit the phase: nothing to do.
    Idle,
}

pub enum ActionView {
    Post(Seq<char>),
    Save(Seq<Seq<char>>),
    Finish,
    Abort,
    Idle,
}

impl View for CommitAction {
    type V = ActionView;

    open spec fn view(&self) -> ActionView {
        match self {
            CommitAction::Post(c) => ActionView::Post(c@),
            CommitAction::Save(s) => ActionView::Save(s@),
            CommitAction::Finish => ActionView::Finish,
            CommitAction::Abort => ActionView::Abort,
            CommitAction::Idle => ActionView::Idle,
        }
    }
}

/// The committing of one aggregation's result on one issue.
pub struct Committer {
    pub phase: CommitPhase,
    pub comment: Option<String>,
    pub next: MentionState,
    pub saved: MentionState,
}

pub struct CommitterView {
    pub phase: CommitPhase,
    pub comment: Option<Seq<char>>,
    /// The state to save once the comment is posted.
    pub next: Seq<Seq<char>>,
    /// The state as it stands saved.
    pub saved: Seq<Seq<char>>,
}

impl View for Committer {
    type V = CommitterView;

    open spec fn view(&self) -> CommitterView {
        CommitterView {
            phase: self.phase,
            comment: match self.comment {
                Some(c) => Some(c@),
                None => None,
            },
            next: self.next@,
            saved: self.saved@,
        }
    }
}

pub open spec fn initial(
    prior: Seq<Seq<char>>,
    comment: Option<Seq<char>>,
    next: Seq<Seq<char>>,
) -> CommitterView {
    CommitterView { phase: CommitPhase::Start, comment, next, saved: prior }
}

pub open spec fn with_phase(c: CommitterView, phase: CommitPhase) -> CommitterView {
    CommitterView { phase, ..c }
}

/// The first step: post the comment, or finish where there is none.
pub open spec fn start_step(c: CommitterView) -> (CommitterView, ActionView) {
    if c.phase == CommitPhase::Start {
        match c.comment {
            Some(text) => (with_phase(c, CommitPhase::Posting), ActionView::Post(text)),
            None => (with_phase(c, CommitPhase::Done), ActionView::Finish),
        }
    } else {
        (c, ActionView::Idle)
    }
}

/// After the post: save the new state, or stop with the state untouched.
pub open spec fn posted_step(c: CommitterView, ok: bool) -> (CommitterView, ActionView) {
    if c.phase == CommitPhase::Posting {
        if ok {
            (with_phase(c, CommitPhase::Saving), ActionView::Save(c.next))
        } else {
            (with_phase(c, CommitPhase::Failed), ActionView::Abort)
        }
    } else {
        (c, ActionView::Idle)
    }
}

/// After the save: the new state stands saved, or the save failed.
pub open spec fn saved_step(c: CommitterView, ok: bool) -> (CommitterView, ActionView) {
    if c.phase == CommitPhase::Saving {
        if ok {
            (CommitterView { phase: CommitPhase::Done, saved: c.next, ..c }, ActionView::Finish)
        } else {
            (with_phase(c, CommitPhase::Failed), ActionView::Abort)
        }
    } else {
        (c, ActionView::Idle)
    }
}

impl Committer {
    /// A committer for `comment` and the state `next` that goes with it, on an
    /// issue whose saved state is `prior`.
    pub fn new(prior: MentionState, comment: Option<String>, next: MentionState) -> (r: Committer)
        ensures
            r@ == initial(
                prior@,
                match comment {
                    Some(c) => Some(c@),
                    None => None,
                },
                next@,
            ),
    {
        Committer { phase: CommitPhase::Start, comment, next, saved: prior }
    }

    pub fn phase(&self) -> (r: CommitPhase)
        ensures
            r == self@.phase,
    {
        self.phase
    }

    /// The state as it stands saved.
    pub fn saved(&self) -> (r: &MentionState)
        ensures
            r@ == self@.saved,
    {
        &self.saved
    }

    pub fn start(&mut self) -> (r: CommitAction)
        ensures
            (final(self)@, r@) == start_step(old(self)@),
    {
        if self.phase != CommitPhase::Start {
            return CommitAction::Idle;
        }
        match &self.comment {
            Some(text) => {
                let t = text.clone();
                self.phase = CommitPhase::Posting;
                CommitAction::Post(t)
            },
            None => {
                self.phase = CommitPhase::Done;
                CommitAction::Finish
            },
        }
    }

    pub fn on_posted(&mut self, ok: bool) -> (r: CommitAction)
        ensures
            (final(self)@, r@) == posted_step(old(self)@, ok),
    {
        if self.phase != CommitPhase::Posting {
            return CommitAction::Idle;
        }
        if ok {
            self.phase = CommitPhase::Saving;
            CommitAction::Save(self.next.copy())
        } else {
            self.phase = CommitPhase::Failed;
            CommitAction::Abort
        }
    }

    pub fn on_saved(&mut self, ok: bool) -> (r: CommitAction)
        ensures
            (final(self)@, r@) == saved_step(old(self)@, ok),
    {
        if self.phase != CommitPhase::Saving {
            return CommitAction::Idle;
        }
        if ok {
            self.phase = CommitPhase::Done;
            self.saved = self.next.copy();
            CommitAction::Finish
        } else {
            self.phase = CommitPhase::Failed;
            CommitAction::Abort
        }
    }
}

/// A failed post leaves the saved state as it was before the event: nothing
/// is saved for a comment that was not posted.
pub proof fn failed_post_keeps_prior_state(
    prior: Seq<Seq<char>>,
    comment: Option<Seq<char>>,
    next: Seq<Seq<char>>,
)
    ensures
        posted_step(start_step(initial(prior, comment, next)).0, false).0.saved == prior,
        posted_step(start_step(initial(prior, comment, next)).0, false).1 != ActionView::Save(next),
{
}

} // verus!
