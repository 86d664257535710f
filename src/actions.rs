//! Kinds of reversible mail actions, and a builder that gathers what an action
//! touched.
use vstd::prelude::*;

use crate::domain::{LabelId, ThreadId};
use crate::text::decimal_of;
use crate::undo::{action_description, kind_name, ActionState, UndoableAction};

verus! {

/// Kinds of actions on threads.
#[derive(Debug, Clone, Copy, PartialEq, Eq, Structural)]
pub enum ActionType {
    Archive,
    /// Moved to the trash.
    Delete,
    PermanentDelete,
    /// Moved to another folder.
    Move,
    MarkRead,
    MarkUnread,
    Star,
    Unstar,
    AddLabels,
    RemoveLabels,
    ReportSpam,
    NotSpam,
    Snooze,
    Send,
}

/// The past-tense description of an action.
pub open spec fn description_of(a: ActionType) -> Seq<char> {
    match a {
        ActionType::Archive => "archived"@,
        ActionType::Delete => "deleted"@,
        ActionType::PermanentDelete => "permanently deleted"@,
        ActionType::Move => "moved"@,
        ActionType::MarkRead => "marked as read"@,
        ActionType::MarkUnread => "marked as unread"@,
        ActionType::Star => "starred"@,
        ActionType::Unstar => "unstarred"@,
        ActionType::AddLabels => "labeled"@,
        ActionType::RemoveLabels => "unlabeled"@,
        ActionType::ReportSpam => "reported as spam"@,
        ActionType::NotSpam => "marked as not spam"@,
        ActionType::Snooze => "snoozed"@,
        ActionType::Send => "sent"@,
    }
}

impl ActionType {
    /// The past-tense description ("archived", "marked as read", ...).
    pub fn description(&self) -> (r: &'static str)
        ensures
            r@ == description_of(*self),
    {
        match self {
            ActionType::Archive => "archived",
            ActionType::Delete => "deleted",
            ActionType::PermanentDelete => "permanently deleted",
            ActionType::Move => "moved",
            ActionType::MarkRead => "marked as read",
            ActionType::MarkUnread => "marked as unread",
            ActionType::Star => "starred",
            ActionType::Unstar => "unstarred",
            ActionType::AddLabels => "labeled",
            ActionType::RemoveLabels => "unlabeled",
            ActionType::ReportSpam => "reported as spam",
            ActionType::NotSpam => "marked as not spam",
            ActionType::Snooze => "snoozed",
            ActionType::Send => "sent",
        }
    }

    /// Whether the action can be undone: all but a permanent deletion and a send.
    pub fn is_undoable(&self) -> (r: bool)
        ensures
            r == !(*self == ActionType::PermanentDelete || *self == ActionType::Send),
    {
        match self {
            ActionType::PermanentDelete | ActionType::Send => false,
            _ => true,
        }
    }
}

/// What a builder has gathered, as mathematical values.
pub struct ActionDraft {
    pub action_type: ActionType,
    pub thread_ids: Seq<Seq<char>>,
    pub original_folder: Option<Seq<char>>,
    pub target_folder: Option<Seq<char>>,
    pub labels: Seq<Seq<char>>,
    pub read_states: Seq<(Seq<char>, bool)>,
    pub starred_states: Seq<(Seq<char>, bool)>,
}

pub open spec fn id_texts(v: Seq<String>) -> Seq<Seq<char>> {
    v.map_values(|s: String| s@)
}

pub open spec fn flag_texts(v: Seq<(String, bool)>) -> Seq<(Seq<char>, bool)> {
    v.map_values(|p: (String, bool)| (p.0@, p.1))
}

pub open spec fn opt_id(o: Option<String>) -> Option<Seq<char>> {
    match o {
        Some(s) => Some(s@),
        None => None,
    }
}

/// Gathers the threads, folders, labels and prior states that one action touched.
pub struct ActionBuilder {
    action_type: ActionType,
    thread_ids: Vec<ThreadId>,
    original_folder: Option<LabelId>,
    target_folder: Option<LabelId>,
    labels: Vec<LabelId>,
    read_states: Vec<(ThreadId, bool)>,
    starred_states: Vec<(ThreadId, bool)>,
}

impl View for ActionBuilder {
    type V = ActionDraft;

    closed spec fn view(&self) -> ActionDraft {
        ActionDraft {
            action_type: self.action_type,
            thread_ids: id_texts(self.thread_ids@),
            original_folder: opt_id(self.original_folder),
            target_folder: opt_id(self.target_folder),
            labels: id_texts(self.labels@),
            read_states: flag_texts(self.read_states@),
            starred_states: flag_texts(self.starred_states@),
        }
    }
}

impl ActionBuilder {
    /// A builder for an action of the given kind that has touched nothing yet.
    pub fn new(action_type: ActionType) -> (r: Self)
        ensures
            r@ == (ActionDraft {
                action_type,
                thread_ids: Seq::empty(),
                original_folder: None,
                target_folder: None,
                labels: Seq::empty(),
                read_states: Seq::empty(),
                starred_states: Seq::empty(),
            }),
    {
        let r = ActionBuilder {
            action_type,
            thread_ids: Vec::new(),
            original_folder: None,
            target_folder: None,
            labels: Vec::new(),
            read_states: Vec::new(),
            starred_states: Vec::new(),
        };
        assert(id_texts(r.thread_ids@) =~= Seq::empty());
        assert(id_texts(r.labels@) =~= Seq::empty());
        assert(flag_texts(r.read_states@) =~= Seq::empty());
        assert(flag_texts(r.starred_states@) =~= Seq::empty());
        r
    }

    /// Adds threads after those already gathered.
    pub fn threads(self, ids: Vec<ThreadId>) -> (r: Self)
        ensures
            r@ == (ActionDraft { thread_ids: self@.thread_ids + id_texts(ids@), ..self@ }),
    {
        let mut b = self;
        let mut ids = ids;
        let ghost before = b.thread_ids@;
        let ghost added = ids@;
        b.thread_ids.append(&mut ids);
        assert(id_texts(b.thread_ids@) =~= id_texts(before) + id_texts(added));
        b
    }

    /// Sets the folder the threads were in.
    pub fn from_folder(self, folder: LabelId) -> (r: Self)
        ensures
            r@ == (ActionDraft { original_folder: Some(folder@), ..self@ }),
    {
        let mut b = self;
        b.original_folder = Some(folder);
        b
    }

    /// Sets the folder the threads went to.
    pub fn to_folder(self, folder: LabelId) -> (r: Self)
        ensures
            r@ == (ActionDraft { target_folder: Some(folder@), ..self@ }),
    {
        let mut b = self;
        b.target_folder = Some(folder);
        b
    }

    /// Adds labels after those already gathered.
    pub fn labels(self, labels: Vec<LabelId>) -> (r: Self)
        ensures
            r@ == (ActionDraft { labels: self@.labels + id_texts(labels@), ..self@ }),
    {
        let mut b = self;
        let mut labels = labels;
        let ghost before = b.labels@;
        let ghost added = labels@;
        b.labels.append(&mut labels);
        assert(id_texts(b.labels@) =~= id_texts(before) + id_texts(added));
        b
    }

    /// Adds the read states that threads had before the action.
    pub fn read_states(self, states: Vec<(ThreadId, bool)>) -> (r: Self)
        ensures
            r@ == (ActionDraft { read_states: self@.read_states + flag_texts(states@), ..self@ }),
    {
        let mut b = self;
        let mut states = states;
        let ghost before = b.read_states@;
        let ghost added = states@;
        b.read_states.append(&mut states);
        assert(flag_texts(b.read_states@) =~= flag_texts(before) + flag_texts(added));
        b
    }

    /// Adds the starred states that threads had before the action.
    pub fn starred_states(self, states: Vec<(ThreadId, bool)>) -> (r: Self)
        ensures
            r@ == (ActionDraft {
                starred_states: self@.starred_states + flag_texts(states@),
                ..self@
            }),
    {
        let mut b = self;
        let mut states = states;
        let ghost before = b.starred_states@;
        let ghost added = states@;
        b.starred_states.append(&mut states);
        assert(flag_texts(b.starred_states@) =~= flag_texts(before) + flag_texts(added));
        b
    }

    /// The action gathered so far, performed at `now_ms` (milliseconds since the
    /// Unix epoch); the labels are those it affected.
    pub fn build(self, now_ms: u64) -> (r: UndoableAction)
        ensures
            r.action_type == self@.action_type,
            id_texts(r.before_state.thread_ids@) == self@.thread_ids,
            opt_id(r.before_state.original_folder) == self@.original_folder,
            opt_id(r.before_state.target_folder) == self@.target_folder,
            r.before_state.original_labels@.len() == 0,
            id_texts(r.before_state.affected_labels@) == self@.labels,
            flag_texts(r.before_state.read_states@) == self@.read_states,
            flag_texts(r.before_state.starred_states@) == self@.starred_states,
            r.before_state.snooze_until is None,
            r.performed_at == now_ms,
            r.id@ == kind_name(self@.action_type) + "-"@ + decimal_of(now_ms as nat),
            r.description@ == action_description(self@.action_type, self@.thread_ids.len()),
            r.item_count == self@.thread_ids.len(),
    {
        let state = ActionState {
            thread_ids: self.thread_ids,
            original_folder: self.original_folder,
            target_folder: self.target_folder,
            original_labels: Vec::new(),
            affected_labels: self.labels,
            read_states: self.read_states,
            starred_states: self.starred_states,
            snooze_until: None,
        };
        UndoableAction::new(self.action_type, state, now_ms)
    }
}

} // verus!
