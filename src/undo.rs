//! Undo and redo of mail actions within a time window.
//!
//! Times are plain values: milliseconds since the Unix epoch, read by the caller,
//! and durations in milliseconds.
use std::collections::VecDeque;

use vstd::prelude::*;

use crate::actions::{description_of, ActionType};
use crate::domain::{LabelId, ThreadId};
use crate::text::{append_text, decimal_of, decimal_text};

verus! {

/// Most actions kept on either stack.
pub const MAX_HISTORY_SIZE: usize = 100;

/// How long an action can be undone, in milliseconds.
pub const DEFAULT_UNDO_WINDOW_MS: u64 = 30_000;

/// What threads looked like before an action, so that it can be reversed.
#[derive(Debug, Clone)]
pub struct ActionState {
    pub thread_ids: Vec<ThreadId>,
    /// Folder the threads were in (move, archive, delete).
    pub original_folder: Option<LabelId>,
    /// Folder the threads went to (move).
    pub target_folder: Option<LabelId>,
    pub original_labels: Vec<LabelId>,
    /// Labels added or removed.
    pub affected_labels: Vec<LabelId>,
    /// Read state of each thread before the action.
    pub read_states: Vec<(ThreadId, bool)>,
    /// Starred state of each thread before the action.
    pub starred_states: Vec<(ThreadId, bool)>,
    /// End of a snooze, in milliseconds since the Unix epoch.
    pub snooze_until: Option<i64>,
}

/// The thread identities of a list of per-thread flags.
pub open spec fn flag_ids(states: Seq<(ThreadId, bool)>) -> Seq<Seq<char>> {
    states.map_values(|p: (ThreadId, bool)| p.0@)
}

pub open spec fn ids_of(v: Seq<String>) -> Seq<Seq<char>> {
    v.map_values(|s: String| s@)
}

/// Whether a state holds nothing but what its constructor sets.
pub open spec fn rest_empty(s: ActionState, folders: bool, labels: bool, reads: bool, stars: bool) -> bool {
    &&& (!folders ==> s.original_folder is None && s.target_folder is None)
    &&& (!labels ==> s.original_labels@.len() == 0 && s.affected_labels@.len() == 0)
    &&& (!reads ==> s.read_states@.len() == 0)
    &&& (!stars ==> s.starred_states@.len() == 0)
    &&& s.snooze_until is None
}

fn thread_ids_of(states: &Vec<(ThreadId, bool)>) -> (r: Vec<ThreadId>)
    ensures
        ids_of(r@) == flag_ids(states@),
{
    let mut r: Vec<ThreadId> = Vec::new();
    for i in 0..states.len()
        invariant
            r@.len() == i,
            ids_of(r@) == flag_ids(states@).take(i as int),
    {
        let id = states[i].0.clone();
        let ghost before = r@;
        r.push(id);
        assert(ids_of(r@) =~= ids_of(before).push(flag_ids(states@)[i as int]));
        assert(flag_ids(states@).take(i + 1) =~= flag_ids(states@).take(i as int).push(
            flag_ids(states@)[i as int],
        ));
    }
    assert(flag_ids(states@).take(states@.len() as int) =~= flag_ids(states@));
    r
}

impl ActionState {
    fn empty(thread_ids: Vec<ThreadId>) -> (r: Self)
        ensures
            r.thread_ids == thread_ids,
            rest_empty(r, false, false, false, false),
    {
        ActionState {
            thread_ids,
            original_folder: None,
            target_folder: None,
            original_labels: Vec::new(),
            affected_labels: Vec::new(),
            read_states: Vec::new(),
            starred_states: Vec::new(),
            snooze_until: None,
        }
    }

    /// The state of threads moved from `original` to `target`.
    pub fn folder_move(thread_ids: Vec<ThreadId>, original: LabelId, target: LabelId) -> (r: Self)
        ensures
            r.thread_ids == thread_ids,
            r.original_folder == Some(original),
            r.target_folder == Some(target),
            rest_empty(r, true, false, false, false),
    {
        let mut s = Self::empty(thread_ids);
        s.original_folder = Some(original);
        s.target_folder = Some(target);
        s
    }

    /// The state of threads archived from `original_folder`.
    pub fn archive(thread_ids: Vec<ThreadId>, original_folder: LabelId) -> (r: Self)
        ensures
            r.thread_ids == thread_ids,
            r.original_folder == Some(original_folder),
            r.target_folder is None,
            rest_empty(r, true, false, false, false),
    {
        let mut s = Self::empty(thread_ids);
        s.original_folder = Some(original_folder);
        s
    }

    /// The state of threads deleted from `original_folder`.
    pub fn delete(thread_ids: Vec<ThreadId>, original_folder: LabelId) -> (r: Self)
        ensures
            r.thread_ids == thread_ids,
            r.original_folder == Some(original_folder),
            r.target_folder is None,
            rest_empty(r, true, false, false, false),
    {
        let mut s = Self::empty(thread_ids);
        s.original_folder = Some(original_folder);
        s
    }

    /// The state of threads whose read flags change; `states` holds the flags before.
    pub fn read_state(states: Vec<(ThreadId, bool)>) -> (r: Self)
        ensures
            ids_of(r.thread_ids@) == flag_ids(states@),
            r.read_states == states,
            rest_empty(r, false, false, true, false),
    {
        let ids = thread_ids_of(&states);
        let mut s = Self::empty(ids);
        s.read_states = states;
        s
    }

    /// The state of threads whose starred flags change; `states` holds the flags
    /// before.
    pub fn starred_state(states: Vec<(ThreadId, bool)>) -> (r: Self)
        ensures
            ids_of(r.thread_ids@) == flag_ids(states@),
            r.starred_states == states,
            rest_empty(r, false, false, false, true),
    {
        let ids = thread_ids_of(&states);
        let mut s = Self::empty(ids);
        s.starred_states = states;
        s
    }

    /// The state of threads whose labels change: the labels they had, and those
    /// added or removed.
    pub fn labels(thread_ids: Vec<ThreadId>, original: Vec<LabelId>, affected: Vec<LabelId>) -> (r:
        Self)
        ensures
            r.thread_ids == thread_ids,
            r.original_labels == original,
            r.affected_labels == affected,
            rest_empty(r, false, true, false, false),
    {
        let mut s = Self::empty(thread_ids);
        s.original_labels = original;
        s.affected_labels = affected;
        s
    }
}

/// The name of an action kind, as its variant is written.
pub open spec fn kind_name(a: ActionType) -> Seq<char> {
    match a {
        ActionType::Archive => "Archive"@,
        ActionType::Delete => "Delete"@,
        ActionType::PermanentDelete => "PermanentDelete"@,
        ActionType::Move => "Move"@,
        ActionType::MarkRead => "MarkRead"@,
        ActionType::MarkUnread => "MarkUnread"@,
        ActionType::Star => "Star"@,
        ActionType::Unstar => "Unstar"@,
        ActionType::AddLabels => "AddLabels"@,
        ActionType::RemoveLabels => "RemoveLabels"@,
        ActionType::ReportSpam => "ReportSpam"@,
        ActionType::NotSpam => "NotSpam"@,
        ActionType::Snooze => "Snooze"@,
        ActionType::Send => "Send"@,
    }
}

fn kind_name_text(a: ActionType) -> (r: &'static str)
    ensures
        r@ == kind_name(a),
{
    match a {
        ActionType::Archive => "Archive",
        ActionType::Delete => "Delete",
        ActionType::PermanentDelete => "PermanentDelete",
        ActionType::Move => "Move",
        ActionType::MarkRead => "MarkRead",
        ActionType::MarkUnread => "MarkUnread",
        ActionType::Star => "Star",
        ActionType::Unstar => "Unstar",
        ActionType::AddLabels => "AddLabels",
        ActionType::RemoveLabels => "RemoveLabels",
        ActionType::ReportSpam => "ReportSpam",
        ActionType::NotSpam => "NotSpam",
        ActionType::Snooze => "Snooze",
        ActionType::Send => "Send",
    }
}

/// "<count> conversation(s) <description>".
pub open spec fn action_description(a: ActionType, count: nat) -> Seq<char> {
    decimal_of(count) + if count == 1 {
        " conversation "@
    } else {
        " conversations "@
    } + description_of(a)
}

/// Milliseconds from `start` to `now`; none where `now` is earlier.
pub open spec fn elapsed(start: u64, now: u64) -> int {
    if now >= start {
        now - start
    } else {
        0
    }
}

/// A recorded action.
#[derive(Debug, Clone)]
pub struct UndoableAction {
    /// Identity: the kind's name and the time, as "Archive-1700000000000".
    pub id: String,
    pub action_type: ActionType,
    pub before_state: ActionState,
    /// When it was performed, in milliseconds since the Unix epoch.
    pub performed_at: u64,
    /// Description, as "2 conversations archived".
    pub description: String,
    /// Number of threads touched.
    pub item_count: usize,
}

impl UndoableAction {
    /// The action of kind `action_type` from `before_state`, performed at `now_ms`.
    pub fn new(action_type: ActionType, before_state: ActionState, now_ms: u64) -> (r: Self)
        ensures
            r.id@ == kind_name(action_type) + "-"@ + decimal_of(now_ms as nat),
            r.action_type == action_type,
            r.before_state == before_state,
            r.performed_at == now_ms,
            r.description@ == action_description(action_type, before_state.thread_ids@.len()),
            r.item_count == before_state.thread_ids@.len(),
    {
        let item_count = before_state.thread_ids.len();
        let description = Self::format_description(action_type, item_count);
        let mut id = String::new();
        append_text(&mut id, kind_name_text(action_type));
        append_text(&mut id, "-");
        let stamp = decimal_text(now_ms);
        append_text(&mut id, stamp.as_str());
        proof {
            assert(id@ =~= kind_name(action_type) + "-"@ + decimal_of(now_ms as nat));
        }
        UndoableAction { id, action_type, before_state, performed_at: now_ms, description, item_count }
    }

    fn format_description(action_type: ActionType, count: usize) -> (r: String)
        ensures
            r@ == action_description(action_type, count as nat),
    {
        let mut r = decimal_text(count as u64);
        let noun = if count == 1 {
            " conversation "
        } else {
            " conversations "
        };
        append_text(&mut r, noun);
        append_text(&mut r, action_type.description());
        r
    }

    /// Whether less than `window_ms` has passed since the action, at `now_ms`.
    pub fn is_within_window(&self, now_ms: u64, window_ms: u64) -> (r: bool)
        ensures
            r == (elapsed(self.performed_at, now_ms) < window_ms),
    {
        now_ms.saturating_sub(self.performed_at) < window_ms
    }

    /// Whether the action can be undone at `now_ms`: its kind allows it and the
    /// default window has not passed.
    pub fn can_undo(&self, now_ms: u64) -> (r: bool)
        ensures
            r == (!(self.action_type == ActionType::PermanentDelete || self.action_type
                == ActionType::Send) && elapsed(self.performed_at, now_ms) < DEFAULT_UNDO_WINDOW_MS),
    {
        self.action_type.is_undoable() && self.is_within_window(now_ms, DEFAULT_UNDO_WINDOW_MS)
    }

    /// Milliseconds left of the default window at `now_ms`.
    pub fn time_remaining(&self, now_ms: u64) -> (r: u64)
        ensures
            r == if elapsed(self.performed_at, now_ms) >= DEFAULT_UNDO_WINDOW_MS {
                0
            } else {
                DEFAULT_UNDO_WINDOW_MS - elapsed(self.performed_at, now_ms)
            },
    {
        let e = now_ms.saturating_sub(self.performed_at);
        if e >= DEFAULT_UNDO_WINDOW_MS {
            0
        } else {
            DEFAULT_UNDO_WINDOW_MS - e
        }
    }
}

/// The outcome of performing or undoing an action.
#[derive(Debug)]
pub struct ActionResult {
    pub success: bool,
    pub action: UndoableAction,
    pub error: Option<String>,
}

impl ActionResult {
    /// A success.
    pub fn success(action: UndoableAction) -> (r: Self)
        ensures
            r.success,
            r.action == action,
            r.error is None,
    {
        ActionResult { success: true, action, error: None }
    }

    /// A failure with its message.
    pub fn failure(action: UndoableAction, error: &str) -> (r: Self)
        ensures
            !r.success,
            r.action == action,
            r.error matches Some(e) && e@ == error@,
    {
        ActionResult { success: false, action, error: Some(error.to_owned()) }
    }
}

/// The actions of `s` still within `window` at `now`, in order.
pub open spec fn unexpired(s: Seq<UndoableAction>, now: u64, window: u64) -> Seq<UndoableAction>
    decreases s.len(),
{
    if s.len() == 0 {
        s
    } else if elapsed(s.last().performed_at, now) < window {
        unexpired(s.drop_last(), now, window).push(s.last())
    } else {
        unexpired(s.drop_last(), now, window)
    }
}

/// The last `n` elements of `s`, or all of them where there are fewer.
pub open spec fn keep_last<A>(s: Seq<A>, n: int) -> Seq<A> {
    if s.len() > n {
        s.skip(s.len() - n)
    } else {
        s
    }
}

/// The stacks and settings of an undo service.
pub struct UndoModel {
    /// Actions that can be undone, oldest first.
    pub undo: Seq<UndoableAction>,
    /// Actions that can be redone, oldest first.
    pub redo: Seq<UndoableAction>,
    /// Undo window, in milliseconds.
    pub window: u64,
    pub enabled: bool,
}

/// The action that an undo would take at `now`: the newest, if still in the window.
pub open spec fn undo_top(m: UndoModel, now: u64) -> Option<UndoableAction> {
    if m.undo.len() > 0 && elapsed(m.undo.last().performed_at, now) < m.window {
        Some(m.undo.last())
    } else {
        None
    }
}

/// The action that a redo would take.
pub open spec fn redo_top(m: UndoModel) -> Option<UndoableAction> {
    if m.redo.len() > 0 {
        Some(m.redo.last())
    } else {
        None
    }
}

/// Undo and redo stacks of recent actions.
pub struct UndoService {
    undo_stack: VecDeque<UndoableAction>,
    redo_stack: VecDeque<UndoableAction>,
    undo_window: u64,
    enabled: bool,
}

impl View for UndoService {
    type V = UndoModel;

    closed spec fn view(&self) -> UndoModel {
        UndoModel {
            undo: self.undo_stack@,
            redo: self.redo_stack@,
            window: self.undo_window,
            enabled: self.enabled,
        }
    }
}

fn trim_front(q: &mut VecDeque<UndoableAction>)
    ensures
        final(q)@ == keep_last(old(q)@, MAX_HISTORY_SIZE as int),
{
    while q.len() > MAX_HISTORY_SIZE
        invariant
            keep_last(q@, MAX_HISTORY_SIZE as int) == keep_last(old(q)@, MAX_HISTORY_SIZE as int),
        decreases q@.len(),
    {
        let ghost before = q@;
        q.pop_front();
        assert(keep_last(q@, MAX_HISTORY_SIZE as int) =~= keep_last(before, MAX_HISTORY_SIZE as int));
    }
}

impl UndoService {
    /// Empty stacks, the default window, undo enabled.
    pub fn new() -> (r: Self)
        ensures
            r@ == (UndoModel {
                undo: Seq::empty(),
                redo: Seq::empty(),
                window: DEFAULT_UNDO_WINDOW_MS,
                enabled: true,
            }),
    {
        UndoService {
            undo_stack: VecDeque::new(),
            redo_stack: VecDeque::new(),
            undo_window: DEFAULT_UNDO_WINDOW_MS,
            enabled: true,
        }
    }

    /// Sets the undo window, in milliseconds.
    pub fn set_undo_window(&mut self, window_ms: u64)
        ensures
            final(self)@ == (UndoModel { window: window_ms, ..old(self)@ }),
    {
        self.undo_window = window_ms;
    }

    /// Turns recording on or off.
    pub fn set_enabled(&mut self, enabled: bool)
        ensures
            final(self)@ == (UndoModel { enabled, ..old(self)@ }),
    {
        self.enabled = enabled;
    }

    /// Drops the actions whose window has passed at `now_ms`.
    fn cleanup_expired(&mut self, now_ms: u64)
        ensures
            final(self)@ == (UndoModel {
                undo: unexpired(old(self)@.undo, now_ms, old(self)@.window),
                ..old(self)@
            }),
    {
        let ghost orig = self.undo_stack@;
        let total = self.undo_stack.len();
        let mut kept: VecDeque<UndoableAction> = VecDeque::new();
        let mut k: usize = 0;
        while self.undo_stack.len() > 0
            invariant
                total == orig.len(),
                k <= orig.len(),
                self.undo_stack@ == orig.skip(k as int),
                kept@ == unexpired(orig.take(k as int), now_ms, self.undo_window),
                self.redo_stack == old(self).redo_stack,
                self.undo_window == old(self).undo_window,
                self.enabled == old(self).enabled,
                orig == old(self).undo_stack@,
            decreases self.undo_stack@.len(),
        {
            let a = self.undo_stack.pop_front().unwrap();
            assert(orig.take(k + 1).drop_last() =~= orig.take(k as int));
            assert(orig.take(k + 1).last() == a);
            if a.is_within_window(now_ms, self.undo_window) {
                kept.push_back(a);
            }
            k = k + 1;
            assert(self.undo_stack@ =~= orig.skip(k as int));
        }
        assert(orig.take(k as int) =~= orig);
        self.undo_stack = kept;
    }

    /// Records an action performed at `now_ms`, unless recording is off or the action
    /// cannot be undone. Recording clears the redo stack, keeps the newest
    /// `MAX_HISTORY_SIZE` actions, and drops those out of the window.
    pub fn record(&mut self, action: UndoableAction, now_ms: u64)
        ensures
            !old(self)@.enabled || action.action_type == ActionType::PermanentDelete
                || action.action_type == ActionType::Send ==> final(self)@ == old(self)@,
            old(self)@.enabled && !(action.action_type == ActionType::PermanentDelete
                || action.action_type == ActionType::Send) ==> final(self)@ == (UndoModel {
                undo: unexpired(
                    keep_last(old(self)@.undo.push(action), MAX_HISTORY_SIZE as int),
                    now_ms,
                    old(self)@.window,
                ),
                redo: Seq::empty(),
                ..old(self)@
            }),
    {
        if !self.enabled || !action.action_type.is_undoable() {
            return;
        }
        self.redo_stack.clear();
        self.undo_stack.push_back(action);
        trim_front(&mut self.undo_stack);
        self.cleanup_expired(now_ms);
    }

    /// Records an action of kind `action_type` from `before_state`, performed at
    /// `now_ms`.
    pub fn record_action(&mut self, action_type: ActionType, before_state: ActionState, now_ms: u64)
        ensures
            exists|a: UndoableAction|
                {
                    &&& a.action_type == action_type
                    &&& a.before_state == before_state
                    &&& a.performed_at == now_ms
                    &&& (!old(self)@.enabled || action_type == ActionType::PermanentDelete
                        || action_type == ActionType::Send ==> final(self)@ == old(self)@)
                    &&& (old(self)@.enabled && !(action_type == ActionType::PermanentDelete
                        || action_type == ActionType::Send) ==> final(self)@ == (UndoModel {
                        undo: unexpired(
                            keep_last(old(self)@.undo.push(a), MAX_HISTORY_SIZE as int),
                            now_ms,
                            old(self)@.window,
                        ),
                        redo: Seq::empty(),
                        ..old(self)@
                    }))
                },
    {
        let a = UndoableAction::new(action_type, before_state, now_ms);
        self.record(a, now_ms);
    }

    /// The action that an undo would take at `now_ms`.
    pub fn peek_undo(&self, now_ms: u64) -> (r: Option<&UndoableAction>)
        ensures
            match r {
                Some(a) => undo_top(self@, now_ms) == Some(*a),
                None => undo_top(self@, now_ms) is None,
            },
    {
        let n = self.undo_stack.len();
        if n > 0 && self.undo_stack[n - 1].is_within_window(now_ms, self.undo_window) {
            Some(&self.undo_stack[n - 1])
        } else {
            None
        }
    }

    /// The action that a redo would take.
    pub fn peek_redo(&self) -> (r: Option<&UndoableAction>)
        ensures
            match r {
                Some(a) => redo_top(self@) == Some(*a),
                None => redo_top(self@) is None,
            },
    {
        let n = self.redo_stack.len();
        if n > 0 {
            Some(&self.redo_stack[n - 1])
        } else {
            None
        }
    }

    /// Takes the newest action off the undo stack, once expired actions are dropped;
    /// hands it back only if it can still be undone under the default window.
    pub fn pop_undo(&mut self, now_ms: u64) -> (r: Option<UndoableAction>)
        ensures
            ({
                let kept = unexpired(old(self)@.undo, now_ms, old(self)@.window);
                &&& final(self)@ == (UndoModel {
                    undo: if kept.len() > 0 {
                        kept.drop_last()
                    } else {
                        kept
                    },
                    ..old(self)@
                })
                &&& r == if kept.len() > 0 && !(kept.last().action_type
                    == ActionType::PermanentDelete || kept.last().action_type == ActionType::Send)
                    && elapsed(kept.last().performed_at, now_ms) < DEFAULT_UNDO_WINDOW_MS {
                    Some(kept.last())
                } else {
                    None::<UndoableAction>
                }
            }),
    {
        self.cleanup_expired(now_ms);
        match self.undo_stack.pop_back() {
            Some(a) => {
                if a.can_undo(now_ms) {
                    Some(a)
                } else {
                    None
                }
            },
            None => None,
        }
    }

    /// Takes the newest action off the redo stack.
    pub fn pop_redo(&mut self) -> (r: Option<UndoableAction>)
        ensures
            r == redo_top(old(self)@),
            final(self)@ == (UndoModel {
                redo: if old(self)@.redo.len() > 0 {
                    old(self)@.redo.drop_last()
                } else {
                    old(self)@.redo
                },
                ..old(self)@
            }),
    {
        self.redo_stack.pop_back()
    }

    /// Puts an undone action on the redo stack, keeping the newest
    /// `MAX_HISTORY_SIZE`.
    pub fn push_to_redo(&mut self, action: UndoableAction)
        ensures
            final(self)@ == (UndoModel {
                redo: keep_last(old(self)@.redo.push(action), MAX_HISTORY_SIZE as int),
                ..old(self)@
            }),
    {
        self.redo_stack.push_back(action);
        trim_front(&mut self.redo_stack);
    }

    /// Whether an undo is possible at `now_ms`.
    pub fn can_undo(&self, now_ms: u64) -> (r: bool)
        ensures
            r == undo_top(self@, now_ms) is Some,
    {
        self.peek_undo(now_ms).is_some()
    }

    /// Whether a redo is possible.
    pub fn can_redo(&self) -> (r: bool)
        ensures
            r == redo_top(self@) is Some,
    {
        self.peek_redo().is_some()
    }

    /// "Undo: " and the description of the action that an undo would take.
    pub fn undo_description(&self, now_ms: u64) -> (r: Option<String>)
        ensures
            match undo_top(self@, now_ms) {
                Some(a) => r matches Some(t) && t@ == "Undo: "@ + a.description@,
                None => r is None,
            },
    {
        match self.peek_undo(now_ms) {
            Some(a) => {
                let mut t = String::new();
                append_text(&mut t, "Undo: ");
                append_text(&mut t, a.description.as_str());
                Some(t)
            },
            None => None,
        }
    }

    /// "Redo: " and the description of the action that a redo would take.
    pub fn redo_description(&self) -> (r: Option<String>)
        ensures
            match redo_top(self@) {
                Some(a) => r matches Some(t) && t@ == "Redo: "@ + a.description@,
                None => r is None,
            },
    {
        match self.peek_redo() {
            Some(a) => {
                let mut t = String::new();
                append_text(&mut t, "Redo: ");
                append_text(&mut t, a.description.as_str());
                Some(t)
            },
            None => None,
        }
    }

    /// Milliseconds left, under the default window, to undo the action that an undo
    /// would take.
    pub fn undo_time_remaining(&self, now_ms: u64) -> (r: Option<u64>)
        ensures
            match undo_top(self@, now_ms) {
                Some(a) => r == Some(
                    if elapsed(a.performed_at, now_ms) >= DEFAULT_UNDO_WINDOW_MS {
                        0u64
                    } else {
                        (DEFAULT_UNDO_WINDOW_MS - elapsed(a.performed_at, now_ms)) as u64
                    },
                ),
                None => r is None,
            },
    {
        match self.peek_undo(now_ms) {
            Some(a) => Some(a.time_remaining(now_ms)),
            None => None,
        }
    }

    /// Up to `limit` recorded actions, newest first.
    pub fn recent_actions(&self, limit: usize) -> (r: Vec<&UndoableAction>)
        ensures
            r@.len() == if limit < self@.undo.len() {
                limit as int
            } else {
                self@.undo.len() as int
            },
            forall|i: int| 0 <= i < r@.len() ==> *r@[i] == self@.undo[self@.undo.len() - 1 - i],
    {
        let n = self.undo_stack.len();
        let mut r: Vec<&UndoableAction> = Vec::new();
        let mut i: usize = 0;
        while i < n && i < limit
            invariant
                n == self.undo_stack@.len(),
                i <= n,
                i <= limit,
                r@.len() == i,
                forall|j: int| 0 <= j < i ==> *r@[j] == self.undo_stack@[n - 1 - j],
            decreases n - i,
        {
            r.push(&self.undo_stack[n - 1 - i]);
            i = i + 1;
        }
        r
    }

    /// Empties both stacks.
    pub fn clear(&mut self)
        ensures
            final(self)@ == (UndoModel { undo: Seq::empty(), redo: Seq::empty(), ..old(self)@ }),
    {
        self.undo_stack.clear();
        self.redo_stack.clear();
    }

    /// Number of recorded actions still in the window at `now_ms`.
    pub fn undo_count(&self, now_ms: u64) -> (r: usize)
        ensures
            r == unexpired(self@.undo, now_ms, self@.window).len(),
    {
        self.cleanup_expired_count(now_ms)
    }

    /// Number of actions that can be redone.
    pub fn redo_count(&self) -> (r: usize)
        ensures
            r == self@.redo.len(),
    {
        self.redo_stack.len()
    }

    fn cleanup_expired_count(&self, now_ms: u64) -> (r: usize)
        ensures
            r == unexpired(self@.undo, now_ms, self@.window).len(),
    {
        let ghost s = self.undo_stack@;
        let mut count: usize = 0;
        for i in 0..self.undo_stack.len()
            invariant
                s == self.undo_stack@,
                count == unexpired(s.take(i as int), now_ms, self.undo_window).len(),
                count <= i,
        {
            assert(s.take(i + 1).drop_last() =~= s.take(i as int));
            if self.undo_stack[i].is_within_window(now_ms, self.undo_window) {
                count = count + 1;
            }
        }
        assert(s.take(s.len() as int) =~= s);
        count
    }
}

} // verus!
