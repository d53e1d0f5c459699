//! The in-memory command history with Up/Down navigation.
//!
//! Up recalls older commands, Down moves forward again, and at the end the
//! line that was being typed before navigation began (the draft) comes
//! back.  Empty commands and consecutive duplicates are not stored.

use vstd::prelude::*;

verus! {

/// The abstract state of a [`History`].
pub struct HistoryView {
    /// Stored commands, oldest first.
    pub entries: Seq<Seq<char>>,
    /// The entry currently recalled, if navigation is under way.
    pub position: Option<nat>,
    /// The line that was being edited when navigation began.
    pub draft: Seq<char>,
}

impl HistoryView {
    /// The states a history can be in: the recalled position is an entry,
    /// the draft is empty while nothing is recalled, no entry is empty and
    /// no entry repeats the one before it.
    pub open spec fn valid(self) -> bool {
        &&& self.position matches Some(p) ==> p < self.entries.len()
        &&& self.position is None ==> self.draft.len() == 0
        &&& forall|i: int| 0 <= i < self.entries.len() ==> (#[trigger] self.entries[i]).len() > 0
        &&& forall|i: int, j: int|
            0 <= i && j == i + 1 && j < self.entries.len() ==> #[trigger] self.entries[i]
                != #[trigger] self.entries[j]
    }

    /// Navigation stopped: no recalled entry and an empty draft.
    pub open spec fn reset(self) -> HistoryView {
        HistoryView { position: None, draft: seq![], ..self }
    }

    /// Recording `command`: nothing happens for an empty command; otherwise
    /// it is stored unless it equals the newest entry, and navigation stops.
    pub open spec fn add(self, command: Seq<char>) -> HistoryView {
        if command.len() == 0 {
            self
        } else if self.entries.len() > 0 && self.entries.last() == command {
            self.reset()
        } else {
            HistoryView { entries: self.entries.push(command), ..self }.reset()
        }
    }

    /// Moving one entry back while `current` is on the line: the new state
    /// and the line to show.
    pub open spec fn previous(self, current: Seq<char>) -> (HistoryView, Seq<char>) {
        if self.entries.len() == 0 {
            (self, current)
        } else {
            let (p, draft) = match self.position {
                Some(p) => (if p == 0 { 0nat } else { (p - 1) as nat }, self.draft),
                None => ((self.entries.len() - 1) as nat, current),
            };
            (HistoryView { position: Some(p), draft, ..self }, self.entries[p as int])
        }
    }

    /// Moving one entry forward while `current` is on the line: the new
    /// state and the line to show; past the newest entry the draft returns.
    pub open spec fn next(self, current: Seq<char>) -> (HistoryView, Seq<char>) {
        match self.position {
            None => (self, current),
            Some(p) => if p + 1 >= self.entries.len() {
                (self.reset(), self.draft)
            } else {
                (
                    HistoryView { position: Some((p + 1) as nat), ..self },
                    self.entries[p + 1 as int],
                )
            },
        }
    }
}


/// Pressing Up `n` times, each time on the line the previous step showed.
pub open spec fn walk_up(v: HistoryView, line: Seq<char>, n: nat) -> (HistoryView, Seq<char>)
    decreases n,
{
    if n == 0 {
        (v, line)
    } else {
        let (w, shown) = v.previous(line);
        walk_up(w, shown, (n - 1) as nat)
    }
}

/// Pressing Down `n` times, each time on the line the previous step showed.
pub open spec fn walk_down(v: HistoryView, line: Seq<char>, n: nat) -> (HistoryView, Seq<char>)
    decreases n,
{
    if n == 0 {
        (v, line)
    } else {
        let (w, shown) = v.next(line);
        walk_down(w, shown, (n - 1) as nat)
    }
}


/// Law: entering a non-empty command always ends navigation and forgets the
/// draft, and leaves that command as the newest entry, whether it was new
/// or repeated the newest one; the next Up recalls it.
pub proof fn law_add_ends_navigation_at_the_newest(
    v: HistoryView,
    command: Seq<char>,
    current: Seq<char>,
)
    requires
        command.len() > 0,
    ensures
        v.add(command).position is None,
        v.add(command).draft.len() == 0,
        v.add(command).entries.len() > 0,
        v.add(command).entries.last() == command,
        v.add(command).previous(current).1 == command,
        v.add(command).previous(current).0.position == Some(
            (v.add(command).entries.len() - 1) as nat,
        ),
{
}

/// Law: entering an empty command changes nothing at all.
pub proof fn law_add_empty_changes_nothing(v: HistoryView)
    ensures
        v.add(seq![]) == v,
{
}

/// Law: recording the same command twice in a row is the same as recording
/// it once.
pub proof fn law_add_twice_is_add_once(v: HistoryView, command: Seq<char>)
    ensures
        v.add(command).add(command) == v.add(command),
{
    if command.len() > 0 {
        assert(v.add(command).entries.last() == command);
    }
}

/// Law: recording a command and navigating keep a history valid.
pub proof fn law_operations_keep_valid(v: HistoryView, command: Seq<char>, current: Seq<char>)
    requires
        v.valid(),
    ensures
        v.add(command).valid(),
        v.previous(current).0.valid(),
        v.next(current).0.valid(),
        v.reset().valid(),
{
    if command.len() > 0 && !(v.entries.len() > 0 && v.entries.last() == command) {
        let e = v.entries.push(command);
        assert forall|i: int, j: int|
            0 <= i && j == i + 1 && j < e.len() implies #[trigger] e[i] != #[trigger] e[j] by {
            if j < v.entries.len() {
                assert(v.entries[i] != v.entries[j]);
            }
        }
    }
}

/// Down keeps a line alone while nothing is recalled.
proof fn lemma_walk_down_idle(v: HistoryView, line: Seq<char>, n: nat)
    requires
        v.position is None,
    ensures
        walk_down(v, line, n) == (v, line),
    decreases n,
{
    if n > 0 {
        lemma_walk_down_idle(v, line, (n - 1) as nat);
    }
}

/// Enough Down presses from a recalled entry bring the draft back.
proof fn lemma_walk_down_to_draft(v: HistoryView, line: Seq<char>, n: nat)
    requires
        v.valid(),
        v.position matches Some(p) && n + p >= v.entries.len(),
    ensures
        walk_down(v, line, n).1 == v.draft,
        walk_down(v, line, n).0.position is None,
        walk_down(v, line, n).0.entries == v.entries,
    decreases n,
{
    let p = v.position->0;
    let (w, shown) = v.next(line);
    if p + 1 >= v.entries.len() {
        lemma_walk_down_idle(w, shown, (n - 1) as nat);
    } else {
        lemma_walk_down_to_draft(w, shown, (n - 1) as nat);
    }
}

/// Up presses from a recalled entry move back one entry each, stopping at
/// the oldest, and keep the draft.
proof fn lemma_walk_up_recalled(v: HistoryView, line: Seq<char>, n: nat)
    requires
        v.valid(),
        v.position is Some,
    ensures
        walk_up(v, line, n).0.entries == v.entries,
        walk_up(v, line, n).0.draft == v.draft,
        walk_up(v, line, n).0.position == Some(
            if v.position->0 >= n { (v.position->0 - n) as nat } else { 0nat },
        ),
        walk_up(v, line, n).0.valid(),
    decreases n,
{
    if n > 0 {
        let (w, shown) = v.previous(line);
        lemma_walk_up_recalled(w, shown, (n - 1) as nat);
    }
}

/// Law: from a history that is not navigating, pressing Up `n` times and
/// then Down `n` times gives back the line that was being edited, and
/// navigation is over.
pub proof fn law_up_then_down_restores_line(v: HistoryView, line: Seq<char>, n: nat)
    requires
        v.valid(),
        v.position is None,
    ensures
        ({
            let (up, shown) = walk_up(v, line, n);
            let (down, restored) = walk_down(up, shown, n);
            &&& restored == line
            &&& down.position is None
            &&& down.entries == v.entries
        }),
{
    let (up, shown) = walk_up(v, line, n);
    if n == 0 {
        lemma_walk_down_idle(v, line, 0);
    } else if v.entries.len() == 0 {
        assert(walk_up(v, line, n) == (v, line)) by {
            lemma_walk_up_empty(v, line, n);
        }
        lemma_walk_down_idle(v, line, n);
    } else {
        let (first, first_shown) = v.previous(line);
        lemma_walk_up_recalled(first, first_shown, (n - 1) as nat);
        assert(up == walk_up(first, first_shown, (n - 1) as nat).0);
        lemma_walk_down_to_draft(up, shown, n);
    }
}

/// Up does nothing on an empty history.
proof fn lemma_walk_up_empty(v: HistoryView, line: Seq<char>, n: nat)
    requires
        v.entries.len() == 0,
    ensures
        walk_up(v, line, n) == (v, line),
    decreases n,
{
    if n > 0 {
        lemma_walk_up_empty(v, line, (n - 1) as nat);
    }
}


/// One operation on a history, with the line it is given.
pub enum HistoryOp {
    Add(Seq<char>),
    Previous(Seq<char>),
    Next(Seq<char>),
    Reset,
}

/// The history after the operations `ops`, in order.
pub open spec fn apply_ops(v: HistoryView, ops: Seq<HistoryOp>) -> HistoryView
    decreases ops.len(),
{
    if ops.len() == 0 {
        v
    } else {
        let w = match ops[0] {
            HistoryOp::Add(command) => v.add(command),
            HistoryOp::Previous(current) => v.previous(current).0,
            HistoryOp::Next(current) => v.next(current).0,
            HistoryOp::Reset => v.reset(),
        };
        apply_ops(w, ops.drop_first())
    }
}

/// Law: whatever operations follow one another, a valid history stays
/// valid, and its entries only grow by new entries at the end.
pub proof fn law_any_operations_keep_valid_and_append_only(v: HistoryView, ops: Seq<HistoryOp>)
    requires
        v.valid(),
    ensures
        apply_ops(v, ops).valid(),
        v.entries.is_prefix_of(apply_ops(v, ops).entries),
    decreases ops.len(),
{
    if ops.len() > 0 {
        let w = match ops[0] {
            HistoryOp::Add(command) => v.add(command),
            HistoryOp::Previous(current) => v.previous(current).0,
            HistoryOp::Next(current) => v.next(current).0,
            HistoryOp::Reset => v.reset(),
        };
        match ops[0] {
            HistoryOp::Add(command) => law_operations_keep_valid(v, command, seq![]),
            HistoryOp::Previous(current) => law_operations_keep_valid(v, seq![], current),
            HistoryOp::Next(current) => law_operations_keep_valid(v, seq![], current),
            HistoryOp::Reset => law_operations_keep_valid(v, seq![], seq![]),
        }
        assert(v.entries.is_prefix_of(w.entries));
        law_any_operations_keep_valid_and_append_only(w, ops.drop_first());
        let last = apply_ops(w, ops.drop_first()).entries;
        assert forall|i: int| 0 <= i < v.entries.len() implies v.entries[i] == last[i] by {
            assert(v.entries[i] == w.entries[i]);
        }
    }
}

/// The history after Up presses, each given the line in `lines`.
pub open spec fn up_with(v: HistoryView, lines: Seq<Seq<char>>) -> HistoryView
    decreases lines.len(),
{
    if lines.len() == 0 {
        v
    } else {
        up_with(v.previous(lines[0]).0, lines.drop_first())
    }
}

/// The history after Down presses, each given the line in `lines`.
pub open spec fn down_with(v: HistoryView, lines: Seq<Seq<char>>) -> HistoryView
    decreases lines.len(),
{
    if lines.len() == 0 {
        v
    } else {
        down_with(v.next(lines[0]).0, lines.drop_first())
    }
}

/// Up presses from a recalled entry far enough from the oldest move back
/// one entry each, whatever line they are given.
proof fn lemma_up_with(v: HistoryView, lines: Seq<Seq<char>>)
    requires
        v.position matches Some(p) && lines.len() <= p < v.entries.len(),
    ensures
        up_with(v, lines) == (HistoryView {
            position: Some((v.position->0 - lines.len()) as nat),
            ..v
        }),
    decreases lines.len(),
{
    if lines.len() > 0 {
        lemma_up_with(v.previous(lines[0]).0, lines.drop_first());
    }
}

/// Down presses from a recalled entry far enough from the newest move
/// forward one entry each, whatever line they are given.
proof fn lemma_down_with(v: HistoryView, lines: Seq<Seq<char>>)
    requires
        v.position matches Some(p) && p + lines.len() < v.entries.len(),
    ensures
        down_with(v, lines) == (HistoryView {
            position: Some((v.position->0 + lines.len()) as nat),
            ..v
        }),
    decreases lines.len(),
{
    if lines.len() > 0 {
        lemma_down_with(v.next(lines[0]).0, lines.drop_first());
    }
}

/// Law: from a history that is not navigating, with `draft` on the line,
/// one Up, then `ups.len()` more Up presses and as many Down presses
/// (whatever lines they are given), then one more Down give the draft back
/// and end navigation, as long as the Up presses do not go past the
/// oldest entry.
pub proof fn law_up_down_restores_draft_whatever_lines(
    v: HistoryView,
    draft: Seq<char>,
    ups: Seq<Seq<char>>,
    downs: Seq<Seq<char>>,
    last: Seq<char>,
)
    requires
        v.valid(),
        v.position is None,
        ups.len() == downs.len(),
        ups.len() < v.entries.len(),
    ensures
        ({
            let after = down_with(up_with(v.previous(draft).0, ups), downs);
            let (end, shown) = after.next(last);
            &&& shown == draft
            &&& end.position is None
            &&& end.draft.len() == 0
            &&& end.entries == v.entries
        }),
{
    let first = v.previous(draft).0;
    lemma_up_with(first, ups);
    let up = up_with(first, ups);
    lemma_down_with(up, downs);
}

/// The command history of one shell session.
#[derive(Debug)]
pub struct History {
    entries: Vec<String>,
    position: Option<usize>,
    draft: String,
}

impl View for History {
    type V = HistoryView;

    closed spec fn view(&self) -> HistoryView {
        HistoryView {
            entries: self.entries@.map_values(|e: String| e@),
            position: match self.position {
                Some(p) => Some(p as nat),
                None => None,
            },
            draft: self.draft@,
        }
    }
}

impl History {
    /// Every history is in a valid state.
    #[verifier::type_invariant]
    pub(crate) open spec fn inv(self) -> bool {
        self@.valid()
    }

    /// An empty history.
    pub fn new() -> (h: History)
        ensures
            h@.entries.len() == 0,
            h@.position is None,
            h@.draft.len() == 0,
            h@.valid(),
    {
        let h = History { entries: Vec::new(), position: None, draft: String::new() };
        assert(h@.entries =~= Seq::<Seq<char>>::empty());
        h
    }

    /// Records a command that was entered.
    pub fn add(&mut self, command: &str)
        ensures
            old(self)@.valid(),
            final(self)@ == old(self)@.add(command@),
            final(self)@.valid(),
    {
        proof {
            use_type_invariant(&*self);
        }
        if command.is_empty() {
            return ;
        }
        let owned = command.to_owned();
        let len = self.entries.len();
        let store = len == 0 || self.entries[len - 1] != owned;
        let ghost before = self@;
        self.reset();
        if store {
            let mut entries = Vec::new();
            std::mem::swap(&mut entries, &mut self.entries);
            entries.push(owned);
            let ghost stored = entries@.map_values(|e: String| e@);
            assert(stored =~= before.entries.push(command@));
            proof {
                law_operations_keep_valid(before, command@, seq![]);
            }
            self.entries = entries;
        }
        proof {
            use_type_invariant(&*self);
        }
    }

    /// Recalls the previous (older) entry; `current` is the line being
    /// edited.  Returns the line to show.
    pub fn previous(&mut self, current: &str) -> (line: String)
        ensures
            old(self)@.valid(),
            (final(self)@, line@) == old(self)@.previous(current@),
            final(self)@.valid(),
    {
        proof {
            use_type_invariant(&*self);
        }
        if self.entries.len() == 0 {
            return current.to_owned();
        }
        let recalled = self.position;
        let next_position = match recalled {
            Some(position) => if position == 0 {
                0
            } else {
                position - 1
            },
            None => self.entries.len() - 1,
        };
        self.position = Some(next_position);
        if recalled.is_none() {
            self.draft = current.to_owned();
        }
        proof {
            use_type_invariant(&*self);
        }
        self.entries[next_position].clone()
    }

    /// Moves to the next (newer) entry; `current` is the line being edited.
    /// Returns the line to show, which is the draft once the newest entry
    /// is passed.
    pub fn next(&mut self, current: &str) -> (line: String)
        ensures
            old(self)@.valid(),
            (final(self)@, line@) == old(self)@.next(current@),
            final(self)@.valid(),
    {
        proof {
            use_type_invariant(&*self);
        }
        let position = match self.position {
            Some(position) => position,
            None => {
                return current.to_owned();
            },
        };
        assert(position < self.entries.len());
        if position + 1 >= self.entries.len() {
            let draft = self.draft.clone();
            self.reset();
            return draft;
        }
        let next_position = position + 1;
        self.position = Some(next_position);
        proof {
            use_type_invariant(&*self);
        }
        self.entries[next_position].clone()
    }

    /// Stops navigation and forgets the draft.
    pub fn reset(&mut self)
        ensures
            old(self)@.valid(),
            final(self)@ == old(self)@.reset(),
            final(self)@.valid(),
    {
        proof {
            use_type_invariant(&*self);
        }
        self.draft = String::new();
        self.position = None;
        proof {
            use_type_invariant(&*self);
        }
    }
}

impl Default for History {
    /// An empty history, as [`History::new`] makes.
    fn default() -> (h: History)
        ensures
            h@.entries.len() == 0,
            h@.position is None,
            h@.draft.len() == 0,
            h@.valid(),
    {
        History::new()
    }
}

} // verus!
