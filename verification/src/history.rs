//! Undo and redo.
//!
//! The History panel is a linear list of states with a movable cursor:
//! stepping back and then performing a new action discards everything after
//! the cursor. States are full snapshots of the layer stack and the canvas
//! size, since Crop and Canvas Size change it. The list is bounded by both a
//! step count and a byte budget, and evicts from the oldest end, never the
//! state at the cursor.

use vstd::prelude::*;
use vstd::utf8::encode_utf8;

use crate::chars::same_text;
use crate::layer::{lemma_total_bytes_nonneg, total_bytes, LayerStack};

verus! {

/// One entry in the History panel.
pub struct HistoryState {
    /// Label shown in the panel, such as "Brush Tool" or "New Layer".
    pub name: String,
    pub stack: LayerStack,
    /// Canvas size when the state was recorded.
    pub size: (u32, u32),
}

/// `n`, or `usize::MAX` if it is larger.
pub open spec fn saturated(n: int) -> int {
    if n <= usize::MAX {
        n
    } else {
        usize::MAX as int
    }
}

/// The memory a state takes: its snapshot and its label's bytes.
pub open spec fn state_bytes(s: HistoryState) -> int {
    saturated(saturated(total_bytes(s.stack.layers())) + (encode_utf8(s.name@).len() as usize))
}

/// The memory all of `states` take, before saturating.
pub open spec fn history_bytes(states: Seq<HistoryState>) -> int
    decreases states.len(),
{
    if states.len() == 0 {
        0
    } else {
        history_bytes(states.drop_last()) + state_bytes(states.last())
    }
}

/// How many of the oldest states the step limit drops: as many as are over
/// it, but none at or above the cursor.
pub open spec fn over_count(len: int, cursor: int, max_states: int) -> int {
    if len > max_states {
        if cursor < len - max_states {
            cursor
        } else {
            len - max_states
        }
    } else {
        0
    }
}

/// Whether the byte budget lets eviction stop once the oldest `j` states are
/// gone: what is left fits, or only one state is left, or the next one to go
/// would be the one at the cursor.
pub open spec fn fits_from(states: Seq<HistoryState>, cursor: int, max_bytes: int, j: int) -> bool {
    ||| saturated(history_bytes(states.skip(j))) <= max_bytes
    ||| states.len() - j <= 1
    ||| cursor - j <= 0
}

/// The first count of dropped states from `j` up at which the byte budget
/// lets eviction stop.
pub open spec fn budget_count(states: Seq<HistoryState>, cursor: int, max_bytes: int, j: int) -> int
    decreases cursor - j,
{
    if j >= cursor || fits_from(states, cursor, max_bytes, j) {
        j
    } else {
        budget_count(states, cursor, max_bytes, j + 1)
    }
}

/// How many of the oldest states eviction drops: first down to the step
/// limit, then on until the byte budget is met, never reaching the cursor.
pub open spec fn evicted(
    states: Seq<HistoryState>,
    cursor: int,
    max_states: int,
    max_bytes: int,
) -> int {
    budget_count(
        states,
        cursor,
        max_bytes,
        over_count(states.len() as int, cursor, max_states),
    )
}

/// Where the cursor goes on an undo: one step back, unless it is at the start.
pub open spec fn undo_cursor(cursor: int) -> int {
    if cursor > 0 {
        cursor - 1
    } else {
        cursor
    }
}

/// Where the cursor goes on a redo: one step forward, unless it is at the end.
pub open spec fn redo_cursor(len: int, cursor: int) -> int {
    if cursor + 1 < len {
        cursor + 1
    } else {
        cursor
    }
}

impl HistoryState {
    fn byte_size(&self) -> (r: usize)
        ensures
            r == state_bytes(*self),
    {
        let stack = self.stack.byte_size();
        proof {
            lemma_total_bytes_nonneg(self.stack.layers());
        }
        stack.saturating_add(self.name.as_str().len())
    }
}

/// A bounded, linear undo history.
pub struct History {
    states: Vec<HistoryState>,
    /// Index of the state the document currently reflects.
    cursor: usize,
    /// Maximum entries, the "History States" preference.
    max_states: usize,
    /// Soft cap on total snapshot memory.
    max_bytes: usize,
    /// When true, the next `push_coalescing` acts as a plain `push`.
    coalesce_sealed: bool,
}

/// The factory default of 20 history states.
pub const DEFAULT_MAX_STATES: usize = 20;

/// 1 GiB of snapshots before older states start being dropped.
pub const DEFAULT_MAX_BYTES: usize = 1073741824;

impl History {
    /// The states, oldest first.
    pub closed spec fn states(&self) -> Seq<HistoryState> {
        self.states@
    }

    /// The position of the state the document reflects.
    pub closed spec fn cursor_at(&self) -> int {
        self.cursor as int
    }

    pub closed spec fn state_limit(&self) -> int {
        self.max_states as int
    }

    pub closed spec fn byte_limit(&self) -> int {
        self.max_bytes as int
    }

    /// Whether the next coalescing push starts a new step.
    pub closed spec fn sealed(&self) -> bool {
        self.coalesce_sealed
    }

    /// There is always a state, the cursor is on one, and the step limit
    /// keeps at least one.
    pub open spec fn wf(&self) -> bool {
        &&& self.states().len() >= 1
        &&& 0 <= self.cursor_at() < self.states().len()
        &&& self.state_limit() >= 1
    }

    /// A history seeded with the document's opening state.
    pub fn new(initial: LayerStack, size: (u32, u32)) -> (h: History)
        ensures
            h.wf(),
            h.states().len() == 1,
            h.states()[0].name@ == "Open"@,
            h.states()[0].stack == initial,
            h.states()[0].size == size,
            h.cursor_at() == 0,
            h.state_limit() == DEFAULT_MAX_STATES,
            h.byte_limit() == DEFAULT_MAX_BYTES,
            !h.sealed(),
    {
        let mut states: Vec<HistoryState> = Vec::new();
        states.push(HistoryState { name: String::from_str("Open"), stack: initial, size });
        History {
            states,
            cursor: 0,
            max_states: DEFAULT_MAX_STATES,
            max_bytes: DEFAULT_MAX_BYTES,
            coalesce_sealed: false,
        }
    }

    /// Set the step limit, never below one, and drop what is now over it.
    pub fn set_max_states(&mut self, n: usize)
        requires
            old(self).wf(),
        ensures
            final(self).wf(),
            final(self).state_limit() == (if n >= 1 {
                n as int
            } else {
                1
            }),
            ({
                let k = evicted(
                    old(self).states(),
                    old(self).cursor_at(),
                    final(self).state_limit(),
                    old(self).byte_limit(),
                );
                &&& final(self).states() == old(self).states().skip(k)
                &&& final(self).cursor_at() == old(self).cursor_at() - k
            }),
            final(self).byte_limit() == old(self).byte_limit(),
            final(self).sealed() == old(self).sealed(),
    {
        self.max_states = if n >= 1 {
            n
        } else {
            1
        };
        self.evict();
    }

    pub fn max_states(&self) -> (r: usize)
        ensures
            r == self.state_limit(),
    {
        self.max_states
    }

    /// Set the byte budget and drop the oldest states until it is met.
    pub fn set_max_bytes(&mut self, n: usize)
        requires
            old(self).wf(),
        ensures
            final(self).wf(),
            final(self).byte_limit() == n,
            ({
                let k = evicted(
                    old(self).states(),
                    old(self).cursor_at(),
                    old(self).state_limit(),
                    n as int,
                );
                &&& final(self).states() == old(self).states().skip(k)
                &&& final(self).cursor_at() == old(self).cursor_at() - k
            }),
            final(self).state_limit() == old(self).state_limit(),
            final(self).sealed() == old(self).sealed(),
    {
        self.max_bytes = n;
        self.evict();
    }

    /// The number of entries in the panel.
    pub fn len(&self) -> (r: usize)
        ensures
            r == self.states().len(),
    {
        self.states.len()
    }

    pub fn is_empty(&self) -> (r: bool)
        ensures
            r == (self.states().len() == 0),
    {
        self.states.len() == 0
    }

    pub fn cursor(&self) -> (r: usize)
        ensures
            r == self.cursor_at(),
    {
        self.cursor
    }

    pub fn can_undo(&self) -> (r: bool)
        ensures
            r == (self.cursor_at() > 0),
    {
        self.cursor > 0
    }

    pub fn can_redo(&self) -> (r: bool)
        requires
            self.wf(),
        ensures
            r == (self.cursor_at() + 1 < self.states().len()),
    {
        let n = self.states.len();
        self.cursor + 1 < n
    }

    /// The label of the state an undo would step back from, which drives the
    /// "Undo Brush Tool" menu text.
    pub fn undo_name(&self) -> (r: Option<&str>)
        requires
            self.wf(),
        ensures
            self.cursor_at() > 0 ==> (r matches Some(s) && s@ == self.states()[self.cursor_at()].name@),
            self.cursor_at() == 0 ==> r is None,
    {
        if self.can_undo() {
            Some(self.states[self.cursor].name.as_str())
        } else {
            None
        }
    }

    /// The label of the state a redo would step forward to.
    pub fn redo_name(&self) -> (r: Option<&str>)
        requires
            self.wf(),
        ensures
            self.cursor_at() + 1 < self.states().len() ==> (r matches Some(s) && s@
                == self.states()[self.cursor_at() + 1].name@),
            self.cursor_at() + 1 >= self.states().len() ==> r is None,
    {
        let n = self.states.len();
        if self.cursor + 1 < n {
            Some(self.states[self.cursor + 1].name.as_str())
        } else {
            None
        }
    }

    /// Every state's label, oldest first.
    pub fn state_names(&self) -> (r: Vec<&str>)
        ensures
            r@.len() == self.states().len(),
            forall|i: int| 0 <= i < r@.len() ==> #[trigger] r@[i]@ == self.states()[i].name@,
    {
        let mut names: Vec<&str> = Vec::new();
        let mut i: usize = 0;
        while i < self.states.len()
            invariant
                i <= self.states@.len(),
                names@.len() == i,
                forall|j: int| 0 <= j < i ==> #[trigger] names@[j]@ == self.states@[j].name@,
            decreases self.states@.len() - i,
        {
            names.push(self.states[i].name.as_str());
            i = i + 1;
        }
        names
    }

    /// Record a new state on top of the cursor.
    ///
    /// Anything after the cursor is discarded: the redo branch is lost. The
    /// new state is then the newest and the cursor is on it, so there is
    /// nothing to redo.
    pub fn push(&mut self, name: String, stack: LayerStack, size: (u32, u32))
        requires
            old(self).wf(),
        ensures
            final(self).wf(),
            ({
                let kept = old(self).states().take(old(self).cursor_at() + 1).push(
                    HistoryState { name, stack, size },
                );
                let k = evicted(
                    kept,
                    kept.len() - 1,
                    old(self).state_limit(),
                    old(self).byte_limit(),
                );
                &&& final(self).states() == kept.skip(k)
                &&& final(self).cursor_at() == kept.len() - 1 - k
            }),
            final(self).cursor_at() + 1 == final(self).states().len(),
            final(self).state_limit() == old(self).state_limit(),
            final(self).byte_limit() == old(self).byte_limit(),
            final(self).sealed() == old(self).sealed(),
    {
        let _n = self.states.len();
        self.states.truncate(self.cursor + 1);
        self.states.push(HistoryState { name, stack, size });
        self.cursor = self.states.len() - 1;
        let ghost kept = self.states@;
        self.evict();
        proof {
            lemma_evicted_bounds(kept, kept.len() - 1, self.max_states as int, self.max_bytes as int);
        }
    }

    /// Like [`History::push`], but if the state at the cursor already has the
    /// same name, and is not the opening state, and coalescing has not been
    /// sealed, replace its snapshot instead of adding a new state. This is how
    /// rapid slider-driven changes become a single undo step.
    pub fn push_coalescing(&mut self, name: String, stack: LayerStack, size: (u32, u32))
        requires
            old(self).wf(),
        ensures
            final(self).wf(),
            ({
                let c = old(self).cursor_at();
                if !old(self).sealed() && c > 0 && old(self).states()[c].name@ == name@ {
                    &&& final(self).states() == old(self).states().update(
                        c,
                        HistoryState { name: old(self).states()[c].name, stack, size },
                    )
                    &&& final(self).cursor_at() == c
                    &&& final(self).sealed() == old(self).sealed()
                } else {
                    let kept = old(self).states().take(c + 1).push(
                        HistoryState { name, stack, size },
                    );
                    let k = evicted(
                        kept,
                        kept.len() - 1,
                        old(self).state_limit(),
                        old(self).byte_limit(),
                    );
                    &&& final(self).states() == kept.skip(k)
                    &&& final(self).cursor_at() == kept.len() - 1 - k
                    &&& !final(self).sealed()
                }
            }),
            final(self).state_limit() == old(self).state_limit(),
            final(self).byte_limit() == old(self).byte_limit(),
    {
        let c = self.cursor;
        if !self.coalesce_sealed && c > 0 && same_text(self.states[c].name.as_str(), name.as_str()) {
            let current = self.states.remove(c);
            self.states.insert(c, HistoryState { name: current.name, stack, size });
        } else {
            self.coalesce_sealed = false;
            self.push(name, stack, size);
        }
    }

    /// Make the next coalescing push start a new step.
    pub fn seal_coalescing(&mut self)
        ensures
            final(self).sealed(),
            final(self).states() == old(self).states(),
            final(self).cursor_at() == old(self).cursor_at(),
            final(self).state_limit() == old(self).state_limit(),
            final(self).byte_limit() == old(self).byte_limit(),
    {
        self.coalesce_sealed = true;
    }

    /// Step back one state, returning the state to restore; at the start there
    /// is nothing to step back to.
    pub fn undo(&mut self) -> (r: Option<&HistoryState>)
        requires
            old(self).wf(),
        ensures
            final(self).wf(),
            final(self).cursor_at() == undo_cursor(old(self).cursor_at()),
            old(self).cursor_at() > 0 ==> r == Some(&final(self).states()[final(self).cursor_at()]),
            old(self).cursor_at() == 0 ==> r is None,
            final(self).states() == old(self).states(),
            final(self).state_limit() == old(self).state_limit(),
            final(self).byte_limit() == old(self).byte_limit(),
            final(self).sealed() == old(self).sealed(),
    {
        if !self.can_undo() {
            return None;
        }
        self.cursor = self.cursor - 1;
        Some(&self.states[self.cursor])
    }

    /// Step forward one state; at the end there is nothing to step to.
    pub fn redo(&mut self) -> (r: Option<&HistoryState>)
        requires
            old(self).wf(),
        ensures
            final(self).wf(),
            final(self).cursor_at() == redo_cursor(
                old(self).states().len() as int,
                old(self).cursor_at(),
            ),
            old(self).cursor_at() + 1 < old(self).states().len() ==> r == Some(
                &final(self).states()[final(self).cursor_at()],
            ),
            old(self).cursor_at() + 1 >= old(self).states().len() ==> r is None,
            final(self).states() == old(self).states(),
            final(self).state_limit() == old(self).state_limit(),
            final(self).byte_limit() == old(self).byte_limit(),
            final(self).sealed() == old(self).sealed(),
    {
        let n = self.states.len();
        if self.cursor + 1 >= n {
            return None;
        }
        self.cursor = self.cursor + 1;
        Some(&self.states[self.cursor])
    }

    /// Jump straight to a state, as clicking a row in the panel does. A row
    /// that does not exist leaves the cursor where it was.
    pub fn jump_to(&mut self, index: usize) -> (r: Option<&HistoryState>)
        requires
            old(self).wf(),
        ensures
            final(self).wf(),
            index < old(self).states().len() ==> final(self).cursor_at() == index && r == Some(
                &old(self).states()[index as int],
            ),
            index >= old(self).states().len() ==> final(self).cursor_at() == old(self).cursor_at()
                && r is None,
            final(self).states() == old(self).states(),
            final(self).state_limit() == old(self).state_limit(),
            final(self).byte_limit() == old(self).byte_limit(),
            final(self).sealed() == old(self).sealed(),
    {
        if index >= self.states.len() {
            return None;
        }
        self.cursor = index;
        Some(&self.states[self.cursor])
    }

    /// The stack at the cursor.
    pub fn current(&self) -> (r: &LayerStack)
        requires
            self.wf(),
        ensures
            *r == self.states()[self.cursor_at()].stack,
    {
        &self.states[self.cursor].stack
    }

    /// The canvas size at the cursor.
    pub fn current_size(&self) -> (r: (u32, u32))
        requires
            self.wf(),
        ensures
            r == self.states()[self.cursor_at()].size,
    {
        self.states[self.cursor].size
    }

    /// The bytes all the snapshots hold, saturating at `usize::MAX`.
    pub fn byte_size(&self) -> (r: usize)
        ensures
            r == saturated(history_bytes(self.states())),
    {
        let mut total: usize = 0;
        let mut i: usize = 0;
        while i < self.states.len()
            invariant
                i <= self.states@.len(),
                total == saturated(history_bytes(self.states@.subrange(0, i as int))),
            decreases self.states@.len() - i,
        {
            let b = self.states[i].byte_size();
            proof {
                let next = self.states@.subrange(0, i + 1);
                assert(next.drop_last() =~= self.states@.subrange(0, i as int));
                lemma_history_bytes_nonneg(self.states@.subrange(0, i as int));
            }
            total = total.saturating_add(b);
            i = i + 1;
        }
        assert(self.states@.subrange(0, i as int) =~= self.states@);
        total
    }

    /// Drop the oldest states until both limits are met. The state at the
    /// cursor is never dropped: without it the document would have nothing
    /// to restore from.
    fn evict(&mut self)
        requires
            old(self).states().len() >= 1,
            0 <= old(self).cursor_at() < old(self).states().len(),
            old(self).state_limit() >= 1,
        ensures
            final(self).wf(),
            ({
                let k = evicted(
                    old(self).states(),
                    old(self).cursor_at(),
                    old(self).state_limit(),
                    old(self).byte_limit(),
                );
                &&& final(self).states() == old(self).states().skip(k)
                &&& final(self).cursor_at() == old(self).cursor_at() - k
            }),
            final(self).state_limit() == old(self).state_limit(),
            final(self).byte_limit() == old(self).byte_limit(),
            final(self).sealed() == old(self).sealed(),
    {
        let ghost start = self.states@;
        let ghost c0 = self.cursor as int;
        let ghost over = over_count(start.len() as int, c0, self.max_states as int);
        while self.states.len() > self.max_states && self.cursor > 0
            invariant
                self.max_states == old(self).max_states,
                self.max_bytes == old(self).max_bytes,
                self.coalesce_sealed == old(self).coalesce_sealed,
                0 <= c0 - self.cursor <= over,
                c0 < start.len(),
                self.states@ == start.skip(c0 - self.cursor),
                self.cursor < self.states@.len(),
                start == old(self).states@,
                c0 == old(self).cursor,
                over == over_count(start.len() as int, c0, self.max_states as int),
            decreases self.cursor,
        {
            self.states.remove(0);
            self.cursor = self.cursor - 1;
            assert(self.states@ =~= start.skip(c0 - self.cursor));
        }
        assert(c0 - self.cursor == over);
        assert(over >= 0);
        loop
            invariant
                self.max_states == old(self).max_states,
                self.max_bytes == old(self).max_bytes,
                self.coalesce_sealed == old(self).coalesce_sealed,
                0 <= over <= c0 - self.cursor,
                c0 < start.len(),
                budget_count(start, c0, self.max_bytes as int, c0 - self.cursor) == evicted(
                    start,
                    c0,
                    self.max_states as int,
                    self.max_bytes as int,
                ),
                self.states@ == start.skip(c0 - self.cursor),
                self.cursor < self.states@.len(),
                start == old(self).states@,
                c0 == old(self).cursor,
            ensures
                self.max_states == old(self).max_states,
                self.max_bytes == old(self).max_bytes,
                self.coalesce_sealed == old(self).coalesce_sealed,
                c0 - self.cursor == evicted(
                    start,
                    c0,
                    self.max_states as int,
                    self.max_bytes as int,
                ),
                self.states@ == start.skip(c0 - self.cursor),
                self.cursor < self.states@.len(),
            decreases self.cursor,
        {
            let bytes = self.byte_size();
            if bytes <= self.max_bytes || self.states.len() <= 1 || self.cursor == 0 {
                assert(fits_from(start, c0, self.max_bytes as int, c0 - self.cursor));
                break;
            }
            assert(!fits_from(start, c0, self.max_bytes as int, c0 - self.cursor));
            self.states.remove(0);
            self.cursor = self.cursor - 1;
            assert(self.states@ =~= start.skip(c0 - self.cursor));
        }
    }
}

/// Eviction drops at least the states over the step limit and never the one
/// at the cursor.
pub proof fn lemma_evicted_bounds(
    states: Seq<HistoryState>,
    cursor: int,
    max_states: int,
    max_bytes: int,
)
    requires
        0 <= cursor,
        max_states >= 1,
    ensures
        over_count(states.len() as int, cursor, max_states) <= evicted(
            states,
            cursor,
            max_states,
            max_bytes,
        ) <= cursor,
{
    lemma_budget_count_bounds(
        states,
        cursor,
        max_bytes,
        over_count(states.len() as int, cursor, max_states),
    );
}

proof fn lemma_budget_count_bounds(states: Seq<HistoryState>, cursor: int, max_bytes: int, j: int)
    requires
        j <= cursor,
    ensures
        j <= budget_count(states, cursor, max_bytes, j) <= cursor,
    decreases cursor - j,
{
    if !(j >= cursor || fits_from(states, cursor, max_bytes, j)) {
        lemma_budget_count_bounds(states, cursor, max_bytes, j + 1);
    }
}

/// An undo followed by a redo comes back to the same state.
pub proof fn law_undo_then_redo(len: int, cursor: int)
    requires
        0 < cursor < len,
    ensures
        redo_cursor(len, undo_cursor(cursor)) == cursor,
{
}

/// A redo followed by an undo comes back to the same state.
pub proof fn law_redo_then_undo(len: int, cursor: int)
    requires
        0 <= cursor,
        cursor + 1 < len,
    ensures
        undo_cursor(redo_cursor(len, cursor)) == cursor,
{
}

/// A push discards the redo branch: what remains after it is some of the
/// states up to the cursor, oldest first, then the new state, with the cursor
/// on the new state and nothing left to redo.
pub proof fn law_push_drops_the_redo_branch(
    states: Seq<HistoryState>,
    cursor: int,
    new: HistoryState,
    max_states: int,
    max_bytes: int,
)
    requires
        0 <= cursor < states.len(),
        max_states >= 1,
    ensures
        ({
            let kept = states.take(cursor + 1).push(new);
            let k = evicted(kept, kept.len() - 1, max_states, max_bytes);
            let after = kept.skip(k);
            &&& 1 <= after.len()
            &&& after.last() == new
            &&& redo_cursor(after.len() as int, after.len() - 1) == after.len() - 1
            &&& forall|i: int|
                0 <= i < after.len() - 1 ==> i + k <= cursor && #[trigger] after[i] == states[i + k]
        }),
{
    let kept = states.take(cursor + 1).push(new);
    lemma_evicted_bounds(kept, kept.len() - 1, max_states, max_bytes);
}

/// Eviction keeps the cursor on the same state, and afterwards both limits
/// are met as far as they can be without dropping that state: no more states
/// than the step limit, and no more bytes than the budget, unless only the
/// cursor's state (and what is newer) is left.
pub proof fn law_eviction_keeps_the_current_state(
    states: Seq<HistoryState>,
    cursor: int,
    max_states: int,
    max_bytes: int,
)
    requires
        0 <= cursor < states.len(),
        max_states >= 1,
    ensures
        ({
            let k = evicted(states, cursor, max_states, max_bytes);
            let kept = states.skip(k);
            &&& 0 <= k <= cursor
            &&& kept[cursor - k] == states[cursor]
            &&& kept.len() <= max_states || cursor - k == 0
            &&& saturated(history_bytes(kept)) <= max_bytes || kept.len() <= 1 || cursor - k == 0
        }),
{
    lemma_evicted_bounds(states, cursor, max_states, max_bytes);
    lemma_budget_count_stops(
        states,
        cursor,
        max_bytes,
        over_count(states.len() as int, cursor, max_states),
    );
}

proof fn lemma_budget_count_stops(states: Seq<HistoryState>, cursor: int, max_bytes: int, j: int)
    requires
        j <= cursor,
    ensures
        fits_from(states, cursor, max_bytes, budget_count(states, cursor, max_bytes, j))
            || budget_count(states, cursor, max_bytes, j) >= cursor,
    decreases cursor - j,
{
    if !(j >= cursor || fits_from(states, cursor, max_bytes, j)) {
        lemma_budget_count_stops(states, cursor, max_bytes, j + 1);
    }
}

/// Eviction is minimal: every state it drops was dropped while a limit was
/// still broken. Before each of the `k` states that go, either more states
/// than the step limit were left, or what was left took more bytes than the
/// budget with more than one state and the cursor's state not yet the oldest.
pub proof fn law_eviction_drops_only_while_over_a_limit(
    states: Seq<HistoryState>,
    cursor: int,
    max_states: int,
    max_bytes: int,
)
    requires
        0 <= cursor < states.len(),
        max_states >= 1,
    ensures
        forall|j: int|
            0 <= j < evicted(states, cursor, max_states, max_bytes) ==> {
                ||| states.len() - j > max_states
                ||| {
                    &&& saturated(history_bytes(#[trigger] states.skip(j))) > max_bytes
                    &&& states.len() - j > 1
                    &&& j < cursor
                }
            },
{
    let o = over_count(states.len() as int, cursor, max_states);
    lemma_budget_count_bounds(states, cursor, max_bytes, o);
    lemma_budget_count_minimal(states, cursor, max_bytes, o);
    assert forall|j: int|
        0 <= j < evicted(states, cursor, max_states, max_bytes) implies {
        ||| states.len() - j > max_states
        ||| {
            &&& saturated(history_bytes(#[trigger] states.skip(j))) > max_bytes
            &&& states.len() - j > 1
            &&& j < cursor
        }
    } by {
        if j >= o {
            assert(!fits_from(states, cursor, max_bytes, j));
        }
    }
}

proof fn lemma_budget_count_minimal(states: Seq<HistoryState>, cursor: int, max_bytes: int, j: int)
    requires
        j <= cursor,
    ensures
        forall|i: int|
            j <= i < budget_count(states, cursor, max_bytes, j) ==> !fits_from(
                states,
                cursor,
                max_bytes,
                i,
            ),
    decreases cursor - j,
{
    if !(j >= cursor || fits_from(states, cursor, max_bytes, j)) {
        lemma_budget_count_minimal(states, cursor, max_bytes, j + 1);
    }
}

/// Byte counts are never negative.
pub proof fn lemma_history_bytes_nonneg(states: Seq<HistoryState>)
    ensures
        history_bytes(states) >= 0,
    decreases states.len(),
{
    if states.len() > 0 {
        lemma_history_bytes_nonneg(states.drop_last());
        lemma_total_bytes_nonneg(states.last().stack.layers());
    }
}

} // verus!
