use vstd::prelude::*;
use crate::cursor::SelectionCursor;
use crate::cursor::clamped;
use crate::cursor::next_index;
use crate::cursor::prev_index;
use crate::ranked::Candidate;
use crate::ranked::RankedList;
use crate::ranked::rank;
use crate::resolve::Action;
use crate::resolve::Error;
use crate::resolve::TabEntry;
use crate::resolve::lookup;
use crate::resolve::resolve_candidate;

verus! {

/// A candidate counts as active when the host knows an active entry carrying
/// the candidate's name; a nameless candidate is never active.
pub open spec fn is_active(c: Candidate, tabs: Seq<TabEntry>) -> bool {
    match c.name {
        Some(n) => exists|k: int|
            #![trigger tabs[k].active]
            0 <= k < tabs.len() && tabs[k].active && tabs[k].name@ == n@,
        None => false,
    }
}

/// The active flag of every entry, in list order.
pub open spec fn active_seq(entries: Seq<Candidate>, tabs: Seq<TabEntry>) -> Seq<bool> {
    Seq::new(entries.len(), |i: int| is_active(entries[i], tabs))
}

/// Whether one candidate is active.
#[verifier::loop_isolation(false)]
fn entry_is_active(c: &Candidate, tabs: &Vec<TabEntry>) -> (r: bool)
    ensures
        r == is_active(*c, tabs@),
{
    let name: &String = match &c.name {
        Some(n) => n,
        None => {
            return false;
        },
    };
    let mut i: usize = 0;
    while i < tabs.len()
        invariant
            i <= tabs@.len(),
            forall|k: int|
                #![trigger tabs@[k].active]
                0 <= k < i ==> !(tabs@[k].active && tabs@[k].name@ == name@),
        decreases tabs@.len() - i,
    {
        if tabs[i].active && tabs[i].name == *name {
            proof {
                assert(tabs@[i as int].active && tabs@[i as int].name@ == name@);
            }
            return true;
        }
        i = i + 1;
    }
    false
}

/// The active flags of all entries, one per entry, in list order.
#[verifier::loop_isolation(false)]
pub fn active_flags(entries: &Vec<Candidate>, tabs: &Vec<TabEntry>) -> (r: Vec<bool>)
    ensures
        r@ == active_seq(entries@, tabs@),
{
    let mut out: Vec<bool> = Vec::new();
    let mut i: usize = 0;
    while i < entries.len()
        invariant
            i <= entries@.len(),
            out@.len() == i,
            forall|k: int| 0 <= k < i ==> out@[k] == is_active(#[trigger] entries@[k], tabs@),
        decreases entries@.len() - i,
    {
        let flag = entry_is_active(&entries[i], tabs);
        out.push(flag);
        i = i + 1;
    }
    proof {
        assert(out@ =~= active_seq(entries@, tabs@));
    }
    out
}

/// One discrete input event, fully processed before the next one arrives.
pub enum InputEvent {
    /// The host's open entries changed.
    TabsUpdated(Vec<TabEntry>),
    /// The candidate set was (re)loaded wholesale.
    CandidatesLoaded(Vec<Candidate>),
    /// One character was typed into the query.
    Input(char),
    /// The last character of the query was deleted.
    Backspace,
    /// Move the selection forward.
    MoveNext,
    /// Move the selection back.
    MovePrevious,
    /// Confirm the current selection.
    Confirm,
    /// Dismiss the selector.
    Cancel,
}

/// What the host is asked to do after an event: returned as data, never
/// performed here. The second half of the result says whether to re-render.
pub enum Effect {
    /// Nothing to perform.
    Nothing,
    /// Close the selector's own pane.
    CloseFocus,
    /// Close the selector's own pane, then perform the action.
    Dispatch(Action),
    /// The event failed; the state is untouched.
    Failed(Error),
}

/// The selector: the ranked candidate list with its query, the selection
/// cursor, and the host's open entries as last reported.
pub struct Selector {
    pub list: RankedList,
    pub cursor: SelectionCursor,
    pub tabs: Vec<TabEntry>,
}

impl Selector {
    /// An empty selector: no candidates, empty query, cursor at the front.
    pub fn new() -> (r: Selector)
        ensures
            r.list.query_view() == Seq::<char>::empty(),
            r.list.entries_view() == Seq::<Candidate>::empty(),
            r.cursor.index_view() == 0,
            r.tabs@ == Seq::<TabEntry>::empty(),
    {
        Selector { list: RankedList::new(), cursor: SelectionCursor::new(), tabs: Vec::new() }
    }

    /// The selected position, validated against the current list length.
    pub fn selected(&self) -> (r: usize)
        ensures
            r == clamped(self.cursor.index_view(), self.list.entries_view().len() as int),
    {
        self.cursor.selected_index(self.list.len())
    }

    /// Process one event: mutate the query or the cursor, re-rank when and
    /// only when the query changed, and hand back the requested host action.
    /// A query edit resets the selection to the front; deleting from an
    /// empty query changes nothing; a confirm never changes state.
    pub fn handle_event(&mut self, event: InputEvent) -> (r: (Effect, bool))
        ensures
            match event {
                InputEvent::TabsUpdated(ts) => {
                    &&& final(self).tabs@ == ts@
                    &&& final(self).list == old(self).list
                    &&& final(self).cursor == old(self).cursor
                    &&& r == (Effect::Nothing, true)
                },
                InputEvent::CandidatesLoaded(cs) => {
                    &&& final(self).tabs == old(self).tabs
                    &&& final(self).list.query_view() == old(self).list.query_view()
                    &&& final(self).list.entries_view() == rank(old(self).list.query_view(), cs@)
                    &&& final(self).list.entries_view().to_multiset() == cs@.to_multiset()
                    &&& final(self).cursor.index_view() == 0
                    &&& r == (Effect::Nothing, true)
                },
                InputEvent::Input(ch) => {
                    &&& final(self).tabs == old(self).tabs
                    &&& final(self).list.query_view() == old(self).list.query_view().push(ch)
                    &&& final(self).list.entries_view() == rank(
                        final(self).list.query_view(),
                        old(self).list.entries_view(),
                    )
                    &&& final(self).cursor.index_view() == 0
                    &&& r == (Effect::Nothing, true)
                },
                InputEvent::Backspace => {
                    &&& final(self).tabs == old(self).tabs
                    &&& old(self).list.query_view().len() == 0 ==> *final(self) == *old(self)
                    &&& old(self).list.query_view().len() > 0 ==> final(self).list.query_view()
                        == old(self).list.query_view().drop_last()
                    &&& old(self).list.query_view().len() > 0 ==> final(self).list.entries_view()
                        == rank(final(self).list.query_view(), old(self).list.entries_view())
                    &&& old(self).list.query_view().len() > 0 ==> final(self).cursor.index_view()
                        == 0
                    &&& r == (Effect::Nothing, true)
                },
                InputEvent::MoveNext => {
                    &&& final(self).list == old(self).list
                    &&& final(self).tabs == old(self).tabs
                    &&& old(self).list.entries_view().len() == 0 ==> final(self).cursor == old(self).cursor
                    &&& old(self).list.entries_view().len() > 0 ==> final(self).cursor.index_view() == next_index(
                        clamped(
                            old(self).cursor.index_view(),
                            old(self).list.entries_view().len() as int,
                        ),
                        active_seq(old(self).list.entries_view(), old(self).tabs@),
                    )
                    &&& r == (Effect::Nothing, true)
                },
                InputEvent::MovePrevious => {
                    &&& final(self).list == old(self).list
                    &&& final(self).tabs == old(self).tabs
                    &&& old(self).list.entries_view().len() == 0 ==> final(self).cursor == old(self).cursor
                    &&& old(self).list.entries_view().len() > 0 ==> final(self).cursor.index_view() == prev_index(
                        clamped(
                            old(self).cursor.index_view(),
                            old(self).list.entries_view().len() as int,
                        ),
                        active_seq(old(self).list.entries_view(), old(self).tabs@),
                    )
                    &&& r == (Effect::Nothing, true)
                },
                InputEvent::Confirm => {
                    &&& *final(self) == *old(self)
                    &&& old(self).list.entries_view().len() == 0 ==> r == (Effect::Nothing, false)
                    &&& old(self).list.entries_view().len() > 0 ==> {
                        let c = old(self).list.entries_view()[clamped(
                            old(self).cursor.index_view(),
                            old(self).list.entries_view().len() as int,
                        )];
                        match c.name {
                            None => r == (Effect::Failed(Error::UnnamedCandidate), true),
                            Some(n) => match lookup(old(self).tabs@, n@) {
                                Some(p) => r == (
                                    Effect::Dispatch(Action::AttachExisting(p)),
                                    false,
                                ),
                                None => r == (Effect::Dispatch(Action::CreateNew(n)), false),
                            },
                        }
                    }
                },
                InputEvent::Cancel => {
                    &&& *final(self) == *old(self)
                    &&& r == (Effect::CloseFocus, false)
                },
            },
    {
        match event {
            InputEvent::TabsUpdated(ts) => {
                self.tabs = ts;
                (Effect::Nothing, true)
            },
            InputEvent::CandidatesLoaded(cs) => {
                self.list.set_candidates(cs);
                self.cursor.reset();
                (Effect::Nothing, true)
            },
            InputEvent::Input(ch) => {
                self.list.push_char(ch);
                self.cursor.reset();
                (Effect::Nothing, true)
            },
            InputEvent::Backspace => {
                let changed = self.list.pop_char();
                if changed {
                    self.cursor.reset();
                }
                (Effect::Nothing, true)
            },
            InputEvent::MoveNext => {
                let flags = active_flags(self.list.ranked_view(), &self.tabs);
                self.cursor.move_next(&flags);
                (Effect::Nothing, true)
            },
            InputEvent::MovePrevious => {
                let flags = active_flags(self.list.ranked_view(), &self.tabs);
                self.cursor.move_previous(&flags);
                (Effect::Nothing, true)
            },
            InputEvent::Confirm => {
                let len = self.list.len();
                if len == 0 {
                    return (Effect::Nothing, false);
                }
                let idx = self.cursor.selected_index(len);
                let entries = self.list.ranked_view();
                match resolve_candidate(&entries[idx], &self.tabs) {
                    Ok(a) => (Effect::Dispatch(a), false),
                    Err(e) => (Effect::Failed(e), true),
                }
            },
            InputEvent::Cancel => (Effect::CloseFocus, false),
        }
    }

    /// The display name of each of the first `limit` ranked entries, in list
    /// order: the render payload, with an unnamed entry shown empty.
    pub fn visible_names(&self, limit: usize) -> (r: Vec<String>)
        ensures
            r@.len() == if limit as int <= self.list.entries_view().len() {
                limit as int
            } else {
                self.list.entries_view().len() as int
            },
            forall|i: int|
                0 <= i < r@.len() ==> r@[i]@ == display_name(#[trigger] self.list.entries_view()[i]),
    {
        let entries = self.list.ranked_view();
        let count = if limit <= entries.len() {
            limit
        } else {
            entries.len()
        };
        let mut out: Vec<String> = Vec::new();
        let mut i: usize = 0;
        while i < count
            invariant
                i <= count <= entries@.len(),
                entries@ == self.list.entries_view(),
                out@.len() == i,
                forall|k: int|
                    0 <= k < i ==> out@[k]@ == display_name(#[trigger] entries@[k]),
            decreases count - i,
        {
            let line = match &entries[i].name {
                Some(n) => n.clone(),
                None => String::new(),
            };
            out.push(line);
            i = i + 1;
        }
        out
    }
}

/// The display name of a candidate, empty when none could be derived.
pub open spec fn display_name(c: Candidate) -> Seq<char> {
    match c.name {
        Some(n) => n@,
        None => Seq::<char>::empty(),
    }
}

} // verus!
