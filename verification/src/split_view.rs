//! Split-screen bookkeeping for terminal panes: which panes exist, which one
//! has focus, which session each shows, and the shared list of sessions.
//!
//! The widgets that draw panes live with the interface; this module decides
//! what each pane shows after every operation.

use vstd::prelude::*;
use crate::ids::{new_id, parse_id, uuid_parse, version4_marks};

verus! {

/// Represents a split direction for terminal panes.
#[derive(Debug, Clone, Copy, PartialEq, Eq, Structural)]
pub enum SplitDirection {
    /// Split horizontally (top and bottom panes)
    Horizontal,
    /// Split vertically (left and right panes)
    Vertical,
}

/// The orientation of the container that holds two split panes.
#[derive(Debug, Clone, Copy, PartialEq, Eq, Structural)]
pub enum Orientation {
    /// Children side by side
    Horizontal,
    /// Children stacked
    Vertical,
}

impl SplitDirection {
    /// Converts to the container orientation: a horizontal split stacks its
    /// panes vertically, a vertical split places them side by side.
    pub fn to_orientation(self) -> (o: Orientation)
        ensures
            o == (match self {
                SplitDirection::Horizontal => Orientation::Vertical,
                SplitDirection::Vertical => Orientation::Horizontal,
            }),
    {
        match self {
            SplitDirection::Horizontal => Orientation::Vertical,
            SplitDirection::Vertical => Orientation::Horizontal,
        }
    }
}

/// A pane in the split terminal view: its identifier and the session it
/// currently shows, if any.
#[derive(Debug, Clone, Copy, PartialEq, Eq, Structural)]
pub struct TerminalPane {
    /// Unique identifier of the pane
    pub id: u128,
    /// The session shown in the pane, if any
    pub current_session: Option<u128>,
}

/// The session a text dropped on a pane names: the identifier that
/// `uuid::Uuid::parse_str` reads from it, if any.
pub fn dropped_session(text: &str) -> (r: Option<u128>)
    ensures
        r == uuid_parse(text@),
{
    parse_id(text)
}

impl TerminalPane {
    /// Creates an empty pane with a fresh random identifier, a version 4
    /// UUID.
    pub fn new() -> (p: Self)
        ensures
            p.current_session is None,
            version4_marks(p.id),
    {
        TerminalPane { id: new_id(), current_session: None }
    }

    /// Creates an empty pane with the given identifier.
    pub fn with_id(id: u128) -> (p: Self)
        ensures
            p.id == id,
            p.current_session is None,
    {
        TerminalPane { id, current_session: None }
    }

    /// Returns the pane's unique identifier.
    pub fn id(&self) -> (id: u128)
        ensures
            id == self.id,
    {
        self.id
    }

    /// Returns the currently displayed session ID.
    pub fn current_session(&self) -> (s: Option<u128>)
        ensures
            s == self.current_session,
    {
        self.current_session
    }

    /// Sets the currently displayed session.
    pub fn set_current_session(&mut self, session_id: Option<u128>)
        ensures
            final(self).id == old(self).id,
            final(self).current_session == session_id,
    {
        self.current_session = session_id;
    }
}

/// The index of the first pane with identifier `id`, or -1.
pub open spec fn index_of_pane(panes: Seq<TerminalPane>, id: u128) -> int
    decreases panes.len(),
{
    if panes.len() == 0 {
        -1
    } else if index_of_pane(panes.drop_last(), id) >= 0 {
        index_of_pane(panes.drop_last(), id)
    } else if panes.last().id == id {
        panes.len() - 1
    } else {
        -1
    }
}

/// The index of the first pane showing `session`, or -1.
pub open spec fn index_showing(panes: Seq<TerminalPane>, session: u128) -> int
    decreases panes.len(),
{
    if panes.len() == 0 {
        -1
    } else if index_showing(panes.drop_last(), session) >= 0 {
        index_showing(panes.drop_last(), session)
    } else if panes.last().current_session == Some(session) {
        panes.len() - 1
    } else {
        -1
    }
}

/// `index_of_pane` is the first index holding `id`, or -1 when none does.
pub proof fn lemma_index_of_pane(panes: Seq<TerminalPane>, id: u128)
    ensures
        -1 <= index_of_pane(panes, id) < panes.len(),
        index_of_pane(panes, id) == -1 <==> forall|i: int|
            0 <= i < panes.len() ==> panes[i].id != id,
        index_of_pane(panes, id) >= 0 ==> panes[index_of_pane(panes, id)].id == id,
        forall|i: int| 0 <= i < index_of_pane(panes, id) ==> panes[i].id != id,
    decreases panes.len(),
{
    if panes.len() > 0 {
        lemma_index_of_pane(panes.drop_last(), id);
        assert forall|i: int| 0 <= i < panes.len() - 1 implies panes.drop_last()[i] == panes[i] by {}
    }
}

/// `index_showing` is the first index showing `session`, or -1 when none does.
pub proof fn lemma_index_showing(panes: Seq<TerminalPane>, session: u128)
    ensures
        -1 <= index_showing(panes, session) < panes.len(),
        index_showing(panes, session) == -1 <==> forall|i: int|
            0 <= i < panes.len() ==> panes[i].current_session != Some(session),
        index_showing(panes, session) >= 0 ==> panes[index_showing(
            panes,
            session,
        )].current_session == Some(session),
        forall|i: int|
            0 <= i < index_showing(panes, session) ==> panes[i].current_session != Some(session),
    decreases panes.len(),
{
    if panes.len() > 0 {
        lemma_index_showing(panes.drop_last(), session);
        assert forall|i: int| 0 <= i < panes.len() - 1 implies panes.drop_last()[i] == panes[i] by {}
    }
}

/// With distinct identifiers, the pane at `j` is the one found for its id.
pub proof fn lemma_distinct_index(panes: Seq<TerminalPane>, j: int)
    requires
        distinct_pane_ids(panes),
        0 <= j < panes.len(),
    ensures
        index_of_pane(panes, panes[j].id) == j,
{
    lemma_index_of_pane(panes, panes[j].id);
}

/// Lookup by identifier sees only identifiers.
pub proof fn lemma_index_same_ids(a: Seq<TerminalPane>, b: Seq<TerminalPane>, id: u128)
    requires
        a.len() == b.len(),
        forall|i: int| 0 <= i < a.len() ==> a[i].id == b[i].id,
    ensures
        index_of_pane(a, id) == index_of_pane(b, id),
    decreases a.len(),
{
    if a.len() > 0 {
        lemma_index_same_ids(a.drop_last(), b.drop_last(), id);
    }
}

/// Every element kept by a filter comes from the filtered sequence.
pub proof fn lemma_filter_from<A>(s: Seq<A>, pred: spec_fn(A) -> bool)
    ensures
        forall|i: int| 0 <= i < s.filter(pred).len() ==> s.contains(#[trigger] s.filter(pred)[i]),
    decreases s.len(),
{
    reveal(Seq::filter);
    if s.len() > 0 {
        lemma_filter_from(s.drop_last(), pred);
        let f = s.filter(pred);
        assert forall|i: int| 0 <= i < f.len() implies s.contains(#[trigger] f[i]) by {
            let sub = s.drop_last().filter(pred);
            if i < sub.len() {
                assert(f[i] == sub[i]);
                let k = choose|k: int| 0 <= k < s.drop_last().len() && s.drop_last()[k] == sub[i];
                assert(s[k] == f[i]);
            } else {
                assert(f[i] == s.last());
                assert(s[s.len() - 1] == f[i]);
            }
        }
    }
}

/// No two panes share an identifier.
pub open spec fn distinct_pane_ids(panes: Seq<TerminalPane>) -> bool {
    forall|i: int, j: int| 0 <= i < j < panes.len() ==> panes[i].id != panes[j].id
}

/// No session is shown in two panes.
pub open spec fn shown_at_most_once(panes: Seq<TerminalPane>) -> bool {
    forall|i: int, j: int|
        0 <= i < j < panes.len() && panes[i].current_session is Some ==> panes[i].current_session
            != panes[j].current_session
}

/// The pane that follows index `i` when cycling through `n` panes.
pub open spec fn next_focus_index(i: int, n: int) -> int {
    (i + 1) % n
}

/// The panes after showing `session` in the pane at index `f`: when another
/// pane already shows it, that pane takes over what `f` showed (a swap, or
/// empty), and `f` shows the session.
pub open spec fn panes_after_show(panes: Seq<TerminalPane>, f: int, session: u128) -> Seq<
    TerminalPane,
> {
    let cur = panes[f].current_session;
    let src = index_showing(panes, session);
    if cur == Some(session) {
        panes
    } else if src >= 0 {
        panes.update(src, TerminalPane { id: panes[src].id, current_session: cur }).update(
            f,
            TerminalPane { id: panes[f].id, current_session: Some(session) },
        )
    } else {
        panes.update(f, TerminalPane { id: panes[f].id, current_session: Some(session) })
    }
}

/// The panes with every display of `session` cleared.
pub open spec fn panes_without_session(panes: Seq<TerminalPane>, session: u128) -> Seq<
    TerminalPane,
> {
    panes.map_values(
        |p: TerminalPane|
            if p.current_session == Some(session) {
                TerminalPane { id: p.id, current_session: None }
            } else {
                p
            },
    )
}

/// Whether a pane shows a session.
pub open spec fn has_content(p: TerminalPane) -> bool {
    p.current_session is Some
}

/// Panes and focus after collapsing empty panes: when more than one pane
/// exists and at most one shows a session, only the pane with content stays
/// (or, when none has content, the last pane), and it takes the focus.
pub open spec fn collapsed(panes: Seq<TerminalPane>, focused: u128) -> (Seq<TerminalPane>, u128) {
    let with = panes.filter(|p: TerminalPane| has_content(p));
    if panes.len() <= 1 || with.len() > 1 {
        (panes, focused)
    } else if with.len() == 1 {
        (with, with[0].id)
    } else {
        (seq![panes.last()], panes.last().id)
    }
}

/// The identifiers of the panes, in order.
pub open spec fn pane_ids_of(panes: Seq<TerminalPane>) -> Seq<u128> {
    panes.map_values(|p: TerminalPane| p.id)
}

/// Manages split terminal panes with a unified session list.
pub struct SplitTerminalView {
    panes: Vec<TerminalPane>,
    focused_pane: u128,
    sessions: Vec<u128>,
}

impl SplitTerminalView {
    /// The panes, in order.
    pub closed spec fn panes_spec(&self) -> Seq<TerminalPane> {
        self.panes@
    }

    /// The identifier of the focused pane.
    pub closed spec fn focused_spec(&self) -> u128 {
        self.focused_pane
    }

    /// The sessions known to the view.
    pub closed spec fn sessions_spec(&self) -> Seq<u128> {
        self.sessions@
    }

    /// The index of the focused pane.
    pub open spec fn focused_index(&self) -> int {
        index_of_pane(self.panes_spec(), self.focused_spec())
    }


    fn find_pane(&self, id: u128) -> (r: Option<usize>)
        ensures
            match r {
                Some(i) => i as int == index_of_pane(self.panes@, id) && i < self.panes@.len()
                    && self.panes@[i as int].id == id,
                None => index_of_pane(self.panes@, id) == -1,
            },
    {
        proof {
            lemma_index_of_pane(self.panes@, id);
        }
        let mut i: usize = 0;
        while i < self.panes.len()
            invariant
                i <= self.panes@.len(),
                forall|k: int| 0 <= k < i ==> self.panes@[k].id != id,
                -1 <= index_of_pane(self.panes@, id) < self.panes@.len(),
                index_of_pane(self.panes@, id) == -1 <==> forall|k: int|
                    0 <= k < self.panes@.len() ==> self.panes@[k].id != id,
                index_of_pane(self.panes@, id) >= 0 ==> self.panes@[index_of_pane(
                    self.panes@,
                    id,
                )].id == id,
                forall|k: int| 0 <= k < index_of_pane(self.panes@, id) ==> self.panes@[k].id != id,
            decreases self.panes.len() - i,
        {
            if self.panes[i].id == id {
                return Some(i);
            }
            i += 1;
        }
        None
    }

    fn find_showing(&self, session: u128) -> (r: Option<usize>)
        ensures
            match r {
                Some(i) => i as int == index_showing(self.panes@, session) && i < self.panes@.len()
                    && self.panes@[i as int].current_session == Some(session),
                None => index_showing(self.panes@, session) == -1,
            },
    {
        proof {
            lemma_index_showing(self.panes@, session);
        }
        let mut i: usize = 0;
        while i < self.panes.len()
            invariant
                i <= self.panes@.len(),
                forall|k: int| 0 <= k < i ==> self.panes@[k].current_session != Some(session),
                -1 <= index_showing(self.panes@, session) < self.panes@.len(),
                index_showing(self.panes@, session) == -1 <==> forall|k: int|
                    0 <= k < self.panes@.len() ==> self.panes@[k].current_session != Some(session),
                index_showing(self.panes@, session) >= 0 ==> self.panes@[index_showing(
                    self.panes@,
                    session,
                )].current_session == Some(session),
                forall|k: int|
                    0 <= k < index_showing(self.panes@, session) ==> self.panes@[k].current_session
                        != Some(session),
            decreases self.panes.len() - i,
        {
            if self.panes[i].current_session == Some(session) {
                return Some(i);
            }
            i += 1;
        }
        None
    }

    fn focused_position(&self) -> (i: usize)
        requires
            self.wf(),
        ensures
            i as int == self.focused_index(),
    {
        match self.find_pane(self.focused_pane) {
            Some(i) => i,
            None => 0,
        }
    }

    fn has_session(&self, session: u128) -> (b: bool)
        ensures
            b == self.sessions@.contains(session),
    {
        let mut i: usize = 0;
        while i < self.sessions.len()
            invariant
                i <= self.sessions@.len(),
                forall|k: int| 0 <= k < i ==> self.sessions@[k] != session,
            decreases self.sessions.len() - i,
        {
            if self.sessions[i] == session {
                return true;
            }
            i += 1;
        }
        false
    }

    /// Creates a view with one empty pane that has the focus and no sessions.
    pub fn new() -> (v: Self)
        ensures
            v.wf(),
            v.panes_spec().len() == 1,
            v.panes_spec()[0].current_session is None,
            v.focused_spec() == v.panes_spec()[0].id,
            v.sessions_spec().len() == 0,
    {
        let pane = TerminalPane::new();
        let id = pane.id;
        let v = SplitTerminalView { panes: vec![pane], focused_pane: id, sessions: Vec::new() };
        proof {
            lemma_index_of_pane(v.panes@, id);
        }
        v
    }

    /// Returns the number of panes.
    pub fn pane_count(&self) -> (n: usize)
        ensures
            n == self.panes_spec().len(),
    {
        self.panes.len()
    }

    /// Returns the focused pane ID.
    pub fn focused_pane_id(&self) -> (id: Option<u128>)
        ensures
            id == Some(self.focused_spec()),
    {
        Some(self.focused_pane)
    }

    /// Returns all pane IDs, in order.
    pub fn pane_ids(&self) -> (ids: Vec<u128>)
        ensures
            ids@ == pane_ids_of(self.panes_spec()),
    {
        let mut ids: Vec<u128> = Vec::new();
        let mut i: usize = 0;
        while i < self.panes.len()
            invariant
                i <= self.panes@.len(),
                ids@ == pane_ids_of(self.panes@.take(i as int)),
            decreases self.panes.len() - i,
        {
            ids.push(self.panes[i].id);
            proof {
                assert(pane_ids_of(self.panes@.take(i + 1)) =~= pane_ids_of(
                    self.panes@.take(i as int),
                ).push(self.panes@[i as int].id));
            }
            i += 1;
        }
        proof {
            assert(self.panes@.take(self.panes@.len() as int) =~= self.panes@);
        }
        ids
    }

    /// Returns all session IDs.
    pub fn session_ids(&self) -> (ids: Vec<u128>)
        ensures
            ids@ == self.sessions_spec(),
    {
        self.sessions.clone()
    }

    /// Returns the number of sessions.
    pub fn session_count(&self) -> (n: usize)
        ensures
            n == self.sessions_spec().len(),
    {
        self.sessions.len()
    }

    /// Adds a session to the shared session list (no change when present).
    pub fn add_session(&mut self, session_id: u128)
        requires
            old(self).wf(),
        ensures
            final(self).wf(),
            final(self).panes_spec() == old(self).panes_spec(),
            final(self).focused_spec() == old(self).focused_spec(),
            final(self).sessions_spec() == if old(self).sessions_spec().contains(session_id) {
                old(self).sessions_spec()
            } else {
                old(self).sessions_spec().push(session_id)
            },
    {
        if !self.has_session(session_id) {
            self.sessions.push(session_id);
        }
    }

    /// Removes a session from the shared session list.
    pub fn remove_session(&mut self, session_id: u128)
        requires
            old(self).wf(),
        ensures
            final(self).wf(),
            final(self).panes_spec() == old(self).panes_spec(),
            final(self).focused_spec() == old(self).focused_spec(),
            final(self).sessions_spec() == old(self).sessions_spec().filter(
                |s: u128| s != session_id,
            ),
    {
        let ghost old_sessions = self.sessions@;
        let mut kept: Vec<u128> = Vec::new();
        let mut i: usize = 0;
        while i < self.sessions.len()
            invariant
                i <= self.sessions@.len(),
                self.sessions@ == old_sessions,
                kept@ == old_sessions.take(i as int).filter(|s: u128| s != session_id),
                forall|k: int| 0 <= k < kept@.len() ==> old_sessions.take(i as int).contains(kept@[k]),
                kept@.no_duplicates(),
                old_sessions.no_duplicates(),
            decreases self.sessions.len() - i,
        {
            proof {
                reveal(Seq::filter);
                assert(old_sessions.take(i + 1).drop_last() =~= old_sessions.take(i as int));
            }
            let s = self.sessions[i];
            if s != session_id {
                proof {
                    assert(!old_sessions.take(i as int).contains(s)) by {
                        if old_sessions.take(i as int).contains(s) {
                            let k = choose|k: int| 0 <= k < i && old_sessions.take(i as int)[k] == s;
                            assert(old_sessions[k] == old_sessions[i as int]);
                        }
                    }
                }
                kept.push(s);
            }
            proof {
                assert forall|k: int| 0 <= k < kept@.len() implies old_sessions.take(i + 1).contains(kept@[k]) by {
                    if k < kept@.len() - 1 || s == session_id {
                        let j = choose|j: int| 0 <= j < i && old_sessions.take(i as int)[j] == kept@[k];
                        assert(old_sessions.take(i + 1)[j] == kept@[k]);
                    } else {
                        assert(old_sessions.take(i + 1)[i as int] == kept@[k]);
                    }
                }
            }
            i += 1;
        }
        proof {
            assert(old_sessions.take(old_sessions.len() as int) =~= old_sessions);
        }
        self.sessions = kept;
    }

    /// Sets the focused pane by ID (no change when no such pane exists).
    pub fn set_focused_pane(&mut self, pane_id: u128)
        requires
            old(self).wf(),
        ensures
            final(self).wf(),
            final(self).panes_spec() == old(self).panes_spec(),
            final(self).sessions_spec() == old(self).sessions_spec(),
            final(self).focused_spec() == if index_of_pane(old(self).panes_spec(), pane_id) >= 0 {
                pane_id
            } else {
                old(self).focused_spec()
            },
    {
        if self.find_pane(pane_id).is_some() {
            self.focused_pane = pane_id;
        }
    }

    /// Gets the focused pane's current session.
    pub fn get_focused_session(&self) -> (s: Option<u128>)
        requires
            self.wf(),
        ensures
            s == self.panes_spec()[self.focused_index()].current_session,
    {
        let i = self.focused_position();
        self.panes[i].current_session
    }

    /// Gets the session displayed in a specific pane.
    pub fn get_pane_session(&self, pane_id: u128) -> (s: Option<u128>)
        ensures
            s == if index_of_pane(self.panes_spec(), pane_id) >= 0 {
                self.panes_spec()[index_of_pane(self.panes_spec(), pane_id)].current_session
            } else {
                None
            },
    {
        match self.find_pane(pane_id) {
            Some(i) => self.panes[i].current_session,
            None => None,
        }
    }


    fn content_panes(&self) -> (with: Vec<TerminalPane>)
        ensures
            with@ == self.panes@.filter(|p: TerminalPane| has_content(p)),
    {
        let mut with: Vec<TerminalPane> = Vec::new();
        let mut i: usize = 0;
        while i < self.panes.len()
            invariant
                i <= self.panes@.len(),
                with@ == self.panes@.take(i as int).filter(|p: TerminalPane| has_content(p)),
            decreases self.panes.len() - i,
        {
            proof {
                reveal(Seq::filter);
                assert(self.panes@.take(i + 1).drop_last() =~= self.panes@.take(i as int));
            }
            let p = self.panes[i];
            if p.current_session.is_some() {
                with.push(p);
            }
            i += 1;
        }
        proof {
            assert(self.panes@.take(self.panes@.len() as int) =~= self.panes@);
        }
        with
    }

    /// Splits the focused pane: a new empty pane with a fresh random
    /// identifier joins the view, and the focus stays where it was.
    ///
    /// Returns the new pane's identifier, or `None` (and no change) in the
    /// event that the drawn identifier is already taken by a pane.
    pub fn split(&mut self, direction: SplitDirection) -> (r: Option<u128>)
        requires
            old(self).wf(),
        ensures
            final(self).wf(),
            final(self).sessions_spec() == old(self).sessions_spec(),
            final(self).focused_spec() == old(self).focused_spec(),
            match r {
                Some(id) => index_of_pane(old(self).panes_spec(), id) == -1
                    && final(self).panes_spec() == old(self).panes_spec().push(
                    TerminalPane { id, current_session: None },
                ),
                None => final(self).panes_spec() == old(self).panes_spec(),
            },
            r matches Some(id) ==> version4_marks(id),
    {
        let id = new_id();
        self.split_with_pane_id(direction, id)
    }

    /// Splits the focused pane, giving the new empty pane identifier `id`;
    /// `None` (and no change) when a pane already has that identifier.
    pub fn split_with_pane_id(&mut self, direction: SplitDirection, id: u128) -> (r: Option<u128>)
        requires
            old(self).wf(),
        ensures
            final(self).wf(),
            final(self).sessions_spec() == old(self).sessions_spec(),
            final(self).focused_spec() == old(self).focused_spec(),
            r == (if index_of_pane(old(self).panes_spec(), id) == -1 {
                Some(id)
            } else {
                None::<u128>
            }),
            r is Some ==> final(self).panes_spec() == old(self).panes_spec().push(
                TerminalPane { id, current_session: None },
            ),
            r is None ==> final(self).panes_spec() == old(self).panes_spec(),
    {
        let _orientation = direction.to_orientation();
        if self.find_pane(id).is_some() {
            return None;
        }
        let ghost before = self.panes@;
        proof {
            lemma_index_of_pane(before, id);
        }
        self.panes.push(TerminalPane::with_id(id));
        proof {
            assert(self.panes@.drop_last() =~= before);
            lemma_index_of_pane(before, self.focused_pane);
        }
        Some(id)
    }

    /// Closes the focused pane. The focus moves to the pane that took its
    /// place, or to the new last pane when the closed pane was the last.
    ///
    /// Returns false (and changes nothing) when only one pane exists.
    pub fn close_pane(&mut self) -> (closed: bool)
        requires
            old(self).wf(),
        ensures
            final(self).wf(),
            final(self).sessions_spec() == old(self).sessions_spec(),
            closed == (old(self).panes_spec().len() > 1),
            !closed ==> final(self).panes_spec() == old(self).panes_spec() && final(self).focused_spec() == old(self).focused_spec(),
            closed ==> final(self).panes_spec() == old(self).panes_spec().remove(
                old(self).focused_index(),
            ),
            closed ==> final(self).focused_spec() == final(self).panes_spec()[if old(self).focused_index() < final(self).panes_spec().len() {
                old(self).focused_index()
            } else {
                final(self).panes_spec().len() - 1
            }].id,
    {
        if self.panes.len() <= 1 {
            return false;
        }
        let index = self.focused_position();
        let ghost before = self.panes@;
        self.panes.remove(index);
        let new_index = if index < self.panes.len() {
            index
        } else {
            self.panes.len() - 1
        };
        self.focused_pane = self.panes[new_index].id;
        proof {
            assert(distinct_pane_ids(self.panes@)) by {
                assert forall|i: int, j: int|
                    0 <= i < j < self.panes@.len() implies self.panes@[i].id
                    != self.panes@[j].id by {
                    let oi = if i < index { i } else { i + 1 };
                    let oj = if j < index { j } else { j + 1 };
                    assert(self.panes@[i] == before[oi]);
                    assert(self.panes@[j] == before[oj]);
                }
            }
            lemma_distinct_index(self.panes@, new_index as int);
        }
        true
    }

    /// Cycles focus to the next pane (wrapping around) and returns its ID.
    pub fn focus_next_pane(&mut self) -> (r: Option<u128>)
        requires
            old(self).wf(),
        ensures
            final(self).wf(),
            final(self).panes_spec() == old(self).panes_spec(),
            final(self).sessions_spec() == old(self).sessions_spec(),
            r == Some(final(self).focused_spec()),
            final(self).focused_spec() == old(self).panes_spec()[next_focus_index(
                old(self).focused_index(),
                old(self).panes_spec().len() as int,
            )].id,
    {
        let current = self.focused_position();
        assert(current < self.panes.len());
        let next = (current + 1) % self.panes.len();
        self.focused_pane = self.panes[next].id;
        proof {
            lemma_distinct_index(self.panes@, next as int);
        }
        Some(self.focused_pane)
    }

    /// Sets focus to a specific pane; false (no change) when it does not exist.
    pub fn focus_pane(&mut self, pane_id: u128) -> (found: bool)
        requires
            old(self).wf(),
        ensures
            final(self).wf(),
            final(self).panes_spec() == old(self).panes_spec(),
            final(self).sessions_spec() == old(self).sessions_spec(),
            found == (index_of_pane(old(self).panes_spec(), pane_id) >= 0),
            final(self).focused_spec() == if found {
                pane_id
            } else {
                old(self).focused_spec()
            },
    {
        if self.find_pane(pane_id).is_some() {
            self.focused_pane = pane_id;
            true
        } else {
            false
        }
    }

    /// Displays a session in the focused pane. When another pane already
    /// shows it, that pane takes over what the focused pane showed (the two
    /// swap), or becomes empty.
    ///
    /// Returns false (no change) when the session is unknown.
    pub fn show_session(&mut self, session_id: u128) -> (shown: bool)
        requires
            old(self).wf(),
        ensures
            final(self).wf(),
            final(self).sessions_spec() == old(self).sessions_spec(),
            final(self).focused_spec() == old(self).focused_spec(),
            shown == old(self).sessions_spec().contains(session_id),
            shown ==> final(self).panes_spec() == panes_after_show(
                old(self).panes_spec(),
                old(self).focused_index(),
                session_id,
            ),
            !shown ==> final(self).panes_spec() == old(self).panes_spec(),
    {
        if !self.has_session(session_id) {
            return false;
        }
        let f = self.focused_position();
        let cur = self.panes[f].current_session;
        if cur == Some(session_id) {
            return true;
        }
        let ghost before = self.panes@;
        match self.find_showing(session_id) {
            Some(src) => {
                let src_id = self.panes[src].id;
                self.panes.set(src, TerminalPane { id: src_id, current_session: cur });
                let f_id = self.panes[f].id;
                self.panes.set(f, TerminalPane { id: f_id, current_session: Some(session_id) });
            },
            None => {
                let f_id = self.panes[f].id;
                self.panes.set(f, TerminalPane { id: f_id, current_session: Some(session_id) });
            },
        }
        proof {
            assert forall|i: int| 0 <= i < self.panes@.len() implies self.panes@[i].id
                == before[i].id by {}
            lemma_index_same_ids(self.panes@, before, self.focused_pane);
        }
        true
    }

    /// Shows a session in a specific pane and focuses that pane; false (no
    /// change) when the session or the pane is unknown.
    pub fn show_session_in_pane(&mut self, pane_id: u128, session_id: u128) -> (shown: bool)
        requires
            old(self).wf(),
        ensures
            final(self).wf(),
            final(self).sessions_spec() == old(self).sessions_spec(),
            shown == (old(self).sessions_spec().contains(session_id) && index_of_pane(
                old(self).panes_spec(),
                pane_id,
            ) >= 0),
            shown ==> final(self).panes_spec() == old(self).panes_spec().update(
                index_of_pane(old(self).panes_spec(), pane_id),
                TerminalPane { id: pane_id, current_session: Some(session_id) },
            ) && final(self).focused_spec() == pane_id,
            !shown ==> final(self).panes_spec() == old(self).panes_spec() && final(self).focused_spec() == old(self).focused_spec(),
    {
        if !self.has_session(session_id) {
            return false;
        }
        let Some(i) = self.find_pane(pane_id) else {
            return false;
        };
        let ghost before = self.panes@;
        self.panes.set(i, TerminalPane { id: pane_id, current_session: Some(session_id) });
        self.focused_pane = pane_id;
        proof {
            assert forall|k: int| 0 <= k < self.panes@.len() implies self.panes@[k].id
                == before[k].id by {}
            lemma_index_same_ids(self.panes@, before, pane_id);
        }
        true
    }

    /// Handles a session dropped on a pane: the pane takes the focus, and
    /// shows the session when the session is known.
    pub fn drop_session_on_pane(&mut self, pane_id: u128, session_id: u128)
        requires
            old(self).wf(),
        ensures
            final(self).wf(),
            final(self).sessions_spec() == old(self).sessions_spec(),
            final(self).focused_spec() == if index_of_pane(old(self).panes_spec(), pane_id) >= 0 {
                pane_id
            } else {
                old(self).focused_spec()
            },
            final(self).panes_spec() == if index_of_pane(old(self).panes_spec(), pane_id) >= 0
                && old(self).sessions_spec().contains(session_id) {
                old(self).panes_spec().update(
                    index_of_pane(old(self).panes_spec(), pane_id),
                    TerminalPane { id: pane_id, current_session: Some(session_id) },
                )
            } else {
                old(self).panes_spec()
            },
    {
        self.set_focused_pane(pane_id);
        let _ = self.show_session_in_pane(pane_id, session_id);
    }

    /// Handles a text dropped on a pane. A text that is not a session
    /// identifier changes nothing. Otherwise the pane takes the focus and, when
    /// the session is known, shows it; an unknown session is returned, to be
    /// looked up elsewhere, after which `add_session` and
    /// `show_session_in_pane` complete the drop.
    pub fn drop_text_on_pane(&mut self, pane_id: u128, text: &str) -> (lookup: Option<u128>)
        requires
            old(self).wf(),
        ensures
            final(self).wf(),
            final(self).sessions_spec() == old(self).sessions_spec(),
            match uuid_parse(text@) {
                None => {
                    &&& lookup is None
                    &&& final(self).focused_spec() == old(self).focused_spec()
                    &&& final(self).panes_spec() == old(self).panes_spec()
                },
                Some(s) => {
                    &&& lookup == if old(self).sessions_spec().contains(s) {
                        None::<u128>
                    } else {
                        Some(s)
                    }
                    &&& final(self).focused_spec() == if index_of_pane(
                        old(self).panes_spec(),
                        pane_id,
                    ) >= 0 {
                        pane_id
                    } else {
                        old(self).focused_spec()
                    }
                    &&& final(self).panes_spec() == if index_of_pane(old(self).panes_spec(), pane_id)
                        >= 0 && old(self).sessions_spec().contains(s) {
                        old(self).panes_spec().update(
                            index_of_pane(old(self).panes_spec(), pane_id),
                            TerminalPane { id: pane_id, current_session: Some(s) },
                        )
                    } else {
                        old(self).panes_spec()
                    }
                },
            },
    {
        match dropped_session(text) {
            None => None,
            Some(s) => {
                let known = self.has_session(s);
                self.drop_session_on_pane(pane_id, s);
                if known {
                    None
                } else {
                    Some(s)
                }
            },
        }
    }

    /// Shows the welcome content in the focused pane, which then shows no
    /// session.
    pub fn show_welcome_in_focused_pane(&mut self)
        requires
            old(self).wf(),
        ensures
            final(self).wf(),
            final(self).sessions_spec() == old(self).sessions_spec(),
            final(self).focused_spec() == old(self).focused_spec(),
            final(self).panes_spec() == old(self).panes_spec().update(
                old(self).focused_index(),
                TerminalPane { id: old(self).focused_spec(), current_session: None },
            ),
    {
        let f = self.focused_position();
        let ghost before = self.panes@;
        let id = self.focused_pane;
        proof {
            lemma_index_of_pane(before, id);
        }
        self.panes.set(f, TerminalPane { id, current_session: None });
        proof {
            assert forall|k: int| 0 <= k < self.panes@.len() implies self.panes@[k].id
                == before[k].id by {}
            lemma_index_same_ids(self.panes@, before, id);
        }
    }

    /// Collapses empty panes when more than one pane exists and at most one
    /// shows a session (see `collapsed`).
    fn auto_collapse_empty_panes(&mut self)
        requires
            old(self).wf(),
        ensures
            final(self).wf(),
            final(self).sessions_spec() == old(self).sessions_spec(),
            (final(self).panes_spec(), final(self).focused_spec()) == collapsed(
                old(self).panes_spec(),
                old(self).focused_spec(),
            ),
    {
        if self.panes.len() <= 1 {
            return;
        }
        let with = self.content_panes();
        if with.len() > 1 {
            return;
        }
        let keep = if with.len() == 1 {
            with[0]
        } else {
            self.panes[self.panes.len() - 1]
        };
        self.panes = vec![keep];
        self.focused_pane = keep.id;
        proof {
            assert(self.panes@ =~= seq![keep]);
            if with@.len() == 1 {
                assert(with@ =~= seq![with@[0]]);
            }
            lemma_index_of_pane(self.panes@, keep.id);
        }
    }

    /// Clears a session from every pane that shows it and from the session
    /// list, then collapses the split when at most one pane keeps content.
    pub fn clear_session_from_panes(&mut self, session_id: u128)
        requires
            old(self).wf(),
        ensures
            final(self).wf(),
            final(self).sessions_spec() == old(self).sessions_spec().filter(
                |s: u128| s != session_id,
            ),
            (final(self).panes_spec(), final(self).focused_spec()) == collapsed(
                panes_without_session(old(self).panes_spec(), session_id),
                old(self).focused_spec(),
            ),
    {
        let ghost before = self.panes@;
        let mut i: usize = 0;
        while i < self.panes.len()
            invariant
                i <= self.panes@.len(),
                self.panes@.len() == before.len(),
                forall|k: int|
                    0 <= k < i ==> self.panes@[k] == panes_without_session(before, session_id)[k],
                forall|k: int| i <= k < self.panes@.len() ==> self.panes@[k] == before[k],
                self.sessions@.no_duplicates(),
                self.focused_pane == old(self).focused_pane,
                self.sessions@ == old(self).sessions@,
            decreases self.panes.len() - i,
        {
            let p = self.panes[i];
            if p.current_session == Some(session_id) {
                self.panes.set(i, TerminalPane { id: p.id, current_session: None });
            }
            i += 1;
        }
        proof {
            assert(self.panes@ =~= panes_without_session(before, session_id));
            assert forall|k: int| 0 <= k < self.panes@.len() implies self.panes@[k].id
                == before[k].id by {
                assert(self.panes@[k] == panes_without_session(before, session_id)[k]);
            }
            lemma_index_same_ids(self.panes@, before, self.focused_pane);
            assert(distinct_pane_ids(self.panes@));
        }
        self.remove_session(session_id);
        self.auto_collapse_empty_panes();
    }

    /// At least one pane, distinct pane identifiers, the focus on an existing
    /// pane, and distinct sessions.
    pub open spec fn wf(&self) -> bool {
        &&& self.panes_spec().len() >= 1
        &&& distinct_pane_ids(self.panes_spec())
        &&& 0 <= self.focused_index() < self.panes_spec().len()
        &&& self.sessions_spec().no_duplicates()
    }
}

/// The focus index after cycling `k` times from `i` through `n` panes.
pub open spec fn focus_after_cycles(i: int, k: nat, n: int) -> int
    decreases k,
{
    if k == 0 {
        i
    } else {
        next_focus_index(focus_after_cycles(i, (k - 1) as nat, n), n)
    }
}

/// Showing a session in the focused pane `f` swaps displays: `f` shows the
/// session, the pane that showed it (if another did) now shows what `f`
/// showed, and every other pane keeps its display; no pane changes its
/// identifier. So when another pane showed the session, no session shown
/// before stops being shown.
pub proof fn show_session_swaps(panes: Seq<TerminalPane>, f: int, session: u128)
    requires
        0 <= f < panes.len(),
        shown_at_most_once(panes),
    ensures
        ({
            let after = panes_after_show(panes, f, session);
            &&& after.len() == panes.len()
            &&& forall|j: int| 0 <= j < panes.len() ==> (#[trigger] after[j]).id == panes[j].id
            &&& after[f].current_session == Some(session)
            &&& forall|j: int|
                0 <= j < panes.len() && j != f ==> (#[trigger] after[j]).current_session == if panes[j].current_session
                    == Some(session) {
                    panes[f].current_session
                } else {
                    panes[j].current_session
                }
        }),
{
    lemma_index_showing(panes, session);
    let after = panes_after_show(panes, f, session);
    let src = index_showing(panes, session);
    let cur = panes[f].current_session;
    assert forall|j: int|
        0 <= j < panes.len() && j != f implies (#[trigger] after[j]).current_session == if panes[j].current_session
            == Some(session) {
            panes[f].current_session
        } else {
            panes[j].current_session
        } by {
        if panes[j].current_session == Some(session) {
            if cur == Some(session) {
                if j < f {
                    assert(panes[j].current_session != panes[f].current_session);
                } else {
                    assert(panes[f].current_session != panes[j].current_session);
                }
            } else {
                assert(src >= 0);
                if src != j {
                    if src < j {
                        assert(panes[src].current_session != panes[j].current_session);
                    }
                }
            }
        }
    }
}

/// Showing a session never makes a session appear in two panes: if no
/// session was shown twice before, none is after.
pub proof fn show_session_keeps_single_display(panes: Seq<TerminalPane>, f: int, session: u128)
    requires
        0 <= f < panes.len(),
        shown_at_most_once(panes),
    ensures
        shown_at_most_once(panes_after_show(panes, f, session)),
        panes_after_show(panes, f, session)[f].current_session == Some(session),
        panes_after_show(panes, f, session).len() == panes.len(),
{
    lemma_index_showing(panes, session);
    let after = panes_after_show(panes, f, session);
    let cur = panes[f].current_session;
    let src = index_showing(panes, session);
    assert forall|i: int, j: int|
        0 <= i < j < after.len() && after[i].current_session is Some implies after[i].current_session
        != after[j].current_session by {
        if cur == Some(session) {
        } else if src >= 0 {
            // the source now shows what the focused pane showed
            if i == f || j == f {
                if i == src || j == src {
                } else {
                    let o = if i == f { j } else { i };
                    assert(panes[o].current_session != Some(session)) by {
                        if panes[o].current_session == Some(session) {
                            if o < src {
                            } else {
                                assert(panes[src].current_session == panes[o].current_session);
                            }
                        }
                    }
                }
            } else if i == src || j == src {
                let o = if i == src { j } else { i };
                if cur is Some {
                    if o < f {
                        assert(panes[o].current_session != panes[f].current_session);
                    } else {
                        assert(panes[f].current_session != panes[o].current_session);
                    }
                }
            }
        } else {
        }
    }
}

/// After a session is cleared from the panes, no pane shows it.
pub proof fn cleared_session_is_shown_nowhere(
    panes: Seq<TerminalPane>,
    focused: u128,
    session: u128,
)
    ensures
        forall|i: int|
            0 <= i < collapsed(panes_without_session(panes, session), focused).0.len()
                ==> #[trigger] collapsed(panes_without_session(panes, session), focused).0[i].current_session
                != Some(session),
{
    let cleared = panes_without_session(panes, session);
    assert forall|i: int| 0 <= i < cleared.len() implies #[trigger] cleared[i].current_session != Some(
        session,
    ) by {}
    let with = cleared.filter(|p: TerminalPane| has_content(p));
    lemma_filter_from(cleared, |p: TerminalPane| has_content(p));
    assert forall|i: int| 0 <= i < with.len() implies #[trigger] with[i].current_session != Some(
        session,
    ) by {
        let k = choose|k: int| 0 <= k < cleared.len() && cleared[k] == with[i];
    }
}

/// Cycling the focus as many times as there are panes comes back to the
/// pane it started from.
pub proof fn focus_cycle_returns(i: int, n: int)
    requires
        0 <= i < n,
    ensures
        focus_after_cycles(i, n as nat, n) == i,
{
    assert forall|k: nat| #[trigger] focus_after_cycles(i, k, n) == (i + k) % n by {
        lemma_cycles_mod(i, k, n);
    }
    vstd::arithmetic::div_mod::lemma_mod_self_0(n);
    vstd::arithmetic::div_mod::lemma_mod_adds(i, n, n);
    vstd::arithmetic::div_mod::lemma_small_mod(i as nat, n as nat);
}

proof fn lemma_cycles_mod(i: int, k: nat, n: int)
    requires
        0 <= i < n,
    ensures
        focus_after_cycles(i, k, n) == (i + k) % n,
    decreases k,
{
    if k == 0 {
        vstd::arithmetic::div_mod::lemma_small_mod(i as nat, n as nat);
    } else {
        lemma_cycles_mod(i, (k - 1) as nat, n);
        vstd::arithmetic::div_mod::lemma_add_mod_noop_right(1, i + k - 1, n);
    }
}

/// One channel of a premultiplied pixel made straight: `channel * 255 /
/// alpha`, kept to a byte as `as u8` keeps it.
pub open spec fn straight_channel(channel: u8, alpha: u8) -> u8 {
    ((channel as int) * 255 / (alpha as int)) as u8
}

/// The straight RGBA bytes of premultiplied RGBA bytes: each whole pixel of
/// four bytes, in order (a trailing partial pixel is dropped); a fully
/// transparent pixel becomes all zero, any other keeps its alpha and has
/// each colour divided by it.
pub open spec fn straight_rgba(premultiplied: Seq<u8>) -> Seq<u8> {
    Seq::new(
        (premultiplied.len() / 4 * 4) as nat,
        |i: int|
            {
                let a = premultiplied[i - i % 4 + 3];
                if a == 0 {
                    0u8
                } else if i % 4 == 3 {
                    a
                } else {
                    straight_channel(premultiplied[i], a)
                }
            },
    )
}

/// Converts premultiplied RGBA (as a renderer draws it) to straight RGBA
/// (as an image buffer takes it); see `straight_rgba`.
pub fn unpremultiply_rgba(premultiplied: &Vec<u8>) -> (rgba: Vec<u8>)
    ensures
        rgba@ == straight_rgba(premultiplied@),
{
    let total = premultiplied.len();
    let n = total / 4;
    let mut rgba: Vec<u8> = Vec::new();
    let mut k: usize = 0;
    while k < n
        invariant
            total == premultiplied@.len(),
            n == total / 4,
            k <= n,
            rgba@.len() == 4 * k,
            forall|i: int| 0 <= i < 4 * k ==> rgba@[i] == #[trigger] straight_rgba(premultiplied@)[i],
        decreases n - k,
    {
        let base = 4 * k;
        let a = premultiplied[base + 3];
        if a == 0 {
            rgba.push(0);
            rgba.push(0);
            rgba.push(0);
            rgba.push(0);
        } else {
            let r = ((premultiplied[base] as u16) * 255 / (a as u16)) as u8;
            let g = ((premultiplied[base + 1] as u16) * 255 / (a as u16)) as u8;
            let b = ((premultiplied[base + 2] as u16) * 255 / (a as u16)) as u8;
            rgba.push(r);
            rgba.push(g);
            rgba.push(b);
            rgba.push(a);
        }
        proof {
            assert forall|i: int| 4 * k <= i < 4 * k + 4 implies rgba@[i] == #[trigger] straight_rgba(
                premultiplied@,
            )[i] by {
                assert(i - i % 4 == 4 * k);
            }
        }
        k += 1;
    }
    proof {
        assert(rgba@ =~= straight_rgba(premultiplied@));
    }
    rgba
}

} // verus!
