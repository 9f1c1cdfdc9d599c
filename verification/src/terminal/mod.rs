//! The terminal notebook: which session sits on which tab, and what each
//! tab shows.
//!
//! Sessions occupy tabs in the order they were opened; the welcome tab shows
//! exactly when no session is open. The widgets live with the interface,
//! which mirrors every change made here.

pub mod config;
pub mod ssh;
pub mod tabs;

use vstd::prelude::*;
use crate::ids::{new_id, version4_marks};
use crate::seqs::{first_index, lemma_first_index, lemma_first_index_distinct};
use crate::terminal::tabs::{tab_display_decision, fitting_mode, TabDisplayMode};

verus! {

/// Terminal session information.
pub struct TerminalSession {
    /// Session identifier
    pub id: u128,
    /// Connection this session is for
    pub connection_id: u128,
    /// Connection name for display
    pub name: String,
    /// Protocol type (ssh, rdp, vnc, spice)
    pub protocol: String,
    /// Whether this is an embedded terminal or an external window
    pub is_embedded: bool,
    /// Log file path if logging is enabled
    pub log_file: Option<String>,
    /// History entry tracking this session, if any
    pub history_entry_id: Option<u128>,
}

impl TerminalSession {
    /// A field-by-field copy.
    pub fn duplicate(&self) -> (c: Self)
        ensures
            c == *self,
    {
        TerminalSession {
            id: self.id,
            connection_id: self.connection_id,
            name: self.name.clone(),
            protocol: self.protocol.clone(),
            is_embedded: self.is_embedded,
            log_file: match &self.log_file {
                Some(p) => Some(p.clone()),
                None => None,
            },
            history_entry_id: self.history_entry_id,
        }
    }
}

/// The identifiers of the sessions, in tab order.
pub open spec fn session_ids_of(tabs: Seq<TerminalSession>) -> Seq<u128> {
    tabs.map_values(|t: TerminalSession| t.id)
}

/// The tab index of session `id`, or -1.
pub open spec fn page_of(tabs: Seq<TerminalSession>, id: u128) -> int {
    first_index(session_ids_of(tabs), id)
}

/// The session a newly opened tab holds: the given identifier, connection,
/// name, protocol and embedding, with no log file and no history entry.
pub open spec fn opened_session(
    t: TerminalSession,
    id: u128,
    connection_id: u128,
    name: Seq<char>,
    protocol: Seq<char>,
    is_embedded: bool,
) -> bool {
    &&& t.id == id
    &&& t.connection_id == connection_id
    &&& t.name@ == name
    &&& t.protocol@ == protocol
    &&& t.is_embedded == is_embedded
    &&& t.log_file is None
    &&& t.history_entry_id is None
}

/// The notebook of session tabs.
pub struct TerminalNotebook {
    tabs: Vec<TerminalSession>,
    display_mode: TabDisplayMode,
}

impl TerminalNotebook {
    /// The sessions, in tab order.
    pub closed spec fn tabs_spec(&self) -> Seq<TerminalSession> {
        self.tabs@
    }

    /// The current tab display mode.
    pub closed spec fn display_mode_spec(&self) -> TabDisplayMode {
        self.display_mode
    }

    /// Session identifiers are distinct.
    pub open spec fn wf(&self) -> bool {
        session_ids_of(self.tabs_spec()).no_duplicates()
    }

    /// Creates a notebook that shows only the welcome tab.
    pub fn new() -> (n: Self)
        ensures
            n.wf(),
            n.tabs_spec().len() == 0,
            n.display_mode_spec() == TabDisplayMode::Full,
    {
        let n = TerminalNotebook { tabs: Vec::new(), display_mode: TabDisplayMode::Full };
        proof {
            assert(session_ids_of(n.tabs@) =~= Seq::<u128>::empty());
        }
        n
    }

    fn find(&self, id: u128) -> (r: Option<usize>)
        ensures
            match r {
                Some(i) => i as int == page_of(self.tabs@, id) && i < self.tabs@.len(),
                None => page_of(self.tabs@, id) == -1,
            },
    {
        let ghost ids = session_ids_of(self.tabs@);
        let mut i: usize = 0;
        while i < self.tabs.len()
            invariant
                i <= self.tabs@.len(),
                ids == session_ids_of(self.tabs@),
                forall|k: int| 0 <= k < i ==> ids[k] != id,
            decreases self.tabs.len() - i,
        {
            if self.tabs[i].id == id {
                proof {
                    lemma_first_index(ids, id);
                    assert(ids[i as int] == id);
                }
                return Some(i);
            }
            i += 1;
        }
        proof {
            lemma_first_index(ids, id);
        }
        None
    }

    /// Whether the welcome tab shows: exactly when no session is open.
    pub fn shows_welcome(&self) -> (b: bool)
        ensures
            b == (self.tabs_spec().len() == 0),
    {
        self.tabs.len() == 0
    }

    /// Opens a tab for `session` after the existing ones, replacing the
    /// welcome tab when it was the only one. Returns the tab's page number;
    /// `None` (no change) when a tab with that session identifier is open.
    pub fn add_session_tab(&mut self, session: TerminalSession) -> (page: Option<u32>)
        requires
            old(self).wf(),
            old(self).tabs_spec().len() < u32::MAX,
        ensures
            final(self).wf(),
            final(self).display_mode_spec() == old(self).display_mode_spec(),
            page_of(old(self).tabs_spec(), session.id) == -1 ==> page == Some(
                old(self).tabs_spec().len() as u32,
            ) && final(self).tabs_spec() == old(self).tabs_spec().push(session),
            page_of(old(self).tabs_spec(), session.id) != -1 ==> page is None && final(self).tabs_spec() == old(self).tabs_spec(),
    {
        if self.find(session.id).is_some() {
            return None;
        }
        let ghost before = self.tabs@;
        let page = self.tabs.len() as u32;
        proof {
            lemma_first_index(session_ids_of(before), session.id);
        }
        self.tabs.push(session);
        proof {
            assert(session_ids_of(self.tabs@) =~= session_ids_of(before).push(self.tabs@.last().id));
            assert forall|i: int, j: int|
                0 <= i < j < session_ids_of(self.tabs@).len() implies session_ids_of(self.tabs@)[i]
                != session_ids_of(self.tabs@)[j] by {
                if j == before.len() {
                    assert(session_ids_of(before)[i] == session_ids_of(self.tabs@)[i]);
                }
            }
        }
        Some(page)
    }

    fn open_tab(
        &mut self,
        session_id: u128,
        connection_id: u128,
        title: &str,
        protocol: &str,
        is_embedded: bool,
    ) -> (page: Option<u32>)
        requires
            old(self).wf(),
            old(self).tabs_spec().len() < u32::MAX,
        ensures
            final(self).wf(),
            final(self).display_mode_spec() == old(self).display_mode_spec(),
            page_of(old(self).tabs_spec(), session_id) == -1 ==> page == Some(
                old(self).tabs_spec().len() as u32,
            ) && final(self).tabs_spec() == old(self).tabs_spec().push(
                TerminalSession {
                    id: session_id,
                    connection_id,
                    name: final(self).tabs_spec().last().name,
                    protocol: final(self).tabs_spec().last().protocol,
                    is_embedded,
                    log_file: None,
                    history_entry_id: None,
                },
            ) && final(self).tabs_spec().last().name@ == title@ && final(self).tabs_spec().last().protocol@ == protocol@,
            page_of(old(self).tabs_spec(), session_id) != -1 ==> page is None && final(self).tabs_spec() == old(self).tabs_spec(),
    {
        let session = TerminalSession {
            id: session_id,
            connection_id,
            name: title.to_owned(),
            protocol: protocol.to_owned(),
            is_embedded,
            log_file: None,
            history_entry_id: None,
        };
        self.add_session_tab(session)
    }

    /// Creates a terminal tab for an SSH session of `connection_id` with a
    /// fresh random session identifier, which it returns. The tab opens
    /// unless a tab with the drawn identifier is already open; it is the last
    /// page, the one to select (`switch_to_tab` gives its number).
    pub fn create_terminal_tab(&mut self, connection_id: u128, title: &str, protocol: &str) -> (id:
        u128)
        requires
            old(self).wf(),
            old(self).tabs_spec().len() < u32::MAX,
        ensures
            final(self).wf(),
            final(self).display_mode_spec() == old(self).display_mode_spec(),
            version4_marks(id),
            page_of(old(self).tabs_spec(), id) == -1 ==> final(self).tabs_spec()
                == old(self).tabs_spec().push(final(self).tabs_spec().last())
                && opened_session(final(self).tabs_spec().last(), id, connection_id, title@, protocol@, true),
            page_of(old(self).tabs_spec(), id) != -1 ==> final(self).tabs_spec()
                == old(self).tabs_spec(),
    {
        let id = new_id();
        let _ = self.open_tab(id, connection_id, title, protocol, true);
        id
    }

    /// Creates a VNC session tab with a fresh random session identifier.
    pub fn create_vnc_session_tab_with_host(&mut self, connection_id: u128, title: &str) -> (id:
        u128)
        requires
            old(self).wf(),
            old(self).tabs_spec().len() < u32::MAX,
        ensures
            final(self).wf(),
            final(self).display_mode_spec() == old(self).display_mode_spec(),
            version4_marks(id),
            page_of(old(self).tabs_spec(), id) == -1 ==> final(self).tabs_spec()
                == old(self).tabs_spec().push(final(self).tabs_spec().last())
                && opened_session(final(self).tabs_spec().last(), id, connection_id, title@, "vnc"@, true),
            page_of(old(self).tabs_spec(), id) != -1 ==> final(self).tabs_spec()
                == old(self).tabs_spec(),
    {
        let id = new_id();
        let _ = self.open_tab(id, connection_id, title, "vnc", true);
        id
    }

    /// Creates a SPICE session tab with a fresh random session identifier.
    pub fn create_spice_session_tab_with_host(&mut self, connection_id: u128, title: &str) -> (id:
        u128)
        requires
            old(self).wf(),
            old(self).tabs_spec().len() < u32::MAX,
        ensures
            final(self).wf(),
            final(self).display_mode_spec() == old(self).display_mode_spec(),
            version4_marks(id),
            page_of(old(self).tabs_spec(), id) == -1 ==> final(self).tabs_spec()
                == old(self).tabs_spec().push(final(self).tabs_spec().last())
                && opened_session(final(self).tabs_spec().last(), id, connection_id, title@, "spice"@, true),
            page_of(old(self).tabs_spec(), id) != -1 ==> final(self).tabs_spec()
                == old(self).tabs_spec(),
    {
        let id = new_id();
        let _ = self.open_tab(id, connection_id, title, "spice", true);
        id
    }

    /// Adds a tab for a session running in an external window; the session
    /// stands for its own connection. `None` (no change) when the session
    /// identifier is already open.
    pub fn add_embedded_session_tab(&mut self, session_id: u128, title: &str, protocol: &str) -> (page:
        Option<u32>)
        requires
            old(self).wf(),
            old(self).tabs_spec().len() < u32::MAX,
        ensures
            final(self).wf(),
            final(self).display_mode_spec() == old(self).display_mode_spec(),
            page_of(old(self).tabs_spec(), session_id) == -1 ==> page == Some(
                old(self).tabs_spec().len() as u32,
            ) && final(self).tabs_spec() == old(self).tabs_spec().push(
                final(self).tabs_spec().last(),
            ) && opened_session(final(self).tabs_spec().last(), session_id, session_id, title@, protocol@, false),
            page_of(old(self).tabs_spec(), session_id) != -1 ==> page is None && final(self).tabs_spec() == old(self).tabs_spec(),
    {
        self.open_tab(session_id, session_id, title, protocol, false)
    }

    /// Adds a tab for an embedded RDP session. `None` (no change) when the
    /// session identifier is already open.
    pub fn add_embedded_rdp_tab(&mut self, session_id: u128, connection_id: u128, title: &str) -> (page:
        Option<u32>)
        requires
            old(self).wf(),
            old(self).tabs_spec().len() < u32::MAX,
        ensures
            final(self).wf(),
            final(self).display_mode_spec() == old(self).display_mode_spec(),
            page_of(old(self).tabs_spec(), session_id) == -1 ==> page == Some(
                old(self).tabs_spec().len() as u32,
            ) && final(self).tabs_spec() == old(self).tabs_spec().push(
                final(self).tabs_spec().last(),
            ) && opened_session(final(self).tabs_spec().last(), session_id, connection_id, title@, "rdp"@, true),
            page_of(old(self).tabs_spec(), session_id) != -1 ==> page is None && final(self).tabs_spec() == old(self).tabs_spec(),
    {
        self.open_tab(session_id, connection_id, title, "rdp", true)
    }

    /// Closes the tab of a session; the tabs after it move one place left,
    /// and the welcome tab returns when the last session closes. Returns the
    /// closed tab's page number, or `None` (no change) for an unknown session.
    pub fn close_tab(&mut self, session_id: u128) -> (page: Option<u32>)
        requires
            old(self).wf(),
            old(self).tabs_spec().len() <= u32::MAX,
        ensures
            final(self).wf(),
            final(self).display_mode_spec() == old(self).display_mode_spec(),
            match page {
                Some(p) => p as int == page_of(old(self).tabs_spec(), session_id)
                    && final(self).tabs_spec() == old(self).tabs_spec().remove(p as int),
                None => page_of(old(self).tabs_spec(), session_id) == -1
                    && final(self).tabs_spec() == old(self).tabs_spec(),
            },
    {
        match self.find(session_id) {
            Some(i) => {
                let ghost before = self.tabs@;
                self.tabs.remove(i);
                proof {
                    let a = session_ids_of(before);
                    let b = session_ids_of(self.tabs@);
                    assert forall|x: int, y: int| 0 <= x < y < b.len() implies b[x] != b[y] by {
                        let ox = if x < i { x } else { x + 1 };
                        let oy = if y < i { y } else { y + 1 };
                        assert(b[x] == a[ox]);
                        assert(b[y] == a[oy]);
                    }
                }
                Some(i as u32)
            },
            None => None,
        }
    }

    /// Returns the number of tabs, the welcome tab included when it shows.
    pub fn tab_count(&self) -> (n: u32)
        requires
            self.tabs_spec().len() <= u32::MAX,
        ensures
            n == if self.tabs_spec().len() == 0 {
                1
            } else {
                self.tabs_spec().len()
            },
    {
        if self.tabs.len() == 0 {
            1
        } else {
            self.tabs.len() as u32
        }
    }

    /// Returns the number of open sessions.
    pub fn session_count(&self) -> (n: usize)
        ensures
            n == self.tabs_spec().len(),
    {
        self.tabs.len()
    }

    /// Returns the session identifiers in tab order.
    pub fn session_ids(&self) -> (ids: Vec<u128>)
        ensures
            ids@ == session_ids_of(self.tabs_spec()),
    {
        let mut ids: Vec<u128> = Vec::new();
        let mut i: usize = 0;
        while i < self.tabs.len()
            invariant
                i <= self.tabs@.len(),
                ids@ == session_ids_of(self.tabs@.take(i as int)),
            decreases self.tabs.len() - i,
        {
            ids.push(self.tabs[i].id);
            proof {
                assert(session_ids_of(self.tabs@.take(i + 1)) =~= session_ids_of(
                    self.tabs@.take(i as int),
                ).push(self.tabs@[i as int].id));
            }
            i += 1;
        }
        proof {
            assert(self.tabs@.take(self.tabs@.len() as int) =~= self.tabs@);
        }
        ids
    }

    /// Gets the session on a page, if the page holds a session.
    pub fn get_session_id_for_page(&self, page_num: u32) -> (id: Option<u128>)
        ensures
            id == if (page_num as int) < self.tabs_spec().len() {
                Some(self.tabs_spec()[page_num as int].id)
            } else {
                None::<u128>
            },
    {
        if (page_num as usize) < self.tabs.len() {
            Some(self.tabs[page_num as usize].id)
        } else {
            None
        }
    }

    /// Gets the session on the current page, when a page is current and
    /// holds a session.
    pub fn get_active_session_id(&self, current_page: Option<u32>) -> (id: Option<u128>)
        ensures
            id == match current_page {
                Some(p) => if (p as int) < self.tabs_spec().len() {
                    Some(self.tabs_spec()[p as int].id)
                } else {
                    None::<u128>
                },
                None => None::<u128>,
            },
    {
        match current_page {
            Some(p) => self.get_session_id_for_page(p),
            None => None,
        }
    }

    /// The page number of a session's tab (what switching to it selects).
    pub fn switch_to_tab(&self, session_id: u128) -> (page: Option<u32>)
        requires
            self.tabs_spec().len() <= u32::MAX,
        ensures
            match page {
                Some(p) => p as int == page_of(self.tabs_spec(), session_id),
                None => page_of(self.tabs_spec(), session_id) == -1,
            },
    {
        match self.find(session_id) {
            Some(i) => Some(i as u32),
            None => None,
        }
    }

    /// Gets session info for a session.
    pub fn get_session_info(&self, session_id: u128) -> (info: Option<TerminalSession>)
        ensures
            match info {
                Some(s) => page_of(self.tabs_spec(), session_id) >= 0 && s == self.tabs_spec()[page_of(
                    self.tabs_spec(),
                    session_id,
                )],
                None => page_of(self.tabs_spec(), session_id) == -1,
            },
    {
        match self.find(session_id) {
            Some(i) => Some(self.tabs[i].duplicate()),
            None => None,
        }
    }

    /// Sets the log file path for a session (no change for an unknown one).
    pub fn set_log_file(&mut self, session_id: u128, log_file: String)
        requires
            old(self).wf(),
        ensures
            final(self).wf(),
            final(self).display_mode_spec() == old(self).display_mode_spec(),
            page_of(old(self).tabs_spec(), session_id) >= 0 ==> final(self).tabs_spec()
                == old(self).tabs_spec().update(
                page_of(old(self).tabs_spec(), session_id),
                TerminalSession {
                    log_file: Some(log_file),
                    ..old(self).tabs_spec()[page_of(old(self).tabs_spec(), session_id)]
                },
            ),
            page_of(old(self).tabs_spec(), session_id) == -1 ==> final(self).tabs_spec()
                == old(self).tabs_spec(),
    {
        if let Some(i) = self.find(session_id) {
            let ghost before = self.tabs@;
            let mut s = self.tabs[i].duplicate();
            s.log_file = Some(log_file);
            self.tabs.set(i, s);
            proof {
                assert(session_ids_of(self.tabs@) =~= session_ids_of(before));
            }
        }
    }

    /// Sets the history entry of a session (no change for an unknown one).
    pub fn set_history_entry_id(&mut self, session_id: u128, history_entry_id: u128)
        requires
            old(self).wf(),
        ensures
            final(self).wf(),
            final(self).display_mode_spec() == old(self).display_mode_spec(),
            page_of(old(self).tabs_spec(), session_id) >= 0 ==> final(self).tabs_spec()
                == old(self).tabs_spec().update(
                page_of(old(self).tabs_spec(), session_id),
                TerminalSession {
                    history_entry_id: Some(history_entry_id),
                    ..old(self).tabs_spec()[page_of(old(self).tabs_spec(), session_id)]
                },
            ),
            page_of(old(self).tabs_spec(), session_id) == -1 ==> final(self).tabs_spec()
                == old(self).tabs_spec(),
    {
        if let Some(i) = self.find(session_id) {
            let ghost before = self.tabs@;
            let mut s = self.tabs[i].duplicate();
            s.history_entry_id = Some(history_entry_id);
            self.tabs.set(i, s);
            proof {
                assert(session_ids_of(self.tabs@) =~= session_ids_of(before));
            }
        }
    }

    /// Returns the current tab display mode.
    pub fn display_mode(&self) -> (m: TabDisplayMode)
        ensures
            m == self.display_mode_spec(),
    {
        self.display_mode
    }

    /// Adapts the tab display to `available_width`: records the mode that
    /// fits and returns whether it changed and whether the overflow button
    /// shows; `None` (no change) while the width is unknown.
    pub fn update_tab_display_mode(&mut self, available_width: i32) -> (r: Option<(bool, bool)>)
        requires
            old(self).tabs_spec().len() * 150 <= i32::MAX,
        ensures
            final(self).tabs_spec() == old(self).tabs_spec(),
            available_width <= 0 ==> r is None && final(self).display_mode_spec() == old(self).display_mode_spec(),
            available_width > 0 && old(self).tabs_spec().len() == 0 ==> r == Some((false, false))
                && final(self).display_mode_spec() == old(self).display_mode_spec(),
            available_width > 0 && old(self).tabs_spec().len() > 0 ==> final(self).display_mode_spec() == fitting_mode(
                available_width as int,
                old(self).tabs_spec().len() as int,
            ) && r == Some(
                (
                    final(self).display_mode_spec() != old(self).display_mode_spec(),
                    available_width < old(self).tabs_spec().len() * 40,
                ),
            ),
    {
        match tab_display_decision(available_width, self.tabs.len(), self.display_mode) {
            None => None,
            Some((mode, overflow)) => {
                let changed = mode != self.display_mode;
                self.display_mode = mode;
                Some((changed, overflow))
            },
        }
    }
}

/// Opening a tab and closing it again restores the notebook's tabs.
pub proof fn close_undoes_open(tabs: Seq<TerminalSession>, session: TerminalSession)
    ensures
        tabs.push(session).remove(tabs.len() as int) == tabs,
{
    assert(tabs.push(session).remove(tabs.len() as int) =~= tabs);
}

/// Closing a tab keeps the order of the others: each later tab moves one
/// page left, each earlier one stays.
pub proof fn close_shifts_later_tabs(tabs: Seq<TerminalSession>, closed: int, other: u128)
    requires
        session_ids_of(tabs).no_duplicates(),
        0 <= closed < tabs.len(),
        tabs[closed].id != other,
        page_of(tabs, other) >= 0,
    ensures
        page_of(tabs.remove(closed), other) == if page_of(tabs, other) > closed {
            page_of(tabs, other) - 1
        } else {
            page_of(tabs, other)
        },
{
    let a = session_ids_of(tabs);
    let b = session_ids_of(tabs.remove(closed));
    lemma_first_index(a, other);
    let p = first_index(a, other);
    let q = if p > closed { p - 1 } else { p };
    assert(a[closed] == tabs[closed].id);
    assert(p != closed);
    assert(b[q] == a[p]);
    lemma_first_index(b, other);
    let r = first_index(b, other);
    assert(r >= 0 && r <= q);
    let orr = if r < closed { r } else { r + 1 };
    assert(b[r] == a[orr]);
    assert(orr == p);
}

/// Closing the tab of session `s` removes `s`; every other session keeps a
/// tab, one page further left when it came after the closed one; the
/// notebook then has one page fewer, or only the welcome page when no
/// session is left.
pub proof fn closing_a_tab(tabs: Seq<TerminalSession>, s: u128, t: u128)
    requires
        session_ids_of(tabs).no_duplicates(),
        page_of(tabs, s) >= 0,
        page_of(tabs, t) >= 0,
        t != s,
    ensures
        ({
            let ps = page_of(tabs, s);
            let pt = page_of(tabs, t);
            let after = tabs.remove(ps);
            &&& page_of(after, s) == -1
            &&& page_of(after, t) == if pt > ps {
                pt - 1
            } else {
                pt
            }
            &&& after[page_of(after, t)].id == t
            &&& (if after.len() == 0 {
                1
            } else {
                after.len()
            }) == (if tabs.len() == 1 {
                1
            } else {
                tabs.len() - 1
            })
        }),
{
    let a = session_ids_of(tabs);
    let ps = page_of(tabs, s);
    lemma_first_index(a, s);
    lemma_first_index(a, t);
    assert(tabs[ps].id == a[ps]);
    close_shifts_later_tabs(tabs, ps, t);
    let after = tabs.remove(ps);
    let b = session_ids_of(after);
    lemma_first_index(b, s);
    lemma_first_index(b, t);
    let r = first_index(b, s);
    if r >= 0 {
        let orr = if r < ps { r } else { r + 1 };
        assert(b[r] == a[orr]);
        assert(a[orr] == a[ps]);
    }
    assert(b[page_of(after, t)] == after[page_of(after, t)].id);
}

} // verus!
