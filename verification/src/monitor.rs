//! The monitor's state between two screen refreshes: which view is shown,
//! which server is selected, the recent results of each server and the
//! lines of the live ping view, and how a key press changes them.
use vstd::prelude::*;

use crate::history::{keep_last, History};
use crate::ping::PingResult;
use crate::text::{join, join_strings, views};

verus! {

/// Lines that the live ping view keeps.
pub const DETAIL_LINES: usize = 50;

/// Which view is on screen.
#[derive(Clone, Copy, Debug, PartialEq, Eq, Structural)]
pub enum AppMode {
    /// The list of servers.
    List,
    /// The live ping output of the selected server.
    PingDetail,
}

/// A key press, as far as the monitor tells keys apart.
#[derive(Clone, Copy, Debug, PartialEq, Eq, Structural)]
pub enum Key {
    Char(char),
    Up,
    Down,
    Home,
    End,
    Enter,
    Esc,
    Other,
}

/// What the caller has to do after a key press.
#[derive(Clone, Copy, Debug, PartialEq, Eq, Structural)]
pub enum Command {
    /// Nothing beyond redrawing.
    Idle,
    /// Stop every task and leave.
    Quit,
    /// Ping every server now.
    Refresh,
    /// Start the live ping of `server`.
    OpenDetail { server: usize },
    /// Stop the live ping.
    CloseDetail,
}

/// The abstract state of a monitor.
pub struct MonitorView {
    pub mode: AppMode,
    pub selected: nat,
    pub server_count: nat,
    pub history_size: nat,
    /// Recent results of each server, oldest first.
    pub results: Seq<Seq<PingResult>>,
    /// Lines of the live ping view, oldest first.
    pub detail: Seq<String>,
}

impl MonitorView {
    pub open spec fn with_mode(self, mode: AppMode) -> MonitorView {
        MonitorView { mode, ..self }
    }

    pub open spec fn with_selected(self, selected: nat) -> MonitorView {
        MonitorView { selected, ..self }
    }

    pub open spec fn with_detail(self, detail: Seq<String>) -> MonitorView {
        MonitorView { detail, ..self }
    }

    pub open spec fn with_results(self, results: Seq<Seq<PingResult>>) -> MonitorView {
        MonitorView { results, ..self }
    }

    /// A consistent state: at least one server, a selected server that
    /// exists, one history per server, none longer than the history size.
    pub open spec fn consistent(self) -> bool {
        &&& self.server_count > 0
        &&& self.selected < self.server_count
        &&& self.results.len() == self.server_count
        &&& forall|i: int|
            0 <= i < self.results.len() ==> #[trigger] self.results[i].len() <= self.history_size
        &&& self.detail.len() <= DETAIL_LINES
    }
}

/// How a key press changes the monitor, and what it asks of the caller:
/// `q` quits and `r` refreshes in either view; in the list, Enter opens the
/// live view of the selected server, the arrows (and `k`, `j`) move the
/// selection within the list, Home and End jump to its ends; in the live
/// view, Esc goes back to the list and forgets the live lines.
pub open spec fn key_step(v: MonitorView, key: Key) -> (MonitorView, Command) {
    let in_list = v.mode == AppMode::List;
    if key == Key::Char('q') {
        (v, Command::Quit)
    } else if key == Key::Char('r') {
        (v, Command::Refresh)
    } else if key == Key::Enter && in_list {
        (v.with_mode(AppMode::PingDetail), Command::OpenDetail { server: v.selected as usize })
    } else if key == Key::Esc && v.mode == AppMode::PingDetail {
        (v.with_mode(AppMode::List).with_detail(Seq::empty()), Command::CloseDetail)
    } else if (key == Key::Up || key == Key::Char('k')) && in_list {
        (v.with_selected(if v.selected > 0 { (v.selected - 1) as nat } else { v.selected }), Command::Idle)
    } else if (key == Key::Down || key == Key::Char('j')) && in_list {
        (v.with_selected(if v.selected + 1 < v.server_count { v.selected + 1 } else { v.selected }), Command::Idle)
    } else if key == Key::Home && in_list {
        (v.with_selected(0), Command::Idle)
    } else if key == Key::End && in_list {
        (v.with_selected((v.server_count - 1) as nat), Command::Idle)
    } else {
        (v, Command::Idle)
    }
}

/// The state after a result for `server` arrives: it joins that server's
/// history; a result for a server that does not exist is dropped.
pub open spec fn record_step(v: MonitorView, server: int, r: PingResult) -> MonitorView {
    if 0 <= server < v.results.len() {
        v.with_results(v.results.update(server, keep_last(v.results[server].push(r), v.history_size)))
    } else {
        v
    }
}

pub struct Monitor {
    mode: AppMode,
    selected: usize,
    history_size: usize,
    results: Vec<History<PingResult>>,
    detail: History<String>,
}

impl View for Monitor {
    type V = MonitorView;

    closed spec fn view(&self) -> MonitorView {
        MonitorView {
            mode: self.mode,
            selected: self.selected as nat,
            server_count: self.results@.len(),
            history_size: self.history_size as nat,
            results: self.results@.map_values(|h: History<PingResult>| h@),
            detail: self.detail@,
        }
    }
}

impl Monitor {
    /// The monitor's own invariant (its abstract state is `consistent`).
    pub closed spec fn wf(&self) -> bool {
        &&& self@.consistent()
        &&& forall|i: int|
            0 <= i < self.results@.len() ==> #[trigger] self.results@[i].cap() == self.history_size
        &&& self.detail.cap() == DETAIL_LINES
    }

    /// A monitor of `server_count` servers, each keeping its last
    /// `history_size` results; it shows the list with the first server
    /// selected.
    pub fn new(server_count: usize, history_size: usize) -> (m: Monitor)
        requires
            server_count > 0,
        ensures
            m.wf(),
            m@.mode == AppMode::List,
            m@.selected == 0,
            m@.server_count == server_count,
            m@.history_size == history_size,
            m@.results == Seq::new(server_count as nat, |i: int| Seq::<PingResult>::empty()),
            m@.detail == Seq::<String>::empty(),
    {
        let mut results: Vec<History<PingResult>> = Vec::new();
        let mut i: usize = 0;
        while i < server_count
            invariant
                i <= server_count,
                results@.len() == i,
                forall|j: int| 0 <= j < i ==> #[trigger] results@[j]@ == Seq::<PingResult>::empty(),
                forall|j: int| 0 <= j < i ==> #[trigger] results@[j].cap() == history_size,
            decreases server_count - i,
        {
            results.push(History::new(history_size));
            i = i + 1;
        }
        let m = Monitor {
            mode: AppMode::List,
            selected: 0,
            history_size,
            results,
            detail: History::new(DETAIL_LINES),
        };
        assert(m@.results =~= Seq::new(server_count as nat, |i: int| Seq::<PingResult>::empty()));
        m
    }

    pub fn mode(&self) -> (r: AppMode)
        ensures
            r == self@.mode,
    {
        self.mode
    }

    pub fn selected(&self) -> (r: usize)
        ensures
            r == self@.selected,
    {
        self.selected
    }

    pub fn server_count(&self) -> (r: usize)
        ensures
            r == self@.server_count,
    {
        self.results.len()
    }

    /// Whether results and address updates are taken in now: only while the
    /// list is shown.
    pub fn accepts_updates(&self) -> (b: bool)
        ensures
            b == (self@.mode == AppMode::List),
    {
        match self.mode {
            AppMode::List => true,
            AppMode::PingDetail => false,
        }
    }

    /// The recent results of `server`, oldest first.
    pub fn history(&self, server: usize) -> (h: &History<PingResult>)
        requires
            server < self@.server_count,
        ensures
            h@ == self@.results[server as int],
    {
        &self.results[server]
    }

    /// The lines of the live ping view, oldest first.
    pub fn detail_lines(&self) -> (h: &History<String>)
        ensures
            h@ == self@.detail,
    {
        &self.detail
    }

    /// Takes in a result of `server`.
    pub fn record(&mut self, server: usize, result: PingResult)
        requires
            old(self).wf(),
        ensures
            final(self).wf(),
            final(self)@ == record_step(old(self)@, server as int, result),
    {
        if server < self.results.len() {
            let ghost before = self@;
            let mut h = self.results.remove(server);
            h.push(result);
            self.results.insert(server, h);
            assert(self@.results =~= before.results.update(
                server as int,
                keep_last(before.results[server as int].push(result), before.history_size),
            ));
            assert(self@ == record_step(before, server as int, result));
        }
    }

    /// Takes in a line of the live ping output; the view keeps the last
    /// `DETAIL_LINES` of them.
    pub fn push_detail_line(&mut self, line: String)
        requires
            old(self).wf(),
        ensures
            final(self).wf(),
            final(self)@ == old(self)@.with_detail(keep_last(old(self)@.detail.push(line), DETAIL_LINES as nat)),
    {
        self.detail.push(line);
    }

    /// The live ping output, one line per kept line.
    pub fn detail_text(&self) -> (t: String)
        ensures
            t@ == join(views(self@.detail), "\n"@),
    {
        let mut lines: Vec<String> = Vec::new();
        let entries = self.detail.entries();
        let n = entries.len();
        let mut i: usize = 0;
        while i < n
            invariant
                n == self@.detail.len(),
                entries@ == self@.detail,
                i <= n,
                lines@ == self@.detail.take(i as int),
            decreases n - i,
        {
            lines.push(entries[i].clone());
            assert(lines@ =~= self@.detail.take(i + 1));
            i = i + 1;
        }
        assert(lines@ =~= self@.detail);
        join_strings(&lines, "\n")
    }

    /// Applies a key press and tells the caller what to do.
    pub fn handle_key(&mut self, key: Key) -> (c: Command)
        requires
            old(self).wf(),
        ensures
            final(self).wf(),
            (final(self)@, c) == key_step(old(self)@, key),
    {
        let in_list = match self.mode {
            AppMode::List => true,
            AppMode::PingDetail => false,
        };
        let count = self.results.len();
        let up = match key {
            Key::Up | Key::Char('k') => true,
            _ => false,
        };
        let down = match key {
            Key::Down | Key::Char('j') => true,
            _ => false,
        };
        let mut mode = self.mode;
        let mut selected = self.selected;
        let mut clear = false;
        let command = match key {
            Key::Char('q') => Command::Quit,
            Key::Char('r') => Command::Refresh,
            Key::Enter if in_list => {
                mode = AppMode::PingDetail;
                Command::OpenDetail { server: selected }
            },
            Key::Esc if !in_list => {
                clear = true;
                mode = AppMode::List;
                Command::CloseDetail
            },
            _ if up && in_list => {
                if selected > 0 {
                    selected = selected - 1;
                }
                Command::Idle
            },
            _ if down && in_list => {
                if selected + 1 < count {
                    selected = selected + 1;
                }
                Command::Idle
            },
            Key::Home if in_list => {
                selected = 0;
                Command::Idle
            },
            Key::End if in_list => {
                selected = count - 1;
                Command::Idle
            },
            _ => Command::Idle,
        };
        self.mode = mode;
        self.selected = selected;
        if clear {
            self.detail.clear();
        }
        command
    }
}

/// Law: in the list, a step down and a step up bring the selection back,
/// unless the selection was already on the last server.
pub proof fn law_down_then_up(v: MonitorView)
    requires
        v.consistent(),
        v.mode == AppMode::List,
        v.selected + 1 < v.server_count,
    ensures
        key_step(key_step(v, Key::Down).0, Key::Up).0 == v,
        key_step(v, Key::Down).1 == Command::Idle,
{
}

/// Law: opening the live view of the selected server and leaving it again
/// gives back the list with the same selection and histories, and no live
/// lines.
pub proof fn law_detail_round_trip(v: MonitorView)
    requires
        v.consistent(),
        v.mode == AppMode::List,
    ensures
        key_step(v, Key::Enter).1 == (Command::OpenDetail { server: v.selected as usize }),
        key_step(key_step(v, Key::Enter).0, Key::Esc).0 == v.with_detail(Seq::empty()),
        key_step(key_step(v, Key::Enter).0, Key::Esc).1 == Command::CloseDetail,
{
}

/// Law: every key keeps the state consistent; in particular the selection
/// always names an existing server.
pub proof fn law_key_keeps_consistent(v: MonitorView, key: Key)
    requires
        v.consistent(),
    ensures
        key_step(v, key).0.consistent(),
        key_step(v, key).1 matches Command::OpenDetail { server } ==> server < v.server_count,
{
}

/// Law: Home and End select the first and the last server of the list.
pub proof fn law_home_end(v: MonitorView)
    requires
        v.consistent(),
        v.mode == AppMode::List,
    ensures
        key_step(v, Key::Home).0.selected == 0,
        key_step(v, Key::End).0.selected == v.server_count - 1,
{
}

/// Law: while the live view is shown, the selection and the histories do
/// not change with any key.
pub proof fn law_detail_freezes_list(v: MonitorView, key: Key)
    requires
        v.consistent(),
        v.mode == AppMode::PingDetail,
    ensures
        key_step(v, key).0.selected == v.selected,
        key_step(v, key).0.results == v.results,
{
}

/// Law: a result keeps the state consistent, and the other servers'
/// histories unchanged.
pub proof fn law_record_keeps_consistent(v: MonitorView, server: int, r: PingResult)
    requires
        v.consistent(),
    ensures
        record_step(v, server, r).consistent(),
        forall|i: int|
            0 <= i < v.results.len() && i != server ==> #[trigger] record_step(v, server, r).results[i]
                == v.results[i],
{
    if 0 <= server < v.results.len() {
        let s = v.results[server].push(r);
        assert(keep_last(s, v.history_size).len() <= v.history_size);
    }
}

/// Law: every result for an existing server is kept, whether the ping
/// succeeded or not: it becomes the newest entry of that server's history,
/// which grows by one until it is full and then drops only its oldest
/// entry.
pub proof fn law_record_appends(v: MonitorView, server: int, r: PingResult)
    requires
        v.consistent(),
        0 <= server < v.server_count,
        v.history_size > 0,
    ensures
        ({
            let h = record_step(v, server, r).results[server];
            let old = v.results[server];
            &&& h.len() > 0
            &&& h.last() == r
            &&& h.len() == if old.len() < v.history_size {
                old.len() + 1
            } else {
                v.history_size
            }
            &&& forall|j: int|
                0 <= j < h.len() - 1 ==> #[trigger] h[j] == old[old.len() - (h.len() - 1) + j]
        }),
{
    assert(v.results[server].len() <= v.history_size);
}

/// Law: `k` and `j` are the same keys as Up and Down, in either view.
pub proof fn law_vi_keys(v: MonitorView)
    ensures
        key_step(v, Key::Char('k')) == key_step(v, Key::Up),
        key_step(v, Key::Char('j')) == key_step(v, Key::Down),
{
}

/// Law: in the list, Up selects the server above (none above the first) and
/// Down the server below (none below the last); neither changes anything
/// else.
pub proof fn law_arrows_move_selection(v: MonitorView)
    requires
        v.consistent(),
        v.mode == AppMode::List,
    ensures
        key_step(v, Key::Up).0.selected == if v.selected > 0 {
            v.selected - 1
        } else {
            0
        },
        key_step(v, Key::Down).0.selected == if v.selected + 1 < v.server_count {
            v.selected + 1
        } else {
            v.selected
        },
        key_step(v, Key::Up).0.with_selected(v.selected) == v,
        key_step(v, Key::Down).0.with_selected(v.selected) == v,
        key_step(v, Key::Up).1 == Command::Idle,
        key_step(v, Key::Down).1 == Command::Idle,
{
}

} // verus!
