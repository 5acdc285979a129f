//! The continuous ping behind the live view: what to do with each thing the
//! running `ping` process reports.
use vstd::prelude::*;

use crate::history::{keep_last, History};
use crate::ping::string_views;
use crate::text::{decimal, decimal_string};

verus! {

/// Lines of output that a continuous ping keeps.
pub const LIVE_LINES: usize = 50;

/// What happened while a continuous ping runs.
pub enum LiveEvent {
    /// The viewer asked to stop.
    Stop,
    /// The process printed a line.
    Line(String),
    /// The process closed its output.
    Closed,
    /// Reading the output failed.
    ReadFailed,
}

/// What the caller has to do next.
pub enum LiveAction {
    /// Send this line to the viewer and keep reading.
    Forward(String),
    /// Kill the process, wait for it, and stop.
    KillAndFinish,
    /// Wait for the process, and stop.
    WaitAndFinish,
}

/// The state of a continuous ping: its recent output and whether it has
/// ended.
pub struct LivePing {
    lines: History<String>,
    finished: bool,
}

impl LivePing {
    /// The recent output lines, oldest first.
    pub closed spec fn lines(&self) -> Seq<String> {
        self.lines@
    }

    pub closed spec fn is_finished(&self) -> bool {
        self.finished
    }

    pub closed spec fn wf(&self) -> bool {
        self.lines.cap() == LIVE_LINES
    }

    pub fn new() -> (p: LivePing)
        ensures
            p.wf(),
            p.lines() == Seq::<String>::empty(),
            !p.is_finished(),
    {
        LivePing { lines: History::new(LIVE_LINES), finished: false }
    }

    pub fn finished(&self) -> (b: bool)
        ensures
            b == self.is_finished(),
    {
        self.finished
    }

    /// Takes in what happened: a line is kept (the last `LIVE_LINES` of
    /// them) and forwarded as it came; a stop request or a read failure
    /// kills the process; the end of the output waits for it. Each of the
    /// last three ends the ping.
    pub fn on_event(&mut self, event: LiveEvent) -> (a: LiveAction)
        requires
            old(self).wf(),
        ensures
            final(self).wf(),
            match event {
                LiveEvent::Line(l) => {
                    &&& final(self).lines() == keep_last(old(self).lines().push(l), LIVE_LINES as nat)
                    &&& a == LiveAction::Forward(l)
                    &&& final(self).is_finished() == old(self).is_finished()
                },
                LiveEvent::Closed => {
                    &&& final(self).lines() == old(self).lines()
                    &&& a == LiveAction::WaitAndFinish
                    &&& final(self).is_finished()
                },
                _ => {
                    &&& final(self).lines() == old(self).lines()
                    &&& a == LiveAction::KillAndFinish
                    &&& final(self).is_finished()
                },
            },
    {
        match event {
            LiveEvent::Line(l) => {
                self.lines.push(l);
                let newest = self.lines.newest();
                match newest {
                    Some(last) => LiveAction::Forward(last.clone()),
                    None => LiveAction::WaitAndFinish,
                }
            },
            LiveEvent::Closed => {
                self.finished = true;
                LiveAction::WaitAndFinish
            },
            _ => {
                self.finished = true;
                LiveAction::KillAndFinish
            },
        }
    }
}

/// Arguments of a continuous `ping` of `host`: no count limit.
pub fn continuous_ping_args(host: &str) -> (args: Vec<String>)
    ensures
        string_views(args@) == seq![host@],
{
    let mut args: Vec<String> = Vec::new();
    args.push(host.to_owned());
    assert(string_views(args@) =~= seq![host@]);
    args
}

/// Arguments of a continuous `ping` of `host` on Windows: `-t` (until
/// stopped) with a `-w` timeout in milliseconds.
pub fn continuous_ping_args_windows(host: &str, timeout_ms: u64) -> (args: Vec<String>)
    ensures
        string_views(args@) == seq!["-t"@, "-w"@, decimal(timeout_ms as nat), host@],
{
    let mut args: Vec<String> = Vec::new();
    args.push("-t".to_owned());
    args.push("-w".to_owned());
    args.push(decimal_string(timeout_ms));
    args.push(host.to_owned());
    assert(string_views(args@) =~= seq!["-t"@, "-w"@, decimal(timeout_ms as nat), host@]);
    args
}

} // verus!
