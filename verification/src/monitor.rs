//! The decisions of the terminal monitor: which process is selected, how
//! the process list and the log pane scroll, what a key does, how a status
//! refresh updates the view, and what is sent to the daemon. Drawing,
//! the terminal, the network and the charts are the application's.
use vstd::prelude::*;
use crate::status::{infos_fields, Fields, PmProcessStatusInfo};
use crate::text::{
    append_chars, ascii_lower_str, chars_of, dec, is_digit, join_sep, lemma_dec_digits,
    lemma_join_sep_snoc, plain_word, push_dec, string_of, sub_vec, words,
};
use crate::commands::{request_of_text, RequestView};
use crate::cli::{lemma_command_words, lemma_stop_command_read, space};

verus! {

broadcast use vstd::seq_lib::group_seq_properties;

/// The log pane keeps at most this many lines.
pub const MAX_LOG_LINES: usize = 500;

/// The keys the monitor acts on.
#[derive(Debug, PartialEq, Eq, Structural)]
pub enum MonitorKey {
    /// `q` or Esc.
    Quit,
    /// Up arrow or `k`.
    Up,
    /// Down arrow or `j`.
    Down,
    /// `c`.
    ClearLogs,
    /// `s`.
    Stop,
    /// `r`.
    Restart,
    PageUp,
    PageDown,
    Other,
}

/// The key that a character stands for.
pub fn key_for_char(c: char) -> (r: MonitorKey)
    ensures
        r == (if c == 'q' {
            MonitorKey::Quit
        } else if c == 'k' {
            MonitorKey::Up
        } else if c == 'j' {
            MonitorKey::Down
        } else if c == 'c' {
            MonitorKey::ClearLogs
        } else if c == 's' {
            MonitorKey::Stop
        } else if c == 'r' {
            MonitorKey::Restart
        } else {
            MonitorKey::Other
        }),
{
    if c == 'q' {
        MonitorKey::Quit
    } else if c == 'k' {
        MonitorKey::Up
    } else if c == 'j' {
        MonitorKey::Down
    } else if c == 'c' {
        MonitorKey::ClearLogs
    } else if c == 's' {
        MonitorKey::Stop
    } else if c == 'r' {
        MonitorKey::Restart
    } else {
        MonitorKey::Other
    }
}

/// What the application does after a key.
pub enum MonitorAction {
    /// Stop the log stream and leave.
    Quit,
    /// Nothing more.
    Nothing,
    /// The selection moved: clear the charts and restart the log stream
    /// for the new selection shortly.
    SelectionMoved,
    /// Send this command to the daemon, then refresh the status.
    Send(String),
}

/// The state of the monitor.
pub struct MonitorState {
    pub processes: Vec<PmProcessStatusInfo>,
    pub selected: usize,
    /// The selection the process list shows.
    pub list_selected: Option<usize>,
    pub logs: Vec<String>,
    pub show_all_logs: bool,
    pub status_message: String,
    pub log_scroll: usize,
    pub process_scroll: usize,
    pub log_view_height: usize,
}

/// The state the monitor opens with: no processes, the first row
/// selected, no logs, `Connecting...`.
pub fn open_monitor() -> (r: MonitorState)
    ensures
        r.processes@.len() == 0,
        r.selected == 0,
        r.list_selected == Some(0usize),
        r.logs@.len() == 0,
        !r.show_all_logs,
        r.status_message@ == "Connecting..."@,
        r.log_scroll == 0,
        r.process_scroll == 0,
        r.log_view_height == 0,
        r.wf(),
{
    MonitorState {
        processes: Vec::new(),
        selected: 0,
        list_selected: Some(0),
        logs: Vec::new(),
        show_all_logs: false,
        status_message: string_of(&chars_of("Connecting...")),
        log_scroll: 0,
        process_scroll: 0,
        log_view_height: 0,
    }
}

/// `a - b`, or 0 when `b > a`.
pub open spec fn sat_sub(a: int, b: int) -> int {
    if a >= b {
        a - b
    } else {
        0
    }
}

pub open spec fn min(a: int, b: int) -> int {
    if a <= b {
        a
    } else {
        b
    }
}

/// Puts a process into a list sorted by id: after every process whose id is
/// at most its own.
pub open spec fn ins_by_id(s: Seq<Fields>, x: Fields) -> Seq<Fields>
    decreases s.len(),
{
    if s.len() == 0 {
        seq![x]
    } else if s.last().id <= x.id {
        s.push(x)
    } else {
        ins_by_id(s.drop_last(), x).push(s.last())
    }
}

/// A stable sort by id (`sort_by_key(|p| p.id)`).
pub open spec fn sort_by_id(s: Seq<Fields>) -> Seq<Fields>
    decreases s.len(),
{
    if s.len() == 0 {
        s
    } else {
        ins_by_id(sort_by_id(s.drop_last()), s.last())
    }
}

proof fn lemma_ins_at(s: Seq<Fields>, x: Fields, j: int)
    requires
        0 <= j <= s.len(),
        forall|k: int| j <= k < s.len() ==> s[k].id > x.id,
        j == 0 || s[j - 1].id <= x.id,
    ensures
        ins_by_id(s, x) == s.insert(j, x),
    decreases s.len(),
{
    if s.len() == 0 {
        assert(s.insert(j, x) =~= seq![x]);
    } else if j == s.len() {
        assert(s.insert(j, x) =~= s.push(x));
    } else {
        lemma_ins_at(s.drop_last(), x, j);
        assert(s.insert(j, x) =~= s.drop_last().insert(j, x).push(s.last()));
    }
}

/// The position of the first process with the given id.
pub open spec fn first_with_id(s: Seq<Fields>, id: u64) -> Option<int> {
    if exists|i: int| 0 <= i < s.len() && s[i].id == id {
        Some(choose|i: int| 0 <= i < s.len() && s[i].id == id && forall|j: int| 0 <= j < i ==> s[j].id != id)
    } else {
        None
    }
}

impl MonitorState {
    /// The selection stays on a process while there is one, and the list
    /// never scrolls past it; the log pane holds at most `MAX_LOG_LINES`.
    pub open spec fn wf(&self) -> bool {
        &&& self.logs@.len() <= MAX_LOG_LINES
        &&& if self.processes@.len() == 0 {
            self.selected == 0 && self.process_scroll == 0
        } else {
            &&& self.selected < self.processes@.len()
            &&& self.process_scroll <= self.selected
            &&& self.list_selected == Some(self.selected)
        }
    }

    pub open spec fn selected_id(&self) -> Option<u64> {
        if self.selected < self.processes@.len() {
            Some(self.processes@[self.selected as int].id)
        } else {
            None
        }
    }

    /// The id of the selected process.
    pub fn selected_process_id(&self) -> (r: Option<u64>)
        ensures
            r == self.selected_id(),
    {
        if self.selected < self.processes.len() {
            Some(self.processes[self.selected].id)
        } else {
            None
        }
    }

    /// Brings the selection back on the list: with no processes, nothing
    /// is selected; else the selection is at most the last row, and the
    /// list is scrolled no further than the selection.
    pub fn sync_list_selection(&mut self)
        requires
            old(self).logs@.len() <= MAX_LOG_LINES,
        ensures
            final(self).wf(),
            final(self).processes@ == old(self).processes@,
            final(self).logs@ == old(self).logs@,
            final(self).show_all_logs == old(self).show_all_logs,
            final(self).status_message@ == old(self).status_message@,
            final(self).log_scroll == old(self).log_scroll,
            final(self).log_view_height == old(self).log_view_height,
            old(self).processes@.len() == 0 ==> final(self).selected == 0 && final(self).process_scroll == 0
                && final(self).list_selected is None,
            old(self).processes@.len() > 0 ==> {
                &&& final(self).selected == min(old(self).selected as int, old(self).processes@.len() - 1)
                &&& final(self).process_scroll == min(old(self).process_scroll as int, final(self).selected as int)
                &&& final(self).list_selected == Some(final(self).selected)
            },
    {
        if self.processes.len() == 0 {
            self.selected = 0;
            self.process_scroll = 0;
            self.list_selected = None;
        } else {
            if self.selected >= self.processes.len() {
                self.selected = self.processes.len() - 1;
            }
            if self.process_scroll > self.selected {
                self.process_scroll = self.selected;
            }
            self.list_selected = Some(self.selected);
        }
    }

    /// Moves the selection one row up; whether it moved.
    pub fn move_up(&mut self) -> (changed: bool)
        requires
            old(self).wf(),
        ensures
            final(self).wf(),
            final(self).processes@ == old(self).processes@,
            final(self).logs@ == old(self).logs@,
            final(self).show_all_logs == old(self).show_all_logs,
            final(self).log_scroll == old(self).log_scroll,
            final(self).selected == sat_sub(old(self).selected as int, 1),
            final(self).process_scroll == min(old(self).process_scroll as int, final(self).selected as int),
            final(self).status_message@ == old(self).status_message@,
            final(self).log_view_height == old(self).log_view_height,
            changed == (final(self).selected != old(self).selected),
    {
        if self.processes.len() == 0 {
            return false;
        }
        let old_sel = self.selected;
        self.selected = if self.selected > 0 {
            self.selected - 1
        } else {
            0
        };
        self.sync_list_selection();
        old_sel != self.selected
    }

    /// Moves the selection one row down, not past the last; whether it
    /// moved.
    pub fn move_down(&mut self) -> (changed: bool)
        requires
            old(self).wf(),
        ensures
            final(self).wf(),
            final(self).processes@ == old(self).processes@,
            final(self).logs@ == old(self).logs@,
            final(self).show_all_logs == old(self).show_all_logs,
            final(self).log_scroll == old(self).log_scroll,
            old(self).processes@.len() == 0 ==> final(self).selected == 0,
            old(self).processes@.len() > 0 ==> final(self).selected == min(
                old(self).selected + 1,
                old(self).processes@.len() - 1,
            ),
            final(self).process_scroll == min(old(self).process_scroll as int, final(self).selected as int),
            final(self).status_message@ == old(self).status_message@,
            final(self).log_view_height == old(self).log_view_height,
            changed == (final(self).selected != old(self).selected),
    {
        if self.processes.len() == 0 {
            return false;
        }
        let old_sel = self.selected;
        let last = self.processes.len() - 1;
        self.selected = if self.selected + 1 < last {
            self.selected + 1
        } else {
            last
        };
        self.sync_list_selection();
        old_sel != self.selected
    }

    /// Adds a line to the log pane, dropping the oldest lines beyond
    /// `MAX_LOG_LINES`.
    pub fn push_log_line(&mut self, line: String)
        requires
            old(self).wf(),
        ensures
            final(self).wf(),
            final(self).processes@ == old(self).processes@,
            final(self).selected == old(self).selected,
            final(self).process_scroll == old(self).process_scroll,
            final(self).list_selected == old(self).list_selected,
            final(self).show_all_logs == old(self).show_all_logs,
            final(self).status_message@ == old(self).status_message@,
            final(self).log_scroll == old(self).log_scroll,
            final(self).log_view_height == old(self).log_view_height,
            ({
                let all = old(self).logs@.push(line);
                final(self).logs@ == if all.len() > MAX_LOG_LINES {
                    all.skip(all.len() - MAX_LOG_LINES)
                } else {
                    all
                }
            }),
    {
        let ghost all = self.logs@.push(line);
        self.logs.push(line);
        if self.logs.len() > MAX_LOG_LINES {
            // At most one line is over the limit, as the pane held at most
            // `MAX_LOG_LINES` before.
            self.logs.remove(0);
            assert(self.logs@ =~= all.skip(all.len() - MAX_LOG_LINES));
        }
    }

    /// The process the log stream follows: none when all logs are shown,
    /// else the selected one.
    pub fn stream_target(&self) -> (r: Option<u64>)
        ensures
            r == if self.show_all_logs {
                None
            } else {
                self.selected_id()
            },
    {
        if self.show_all_logs {
            None
        } else {
            self.selected_process_id()
        }
    }

    /// Empties the log pane.
    pub fn clear_logs(&mut self)
        requires
            old(self).wf(),
        ensures
            final(self).wf(),
            final(self).logs@.len() == 0,
            final(self).processes@ == old(self).processes@,
            final(self).selected == old(self).selected,
            final(self).list_selected == old(self).list_selected,
            final(self).show_all_logs == old(self).show_all_logs,
            final(self).status_message@ == old(self).status_message@,
            final(self).log_scroll == old(self).log_scroll,
            final(self).process_scroll == old(self).process_scroll,
            final(self).log_view_height == old(self).log_view_height,
    {
        self.logs = Vec::new();
    }
}

/// Sorts processes by id, keeping the order of equal ids.
pub fn sort_processes(v: Vec<PmProcessStatusInfo>) -> (r: Vec<PmProcessStatusInfo>)
    ensures
        infos_fields(r@) == sort_by_id(infos_fields(v@)),
{
    let ghost orig = infos_fields(v@);
    let mut rest = v;
    let mut out: Vec<PmProcessStatusInfo> = Vec::new();
    let ghost mut k: int = 0;
    proof {
        assert(orig.take(0) =~= Seq::<Fields>::empty());
        assert(orig.skip(0) =~= orig);
    }
    while rest.len() > 0
        invariant
            0 <= k <= orig.len(),
            infos_fields(rest@) == orig.skip(k),
            infos_fields(out@) == sort_by_id(orig.take(k)),
        decreases rest.len(),
    {
        assert(infos_fields(rest@).len() == rest@.len());
        assert(k < orig.len());
        let ghost r0 = infos_fields(rest@);
        let x = rest.remove(0);
        let ghost xf = x.fields();
        proof {
            assert(r0[0] == xf);
            assert(orig.skip(k)[0] == xf);
            assert(infos_fields(rest@) =~= r0.drop_first());
            assert(r0.drop_first() =~= orig.skip(k + 1));
            assert(orig.take(k + 1).drop_last() =~= orig.take(k));
            assert(orig.take(k + 1).last() == xf);
        }
        let mut j = out.len();
        while j > 0 && out[j - 1].id > x.id
            invariant
                j <= out@.len(),
                forall|m: int| j <= m < out@.len() ==> out@[m].id > x.id,
            decreases j,
        {
            j = j - 1;
        }
        let ghost before = infos_fields(out@);
        proof {
            lemma_ins_at(before, xf, j as int);
        }
        out.insert(j, x);
        assert(infos_fields(out@) =~= before.insert(j as int, xf));
        proof {
            k = k + 1;
        }
    }
    assert(orig.take(k) =~= orig);
    out
}

/// The text `Connected • <n> process(es)`.
pub open spec fn connected_message(n: nat) -> Seq<char> {
    "Connected • "@ + dec(n) + " process(es)"@
}

impl MonitorState {
    /// Applies the outcome of a status refresh. A failed refresh only sets
    /// the message. An empty list clears the processes. Else the processes
    /// become the new list sorted by id, the selection follows the process
    /// that was selected (by id) when it is still listed, and is brought
    /// back on the list.
    pub fn apply_status(&mut self, snapshot: Result<Vec<PmProcessStatusInfo>, String>)
        requires
            old(self).wf(),
        ensures
            final(self).wf(),
            final(self).logs@ == old(self).logs@,
            final(self).show_all_logs == old(self).show_all_logs,
            final(self).log_scroll == old(self).log_scroll,
            match snapshot {
                Err(e) => {
                    &&& final(self).status_message@ == "Status refresh failed: "@ + e@
                    &&& final(self).processes@ == old(self).processes@
                    &&& final(self).selected == old(self).selected
                },
                Ok(next) => if next@.len() == 0 {
                    &&& final(self).processes@.len() == 0
                    &&& final(self).selected == 0
                    &&& final(self).status_message@ == "No processes managed by daemon"@
                } else {
                    let sorted = sort_by_id(infos_fields(next@));
                    &&& infos_fields(final(self).processes@) == sorted
                    &&& final(self).status_message@ == connected_message(next@.len())
                    &&& final(self).selected == match old(self).selected_id() {
                        Some(id) => match first_with_id(sorted, id) {
                            Some(p) => p,
                            None => min(old(self).selected as int, sorted.len() - 1),
                        },
                        None => min(old(self).selected as int, sorted.len() - 1),
                    }
                },
            },
    {
        let prev = self.selected_process_id();
        match snapshot {
            Err(e) => {
                let mut m = chars_of("Status refresh failed: ");
                append_chars(&mut m, &chars_of(e.as_str()));
                self.status_message = string_of(&m);
            },
            Ok(next) => {
                if next.len() == 0 {
                    self.processes = Vec::new();
                    self.sync_list_selection();
                    self.status_message = string_of(&chars_of("No processes managed by daemon"));
                    return;
                }
                let n = next.len();
                let ghost nf = infos_fields(next@);
                let sorted = sort_processes(next);
                proof {
                    lemma_sort_len(nf);
                }
                self.processes = sorted;
                match prev {
                    Some(id) => match position_of_id(&self.processes, id) {
                        Some(p) => {
                            self.selected = p;
                        },
                        None => {},
                    },
                    None => {},
                }
                self.sync_list_selection();
                let mut m = chars_of("Connected • ");
                push_dec(&mut m, n as u64);
                append_chars(&mut m, &chars_of(" process(es)"));
                self.status_message = string_of(&m);
            },
        }
    }
}

/// The scroll of the process list after drawing it in `max_lines` rows:
/// far enough that the selection shows, with the selection two rows from
/// the bottom when the list had to move down, and no further than the end.
pub open spec fn list_scroll(sel: int, scroll: int, max_lines: int, len: int) -> int {
    let s1 = if sel >= scroll + max_lines {
        sat_sub(sel, sat_sub(max_lines, 2))
    } else {
        scroll
    };
    let s2 = if sel < s1 {
        sel
    } else {
        s1
    };
    min(s2, sat_sub(len, max_lines))
}

/// The window of the log pane in `max_lines` rows, `log_scroll` lines up
/// from the end: `(start, end, scroll)`.
pub open spec fn log_window_spec(total: int, max_lines: int, log_scroll: int) -> (int, int, int) {
    let max_scroll = sat_sub(total, max_lines);
    let scroll = min(log_scroll, max_scroll);
    let start = sat_sub(max_scroll, scroll);
    (start, min(start + max_lines, total), scroll)
}

impl MonitorState {
    /// Scrolls the process list for a pane of `height` rows (two are the
    /// border) and returns the first row shown, the number of rows, and the
    /// row of the selection among those shown.
    pub fn process_window(&mut self, height: u16) -> (r: (usize, usize, usize))
        requires
            old(self).wf(),
        ensures
            final(self).wf(),
            final(self).processes@ == old(self).processes@,
            final(self).selected == old(self).selected,
            final(self).logs@ == old(self).logs@,
            final(self).log_scroll == old(self).log_scroll,
            final(self).show_all_logs == old(self).show_all_logs,
            final(self).process_scroll == list_scroll(
                old(self).selected as int,
                old(self).process_scroll as int,
                sat_sub(height as int, 2),
                old(self).processes@.len() as int,
            ),
            r.0 == final(self).process_scroll,
            r.1 == sat_sub(height as int, 2),
            r.2 == final(self).selected - final(self).process_scroll,
    {
        let max_lines: usize = if height >= 2 {
            (height - 2) as usize
        } else {
            0
        };
        if self.selected - self.process_scroll >= max_lines {
            self.process_scroll = if max_lines >= 2 {
                let keep = max_lines - 2;
                if self.selected >= keep {
                    self.selected - keep
                } else {
                    0
                }
            } else {
                self.selected
            };
        }
        if self.selected < self.process_scroll {
            self.process_scroll = self.selected;
        }
        let n = self.processes.len();
        let max_scroll = if n >= max_lines {
            n - max_lines
        } else {
            0
        };
        if self.process_scroll > max_scroll {
            self.process_scroll = max_scroll;
        }
        (self.process_scroll, max_lines, self.selected - self.process_scroll)
    }

    /// Fits the log pane to `height` rows (two are the border): remembers
    /// the rows, keeps the scroll within the logs, and returns the lines
    /// shown as `start..end`.
    pub fn log_window(&mut self, height: u16) -> (r: (usize, usize))
        requires
            old(self).wf(),
        ensures
            final(self).wf(),
            final(self).processes@ == old(self).processes@,
            final(self).selected == old(self).selected,
            final(self).process_scroll == old(self).process_scroll,
            final(self).logs@ == old(self).logs@,
            final(self).log_view_height == sat_sub(height as int, 2),
            ({
                let w = log_window_spec(
                    old(self).logs@.len() as int,
                    sat_sub(height as int, 2),
                    old(self).log_scroll as int,
                );
                r.0 == w.0 && r.1 == w.1 && final(self).log_scroll == w.2
            }),
            r.0 <= r.1 <= final(self).logs@.len(),
    {
        let max_lines: usize = if height >= 2 {
            (height - 2) as usize
        } else {
            0
        };
        self.log_view_height = max_lines;
        let total = self.logs.len();
        let max_scroll = if total >= max_lines {
            total - max_lines
        } else {
            0
        };
        let scroll = if self.log_scroll <= max_scroll {
            self.log_scroll
        } else {
            max_scroll
        };
        self.log_scroll = scroll;
        let start = max_scroll - scroll;
        let end = if start + max_lines <= total {
            start + max_lines
        } else {
            total
        };
        (start, end)
    }

    /// What a key does. Quit leaves. Up and Down move the selection; a
    /// move matters for the log stream unless all logs are shown. `c`
    /// clears the log pane. `s` and `r` send `stop <id>` or `restart <id>`
    /// for the selected process. PageUp scrolls the log pane one line back
    /// (no further than its start), PageDown one line forward.
    pub fn handle_key(&mut self, key: MonitorKey) -> (r: MonitorAction)
        requires
            old(self).wf(),
        ensures
            final(self).wf(),
            final(self).processes@ == old(self).processes@,
            final(self).show_all_logs == old(self).show_all_logs,
            final(self).status_message@ == old(self).status_message@,
            final(self).log_view_height == old(self).log_view_height,
            key == MonitorKey::Quit ==> r is Quit && *final(self) == *old(self),
            key == MonitorKey::Up ==> final(self).selected == sat_sub(old(self).selected as int, 1)
                && (r is SelectionMoved <==> (final(self).selected != old(self).selected
                && !old(self).show_all_logs)) && (r is Nothing || r is SelectionMoved),
            key == MonitorKey::Down ==> (old(self).processes@.len() > 0 ==> final(self).selected
                == min(old(self).selected + 1, old(self).processes@.len() - 1)) && (r is SelectionMoved
                <==> (final(self).selected != old(self).selected && !old(self).show_all_logs)) && (
            r is Nothing || r is SelectionMoved),
            key == MonitorKey::Up || key == MonitorKey::Down ==> final(self).logs@ == old(self).logs@
                && final(self).log_scroll == old(self).log_scroll && final(self).process_scroll == min(
                old(self).process_scroll as int,
                final(self).selected as int,
            ),
            key == MonitorKey::ClearLogs ==> final(self).logs@.len() == 0 && r is Nothing
                && final(self).selected == old(self).selected && final(self).log_scroll
                == old(self).log_scroll && final(self).list_selected == old(self).list_selected
                && final(self).process_scroll == old(self).process_scroll,
            key == MonitorKey::Stop ==> *final(self) == *old(self) && match old(self).selected_id() {
                Some(id) => r matches MonitorAction::Send(c) && c@ == "stop "@ + dec(id as nat),
                None => r is Nothing,
            },
            key == MonitorKey::Restart ==> *final(self) == *old(self) && match old(self).selected_id() {
                Some(id) => r matches MonitorAction::Send(c) && c@ == "restart "@ + dec(id as nat),
                None => r is Nothing,
            },
            key == MonitorKey::PageUp ==> r is Nothing && final(self).logs@ == old(self).logs@
                && final(self).log_scroll == min(
                old(self).log_scroll + 1,
                sat_sub(old(self).logs@.len() as int, old(self).log_view_height as int),
            ),
            key == MonitorKey::PageDown ==> r is Nothing && final(self).logs@ == old(self).logs@
                && final(self).log_scroll == sat_sub(old(self).log_scroll as int, 1),
            key == MonitorKey::PageUp || key == MonitorKey::PageDown ==> final(self).selected
                == old(self).selected && final(self).list_selected == old(self).list_selected
                && final(self).process_scroll == old(self).process_scroll,
            key == MonitorKey::Other ==> r is Nothing && *final(self) == *old(self),
    {
        match key {
            MonitorKey::Quit => MonitorAction::Quit,
            MonitorKey::Up => {
                if self.move_up() && !self.show_all_logs {
                    MonitorAction::SelectionMoved
                } else {
                    MonitorAction::Nothing
                }
            },
            MonitorKey::Down => {
                if self.move_down() && !self.show_all_logs {
                    MonitorAction::SelectionMoved
                } else {
                    MonitorAction::Nothing
                }
            },
            MonitorKey::ClearLogs => {
                self.clear_logs();
                MonitorAction::Nothing
            },
            MonitorKey::Stop => match self.selected_process_id() {
                Some(id) => MonitorAction::Send(command_for_id("stop ", id)),
                None => MonitorAction::Nothing,
            },
            MonitorKey::Restart => match self.selected_process_id() {
                Some(id) => MonitorAction::Send(command_for_id("restart ", id)),
                None => MonitorAction::Nothing,
            },
            MonitorKey::PageUp => {
                let total = self.logs.len();
                let max_scroll = if total >= self.log_view_height {
                    total - self.log_view_height
                } else {
                    0
                };
                let up = if self.log_scroll < usize::MAX {
                    self.log_scroll + 1
                } else {
                    self.log_scroll
                };
                self.log_scroll = if up <= max_scroll {
                    up
                } else {
                    max_scroll
                };
                MonitorAction::Nothing
            },
            MonitorKey::PageDown => {
                if self.log_scroll > 0 {
                    self.log_scroll = self.log_scroll - 1;
                }
                MonitorAction::Nothing
            },
            MonitorKey::Other => MonitorAction::Nothing,
        }
    }
}

/// `<word><id>`.
fn command_for_id(word: &str, id: u64) -> (r: String)
    ensures
        r@ == word@ + dec(id as nat),
{
    let mut out = chars_of(word);
    push_dec(&mut out, id);
    string_of(&out)
}

/// The command that opens the monitor's log stream: the last 40 lines,
/// of the given process or of all.
pub fn monitor_logs_command(target: Option<u64>) -> (r: String)
    ensures
        r@ == match target {
            Some(id) => "logs --lines=40 "@ + dec(id as nat),
            None => "logs --lines=40"@,
        },
{
    match target {
        Some(id) => command_for_id("logs --lines=40 ", id),
        None => string_of(&chars_of("logs --lines=40")),
    }
}

/// The address of the metrics of a process since a time.
pub fn metrics_url(process_id: u64, since: u64) -> (r: String)
    ensures
        r@ == "http://localhost:8096/api/v1/get_metrics/"@ + dec(process_id as nat) + "?since="@
            + dec(since as nat),
{
    let mut out = chars_of("http://localhost:8096/api/v1/get_metrics/");
    push_dec(&mut out, process_id);
    append_chars(&mut out, &chars_of("?since="));
    push_dec(&mut out, since);
    string_of(&out)
}

/// The start of the charts' time window: 30 seconds before `now`, or 0.
pub fn since_for(now: u64) -> (r: u64)
    ensures
        r == sat_sub(now as int, 30),
{
    if now >= 30 {
        now - 30
    } else {
        0
    }
}

/// Whether `] ` starts at `i`.
pub open spec fn bracket_at(s: Seq<char>, i: int) -> bool {
    0 <= i && i + 1 < s.len() && s[i] == ']' && s[i + 1] == ' '
}

/// Where the first `] ` starts.
pub open spec fn first_bracket(s: Seq<char>) -> Option<int> {
    if exists|i: int| bracket_at(s, i) {
        Some(choose|i: int| bracket_at(s, i) && forall|j: int| 0 <= j < i ==> !bracket_at(s, j))
    } else {
        None
    }
}

/// Whether `err` starts at `i`.
pub open spec fn err_at(s: Seq<char>, i: int) -> bool {
    0 <= i && i + 3 <= s.len() && s[i] == 'e' && s[i + 1] == 'r' && s[i + 2] == 'r'
}

/// Whether `err` occurs in the text.
pub open spec fn has_err(s: Seq<char>) -> bool {
    exists|i: int| err_at(s, i)
}

/// How the log pane shows a line.
pub enum LogLineStyle {
    /// The whole line in the plain colour.
    Plain,
    /// The prefix up to `]`, and the text after `] ` in the error colour
    /// when `err` occurs in the line, else in the plain colour.
    Split { prefix: String, msg: String, err: bool },
}

fn find_bracket(cs: &[char]) -> (r: Option<usize>)
    ensures
        r matches Some(p) ==> first_bracket(cs@) == Some(p as int) && p + 2 <= cs@.len(),
        r is None ==> first_bracket(cs@) is None,
{
    let n = cs.len();
    let mut i: usize = 0;
    while i < n
        invariant
            n == cs@.len(),
            forall|j: int| 0 <= j < i ==> !bracket_at(cs@, j),
        decreases n - i,
    {
        if n - i > 1 && cs[i] == ']' && cs[i + 1] == ' ' {
            proof {
                assert(bracket_at(cs@, i as int));
                let c = choose|c: int| bracket_at(cs@, c) && forall|j: int| 0 <= j < c ==> !bracket_at(cs@, j);
                if c < i {
                    assert(!bracket_at(cs@, c));
                }
                if c > i {
                    assert(!bracket_at(cs@, i as int));
                }
            }
            return Some(i);
        }
        i = i + 1;
    }
    assert forall|j: int| !bracket_at(cs@, j) by {
        if 0 <= j && j >= i as int && bracket_at(cs@, j) {
            assert(j + 1 < n);
        }
    }
    None
}

fn has_err_exec(cs: &[char]) -> (r: bool)
    ensures
        r == has_err(cs@),
{
    let n = cs.len();
    let mut k: usize = 0;
    while k < n
        invariant
            n == cs@.len(),
            forall|j: int| 0 <= j < k ==> !err_at(cs@, j),
        decreases n - k,
    {
        if n - k > 2 && cs[k] == 'e' && cs[k + 1] == 'r' && cs[k + 2] == 'r' {
            assert(err_at(cs@, k as int));
            return true;
        }
        k = k + 1;
    }
    assert forall|j: int| !err_at(cs@, j) by {
        if 0 <= j && j >= k && err_at(cs@, j) {
            assert(j + 3 <= n);
        }
    }
    false
}

/// How the log pane shows a line: split after the first `] `, if any.
pub fn log_line_style(line: &str) -> (r: LogLineStyle)
    ensures
        match first_bracket(line@) {
            None => r is Plain,
            Some(p) => r matches LogLineStyle::Split { prefix, msg, err } && prefix@ == line@.take(
                p + 1,
            ) && msg@ == line@.skip(p + 2) && err == has_err(line@),
        },
{
    let cs = chars_of(line);
    match find_bracket(&cs) {
        None => LogLineStyle::Plain,
        Some(p) => {
            let n = cs.len();
            let prefix = string_of(&sub_vec(&cs, 0, p + 1));
            let msg = string_of(&sub_vec(&cs, p + 2, n));
            LogLineStyle::Split { prefix, msg, err: has_err_exec(&cs) }
        },
    }
}

proof fn lemma_ins_len(s: Seq<Fields>, x: Fields)
    ensures
        ins_by_id(s, x).len() == s.len() + 1,
    decreases s.len(),
{
    if s.len() > 0 && s.last().id > x.id {
        lemma_ins_len(s.drop_last(), x);
    }
}

proof fn lemma_sort_len(s: Seq<Fields>)
    ensures
        sort_by_id(s).len() == s.len(),
    decreases s.len(),
{
    if s.len() > 0 {
        lemma_sort_len(s.drop_last());
        lemma_ins_len(sort_by_id(s.drop_last()), s.last());
    }
}

/// The position of the first process with the given id.
fn position_of_id(v: &Vec<PmProcessStatusInfo>, id: u64) -> (r: Option<usize>)
    ensures
        r matches Some(p) ==> first_with_id(infos_fields(v@), id) == Some(p as int) && p < v@.len(),
        r is None ==> first_with_id(infos_fields(v@), id) is None,
{
    let ghost f = infos_fields(v@);
    let mut i: usize = 0;
    while i < v.len()
        invariant
            i <= v@.len(),
            f == infos_fields(v@),
            forall|j: int| 0 <= j < i ==> f[j].id != id,
        decreases v.len() - i,
    {
        if v[i].id == id {
            proof {
                assert(f[i as int].id == id);
                let c = choose|c: int| 0 <= c < f.len() && f[c].id == id && forall|j: int| 0 <= j < c ==> f[j].id != id;
                if c < i {
                    assert(f[c].id != id);
                }
                if c > i {
                    assert(f[i as int].id != id);
                }
            }
            return Some(i);
        }
        i = i + 1;
    }
    None
}

/// The decimal text of a number is a word.
proof fn lemma_dec_plain(n: nat)
    ensures
        plain_word(dec(n)),
{
    lemma_dec_digits(n);
    assert forall|i: int| 0 <= i < dec(n).len() implies !crate::text::is_ws(#[trigger] dec(n)[i]) by {
        assert(is_digit(dec(n)[i]));
    }
}

/// The daemon reads the monitor's `stop <id>` as a stop of that number.
pub proof fn lemma_monitor_stop_read(id: u64)
    ensures
        request_of_text("stop "@ + dec(id as nat)) == RequestView::Stop(seq![dec(id as nat)]),
{
    let d = dec(id as nat);
    lemma_dec_plain(id as nat);
    lemma_join_sep_snoc(seq![d], space());
    assert(join_sep(seq![d], space()) == d);
    lemma_stop_command_read(seq![d]);
}

/// The daemon reads the monitor's `restart <id>` as a restart of that
/// number.
pub proof fn lemma_monitor_restart_read(id: u64)
    ensures
        request_of_text("restart "@ + dec(id as nat)) == RequestView::Restart(seq![dec(id as nat)]),
{
    reveal_strlit("restart ");
    reveal_strlit("restart");
    reveal_strlit("ping");
    reveal_strlit("start");
    reveal_strlit("stop");
    reveal_strlit("list");
    reveal_strlit("list-programs");
    reveal_strlit("logs");
    let d = dec(id as nat);
    lemma_dec_plain(id as nat);
    lemma_join_sep_snoc(seq![d], space());
    assert(join_sep(seq![d], space()) == d);
    assert("restart "@ =~= "restart"@ + space());
    lemma_command_words("restart"@, seq![d]);
    let t = "restart "@ + d;
    assert(t == "restart"@ + space() + join_sep(seq![d], space()));
    assert(words(t)[0] == "restart"@);
    assert(words(t).drop_first() =~= seq![d]);
    assert(ascii_lower_str("restart"@) =~= "restart"@);
}

/// Sorting by id gives processes in order of their ids.
pub proof fn lemma_sort_by_id_sorted(s: Seq<Fields>)
    ensures
        forall|i: int, j: int| 0 <= i < j < sort_by_id(s).len() ==> sort_by_id(s)[i].id <= sort_by_id(s)[j].id,
    decreases s.len(),
{
    if s.len() > 0 {
        lemma_sort_by_id_sorted(s.drop_last());
        lemma_ins_sorted(sort_by_id(s.drop_last()), s.last());
    }
}

/// Sorting by id keeps every process, each as often as before: the result
/// is a rearrangement of the list.
pub proof fn lemma_sort_by_id_permutes(s: Seq<Fields>)
    ensures
        sort_by_id(s).to_multiset() =~= s.to_multiset(),
    decreases s.len(),
{
    broadcast use vstd::seq_lib::group_to_multiset_ensures;

    if s.len() > 0 {
        let init = s.drop_last();
        lemma_sort_by_id_permutes(init);
        lemma_ins_multiset(sort_by_id(init), s.last());
        assert(s =~= init.push(s.last()));
    }
}

proof fn lemma_ins_multiset(s: Seq<Fields>, x: Fields)
    ensures
        ins_by_id(s, x).to_multiset() =~= s.to_multiset().insert(x),
    decreases s.len(),
{
    broadcast use vstd::seq_lib::group_to_multiset_ensures;
    broadcast use vstd::multiset::group_multiset_axioms;

    if s.len() == 0 {
        assert(seq![x] =~= s.push(x));
    } else if s.last().id <= x.id {
    } else {
        let init = s.drop_last();
        lemma_ins_multiset(init, x);
        assert(s =~= init.push(s.last()));
        assert(init.to_multiset().insert(x).insert(s.last()) =~= init.to_multiset().insert(s.last()).insert(x));
    }
}

proof fn lemma_ins_sorted(s: Seq<Fields>, x: Fields)
    requires
        forall|i: int, j: int| 0 <= i < j < s.len() ==> s[i].id <= s[j].id,
    ensures
        forall|i: int, j: int| 0 <= i < j < ins_by_id(s, x).len() ==> ins_by_id(s, x)[i].id <= ins_by_id(s, x)[j].id,
        forall|i: int| 0 <= i < ins_by_id(s, x).len() ==> (ins_by_id(s, x)[i].id == x.id || exists|k: int| 0 <= k < s.len() && s[k].id == ins_by_id(s, x)[i].id),
        ins_by_id(s, x).len() == s.len() + 1,
    decreases s.len(),
{
    if s.len() == 0 {
    } else if s.last().id <= x.id {
        let r = s.push(x);
        assert forall|i: int| 0 <= i < r.len() implies (r[i].id == x.id || exists|k: int| 0 <= k < s.len() && s[k].id == r[i].id) by {
            if i < s.len() {
                assert(s[i].id == r[i].id);
            }
        }
    } else {
        let init = s.drop_last();
        lemma_ins_sorted(init, x);
        let r0 = ins_by_id(init, x);
        let r = r0.push(s.last());
        assert forall|i: int, j: int| 0 <= i < j < r.len() implies r[i].id <= r[j].id by {
            if j == r.len() - 1 {
                assert(r[j] == s.last());
                if r0[i].id == x.id {
                } else {
                    let k = choose|k: int| 0 <= k < init.len() && init[k].id == r0[i].id;
                    assert(init[k] == s[k]);
                    assert(s[k].id <= s[s.len() - 1].id);
                }
            } else {
                assert(r[i] == r0[i] && r[j] == r0[j]);
            }
        }
        assert forall|i: int| 0 <= i < r.len() implies (r[i].id == x.id || exists|k: int| 0 <= k < s.len() && s[k].id == r[i].id) by {
            if i == r.len() - 1 {
                assert(s[s.len() - 1].id == r[i].id);
            } else {
                assert(r[i] == r0[i]);
                if r0[i].id != x.id {
                    let k = choose|k: int| 0 <= k < init.len() && init[k].id == r0[i].id;
                    assert(s[k] == init[k]);
                }
            }
        }
    }
}

} // verus!
