//! The daemon's table of managed processes and the decisions of its
//! commands: which process a name or number means, what each command
//! changes in the table, and the text of each reply. The daemon's runner
//! performs the operating-system side (spawning, killing, measuring) and
//! feeds the outcome back here.
use vstd::prelude::*;
use crate::pm3_config::PmProcessConfig;
use crate::process::{alloc_id, IdCounter, PmProcess};
use crate::text::{
    append_chars, chars_eq, chars_of, chars_views, dec, join_chars, join_sep, lemma_parse_dec,
    parse_u64, parse_unsigned_spec, string_of, strings_chars, u64_to_chars,
};

verus! {

broadcast use vstd::seq_lib::group_seq_properties;

/// The processes that the daemon manages, and the counter that numbers them.
pub struct ProcessTable {
    pub processes: Vec<PmProcess>,
    pub ids: IdCounter,
}

/// Index of the first process with the given number.
pub open spec fn first_with_idx(ps: Seq<PmProcess>, id: u64) -> Option<int> {
    if exists|i: int| 0 <= i < ps.len() && ps[i].idx == id {
        Some(choose|i: int| 0 <= i < ps.len() && ps[i].idx == id && forall|j: int| 0 <= j < i ==> ps[j].idx != id)
    } else {
        None
    }
}

/// Index of the first process with the given name.
pub open spec fn first_with_name(ps: Seq<PmProcess>, name: Seq<char>) -> Option<int> {
    if exists|i: int| 0 <= i < ps.len() && ps[i].proc_name@ == name {
        Some(choose|i: int| 0 <= i < ps.len() && ps[i].proc_name@ == name && forall|j: int| 0 <= j < i ==> ps[j].proc_name@ != name)
    } else {
        None
    }
}

/// The process that a program argument of `stop` or `restart` means: the
/// process with that number when the argument is one and such a process
/// exists, else the first process with that name.
pub open spec fn resolve_spec(ps: Seq<PmProcess>, program_id: Seq<char>) -> Option<int> {
    let by_id = match parse_unsigned_spec(program_id, u64::MAX as nat) {
        Some(id) => first_with_idx(ps, id as u64),
        None => None,
    };
    match by_id {
        Some(i) => Some(i),
        None => first_with_name(ps, program_id),
    }
}

/// The process that a program argument of `delete` means: only numbers.
pub open spec fn resolve_id_spec(ps: Seq<PmProcess>, program_id: Seq<char>) -> Option<int> {
    match parse_unsigned_spec(program_id, u64::MAX as nat) {
        Some(id) => first_with_idx(ps, id as u64),
        None => None,
    }
}

/// The text of an acknowledgement that lists the processes acted on:
/// `<verb> a, b successfully`, or the message for none.
pub open spec fn done_reply_spec(verb: Seq<char>, none_msg: Seq<char>, finished: Seq<Seq<char>>) -> Seq<char> {
    if finished.len() == 0 {
        none_msg
    } else {
        verb + seq![' '] + join_sep(finished, ", "@) + " successfully"@
    }
}

/// The reply to `list`: the number of lines, then each line, each ending
/// with a newline.
pub open spec fn list_reply_spec(lines: Seq<Seq<char>>) -> Seq<char> {
    dec(lines.len()) + seq!['\n'] + if lines.len() == 0 {
        seq![]
    } else {
        join_sep(lines, seq!['\n']) + seq!['\n']
    }
}

/// `<number> <name>` for one process.
pub open spec fn program_entry(p: PmProcess) -> Seq<char> {
    dec(p.idx as nat) + seq![' '] + p.proc_name@
}

/// The reply to `list-programs`: the entries of all processes joined with
/// spaces.
pub open spec fn list_programs_spec(ps: Seq<PmProcess>) -> Seq<char> {
    join_sep(ps.map_values(|p: PmProcess| program_entry(p)), seq![' '])
}

impl ProcessTable {
    /// Every process number is distinct and below the counter, and the
    /// counter has not wrapped.
    pub open spec fn wf(&self) -> bool {
        &&& forall|i: int, j: int| 0 <= i < j < self.processes@.len() ==> self.processes@[i].idx != self.processes@[j].idx
        &&& forall|i: int| 0 <= i < self.processes@.len() ==> self.processes@[i].idx < self.ids.next
        &&& self.ids.next >= 1
    }

    /// An empty table; numbering starts at 1.
    pub fn new() -> (r: ProcessTable)
        ensures
            r.processes@.len() == 0,
            r.ids.next == 1,
            r.wf(),
    {
        ProcessTable { processes: Vec::new(), ids: IdCounter::new() }
    }

    /// Whether a process of that name exists (a second `start` of the same
    /// name is refused).
    pub fn has_name(&self, name: &str) -> (r: bool)
        ensures
            r == (first_with_name(self.processes@, name@) is Some),
    {
        let n = chars_of(name);
        let mut i: usize = 0;
        while i < self.processes.len()
            invariant
                i <= self.processes@.len(),
                n@ == name@,
                forall|j: int| 0 <= j < i ==> self.processes@[j].proc_name@ != name@,
            decreases self.processes.len() - i,
        {
            if chars_eq(&chars_of(self.processes[i].proc_name.as_str()), &n) {
                assert(self.processes@[i as int].proc_name@ == name@);
                return true;
            }
            i = i + 1;
        }
        false
    }

    fn find_idx(&self, id: u64) -> (r: Option<usize>)
        ensures
            r matches Some(i) ==> first_with_idx(self.processes@, id) == Some(i as int) && i < self.processes@.len(),
            r is None ==> first_with_idx(self.processes@, id) is None,
    {
        let mut i: usize = 0;
        while i < self.processes.len()
            invariant
                i <= self.processes@.len(),
                forall|j: int| 0 <= j < i ==> self.processes@[j].idx != id,
            decreases self.processes.len() - i,
        {
            if self.processes[i].idx == id {
                proof {
                    let ps = self.processes@;
                    let k = choose|k: int| 0 <= k < ps.len() && ps[k].idx == id && forall|j: int| 0 <= j < k ==> ps[j].idx != id;
                    assert(0 <= i < ps.len() && ps[i as int].idx == id && forall|j: int| 0 <= j < i ==> ps[j].idx != id);
                    if k < i {} else if k > i {}
                }
                return Some(i);
            }
            i = i + 1;
        }
        None
    }

    fn find_name(&self, name: &[char]) -> (r: Option<usize>)
        ensures
            r matches Some(i) ==> first_with_name(self.processes@, name@) == Some(i as int) && i < self.processes@.len(),
            r is None ==> first_with_name(self.processes@, name@) is None,
    {
        let mut i: usize = 0;
        while i < self.processes.len()
            invariant
                i <= self.processes@.len(),
                forall|j: int| 0 <= j < i ==> self.processes@[j].proc_name@ != name@,
            decreases self.processes.len() - i,
        {
            if chars_eq(&chars_of(self.processes[i].proc_name.as_str()), name) {
                proof {
                    let ps = self.processes@;
                    let k = choose|k: int| 0 <= k < ps.len() && ps[k].proc_name@ == name@ && forall|j: int| 0 <= j < k ==> ps[j].proc_name@ != name@;
                    assert(0 <= i < ps.len() && ps[i as int].proc_name@ == name@ && forall|j: int| 0 <= j < i ==> ps[j].proc_name@ != name@);
                    if k < i {} else if k > i {}
                }
                return Some(i);
            }
            i = i + 1;
        }
        None
    }

    /// The process that an argument of `stop` or `restart` means.
    pub fn resolve(&self, program_id: &str) -> (r: Option<usize>)
        ensures
            r matches Some(i) ==> resolve_spec(self.processes@, program_id@) == Some(i as int) && i < self.processes@.len(),
            r is None ==> resolve_spec(self.processes@, program_id@) is None,
    {
        let pc = chars_of(program_id);
        let by_id = match parse_u64(&pc) {
            Some(id) => self.find_idx(id),
            None => None,
        };
        match by_id {
            Some(i) => Some(i),
            None => self.find_name(&pc),
        }
    }

    /// The process that an argument of `delete` means.
    pub fn resolve_id(&self, program_id: &str) -> (r: Option<usize>)
        ensures
            r matches Some(i) ==> resolve_id_spec(self.processes@, program_id@) == Some(i as int) && i < self.processes@.len(),
            r is None ==> resolve_id_spec(self.processes@, program_id@) is None,
    {
        let pc = chars_of(program_id);
        match parse_u64(&pc) {
            Some(id) => self.find_idx(id),
            None => None,
        }
    }

    /// Adds a process for the configuration under the next number, which it
    /// returns.
    pub fn add(&mut self, cfg: PmProcessConfig) -> (r: u64)
        ensures
            r == old(self).ids.next,
            final(self).processes@.len() == old(self).processes@.len() + 1,
            forall|i: int| 0 <= i < old(self).processes@.len() ==> final(self).processes@[i] == old(self).processes@[i],
            final(self).processes@.last().idx == r,
            final(self).processes@.last().proc_name@ == cfg.proc_name@,
            final(self).processes@.last().config@ == cfg@,
            final(self).processes@.last().child is None,
            final(self).ids.next == (if old(self).ids.next == u64::MAX { 0 } else { old(self).ids.next + 1 }),
            old(self).wf() && old(self).ids.next < u64::MAX ==> final(self).wf(),
    {
        let idx = alloc_id(&mut self.ids);
        let p = PmProcess::new(cfg, idx);
        self.processes.push(p);
        idx
    }

    /// Removes the process at a position; the others keep their order.
    pub fn remove_at(&mut self, pos: usize) -> (r: PmProcess)
        requires
            pos < old(self).processes@.len(),
        ensures
            r == old(self).processes@[pos as int],
            final(self).processes@ == old(self).processes@.remove(pos as int),
            final(self).ids == old(self).ids,
            old(self).wf() ==> final(self).wf(),
    {
        self.processes.remove(pos)
    }

    /// Empties the table and numbers from 1 again.
    pub fn reset(&mut self)
        ensures
            final(self).processes@.len() == 0,
            final(self).ids.next == 1,
            final(self).wf(),
    {
        self.processes = Vec::new();
        self.ids.reset();
    }

    /// The first step of `revive`: a table that holds processes is emptied
    /// and numbers from 1 again (the caller has stopped the active ones);
    /// an empty table is left as it is, numbering included. The result
    /// tells whether the table was emptied.
    pub fn revive_reset(&mut self) -> (cleared: bool)
        ensures
            cleared == (old(self).processes@.len() > 0),
            cleared ==> final(self).processes@.len() == 0 && final(self).ids.next == 1 && final(self).wf(),
            !cleared ==> *final(self) == *old(self),
    {
        if self.processes.len() > 0 {
            self.reset();
            true
        } else {
            false
        }
    }

    /// The reply to `list-programs`.
    pub fn list_programs_reply(&self) -> (r: String)
        ensures
            r@ == list_programs_spec(self.processes@),
    {
        let mut entries: Vec<Vec<char>> = Vec::new();
        let mut i: usize = 0;
        while i < self.processes.len()
            invariant
                i <= self.processes@.len(),
                chars_views(entries@) == self.processes@.take(i as int).map_values(|p: PmProcess| program_entry(p)),
            decreases self.processes.len() - i,
        {
            let mut e = u64_to_chars(self.processes[i].idx);
            e.push(' ');
            append_chars(&mut e, &chars_of(self.processes[i].proc_name.as_str()));
            assert(e@ =~= program_entry(self.processes@[i as int]));
            let ghost before = chars_views(entries@);
            entries.push(e);
            assert(chars_views(entries@) =~= before.push(e@));
            assert(self.processes@.take(i + 1).map_values(|p: PmProcess| program_entry(p)) =~= self.processes@.take(i as int).map_values(|p: PmProcess| program_entry(p)).push(program_entry(self.processes@[i as int])));
            i = i + 1;
        }
        assert(self.processes@.take(self.processes@.len() as int) =~= self.processes@);
        let sp = vec![' '];
        let r = join_chars(&entries, &sp);
        assert(sp@ =~= seq![' ']);
        string_of(&r)
    }
}

/// `<verb> a, b successfully`, or `none_msg` when nothing was done.
pub fn done_reply(verb: &str, none_msg: &str, finished: &Vec<String>) -> (r: String)
    ensures
        r@ == done_reply_spec(verb@, none_msg@, finished@.map_values(|s: String| s@)),
{
    if finished.len() == 0 {
        return string_of(&chars_of(none_msg));
    }
    let mut out = chars_of(verb);
    out.push(' ');
    let parts = strings_chars(finished);
    let joined = join_chars(&parts, &chars_of(", "));
    append_chars(&mut out, &joined);
    append_chars(&mut out, &chars_of(" successfully"));
    string_of(&out)
}

/// The reply to `stop`.
pub fn stop_reply(finished: &Vec<String>) -> (r: String)
    ensures
        r@ == done_reply_spec("Stopped"@, "No processes were stopped"@, finished@.map_values(|s: String| s@)),
{
    done_reply("Stopped", "No processes were stopped", finished)
}

/// The reply to `restart`.
pub fn restart_reply(finished: &Vec<String>) -> (r: String)
    ensures
        r@ == done_reply_spec("Restarted"@, "No processes were restarted"@, finished@.map_values(|s: String| s@)),
{
    done_reply("Restarted", "No processes were restarted", finished)
}

/// The reply to `delete`.
pub fn delete_reply(finished: &Vec<String>) -> (r: String)
    ensures
        r@ == done_reply_spec("Deleted"@, "No processes were deleted"@, finished@.map_values(|s: String| s@)),
{
    done_reply("Deleted", "No processes were deleted", finished)
}

/// The reply to `list`, from the status lines of all processes.
pub fn list_reply(lines: &Vec<String>) -> (r: String)
    ensures
        r@ == list_reply_spec(lines@.map_values(|s: String| s@)),
{
    let mut out = u64_to_chars(lines.len() as u64);
    out.push('\n');
    if lines.len() > 0 {
        let parts = strings_chars(lines);
        let nl = vec!['\n'];
        append_chars(&mut out, &join_chars(&parts, &nl));
        out.push('\n');
        assert(nl@ =~= seq!['\n']);
    }
    let ghost lv = lines@.map_values(|s: String| s@);
    assert(out@ =~= list_reply_spec(lv));
    string_of(&out)
}

/// The reply to `dump`.
pub fn dump_reply(cnt: u64) -> (r: String)
    ensures
        r@ == dec(cnt as nat) + " configs saved to ~/.pm3/configs (backup created in ~/.pm3/configs.old)"@,
{
    let mut out = u64_to_chars(cnt);
    append_chars(&mut out, &chars_of(" configs saved to ~/.pm3/configs (backup created in ~/.pm3/configs.old)"));
    string_of(&out)
}

/// The reply to `revive`.
pub fn revive_reply(cnt: u64) -> (r: String)
    ensures
        r@ == "PM3 has started "@ + dec(cnt as nat) + " processes from ~/.pm3/configs"@,
{
    let mut out = chars_of("PM3 has started ");
    append_chars(&mut out, &u64_to_chars(cnt));
    append_chars(&mut out, &chars_of(" processes from ~/.pm3/configs"));
    string_of(&out)
}

/// What `delete` does with its arguments, one after the other: an argument
/// that is the number of a listed process removes it. The processes left
/// and the ones removed, in order.
pub open spec fn delete_fold(ps: Seq<PmProcess>, args: Seq<Seq<char>>) -> (Seq<PmProcess>, Seq<PmProcess>)
    decreases args.len(),
{
    if args.len() == 0 {
        (ps, seq![])
    } else {
        let (left, removed) = delete_fold(ps, args.drop_last());
        match resolve_id_spec(left, args.last()) {
            Some(pos) => (left.remove(pos), removed.push(left[pos])),
            None => (left, removed),
        }
    }
}

/// The numbers of processes, as text.
pub open spec fn idx_texts(ps: Seq<PmProcess>) -> Seq<Seq<char>> {
    ps.map_values(|p: PmProcess| dec(p.idx as nat))
}

impl ProcessTable {
    /// Removes the processes that the arguments of `delete` number, and
    /// returns them (their children are the caller's to stop) with the
    /// reply. A removed process can no longer be found by its number.
    pub fn delete_programs(&mut self, programs: &Vec<String>) -> (r: (Vec<PmProcess>, String))
        requires
            old(self).wf(),
        ensures
            final(self).wf(),
            final(self).ids == old(self).ids,
            ({
                let (left, removed) = delete_fold(old(self).processes@, programs@.map_values(|s: String| s@));
                &&& final(self).processes@ == left
                &&& r.0@ == removed
                &&& r.1@ == done_reply_spec("Deleted"@, "No processes were deleted"@, idx_texts(removed))
            }),
            forall|k: int| 0 <= k < r.0@.len() ==> first_with_idx(final(self).processes@, r.0@[k].idx) is None,
    {
        let ghost args = programs@.map_values(|s: String| s@);
        let mut removed: Vec<PmProcess> = Vec::new();
        let mut finished: Vec<String> = Vec::new();
        let mut i: usize = 0;
        proof {
            assert(args.take(0) =~= Seq::<Seq<char>>::empty());
        }
        while i < programs.len()
            invariant
                i <= programs@.len(),
                args == programs@.map_values(|s: String| s@),
                self.wf(),
                self.ids == old(self).ids,
                delete_fold(old(self).processes@, args.take(i as int)) == (self.processes@, removed@),
                finished@.map_values(|s: String| s@) == idx_texts(removed@),
                forall|k: int| 0 <= k < removed@.len() ==> first_with_idx(self.processes@, removed@[k].idx) is None,
            decreases programs.len() - i,
        {
            proof {
                assert(args.take(i + 1).drop_last() =~= args.take(i as int));
                assert(args.take(i + 1).last() == programs@[i as int]@);
            }
            match self.resolve_id(programs[i].as_str()) {
                Some(pos) => {
                    let ghost before = self.processes@;
                    let ghost rm0 = removed@;
                    let p = self.remove_at(pos);
                    let t = string_of(&u64_to_chars(p.idx));
                    proof {
                        assert forall|k: int| 0 <= k < self.processes@.len() implies self.processes@[k].idx != p.idx by {
                            if k < pos {
                                assert(self.processes@[k] == before[k]);
                            } else {
                                assert(self.processes@[k] == before[k + 1]);
                            }
                        }
                        assert forall|k: int| 0 <= k < rm0.len() implies first_with_idx(self.processes@, rm0[k].idx) is None by {
                            if first_with_idx(self.processes@, rm0[k].idx) is Some {
                                let j = choose|j: int| 0 <= j < self.processes@.len() && self.processes@[j].idx == rm0[k].idx;
                                if j < pos {
                                    assert(before[j].idx == rm0[k].idx);
                                } else {
                                    assert(before[j + 1].idx == rm0[k].idx);
                                }
                            }
                        }
                    }
                    removed.push(p);
                    let ghost fin0 = finished@.map_values(|s: String| s@);
                    finished.push(t);
                    proof {
                        assert(finished@.map_values(|s: String| s@) =~= fin0.push(t@));
                        assert(idx_texts(removed@) =~= idx_texts(rm0).push(dec(removed@.last().idx as nat)));
                    }
                },
                None => {},
            }
            i = i + 1;
        }
        proof {
            assert(args.take(programs@.len() as int) =~= args);
        }
        let reply = delete_reply(&finished);
        (removed, reply)
    }
}

/// What `start` did with its configuration.
#[derive(Debug, PartialEq, Eq, Structural)]
pub enum StartStep {
    /// A process of that name exists: the table is left as it was, and
    /// the reply is `already_exists_reply`.
    AlreadyExists,
    /// The process was added at this position under this number; it is
    /// the caller's to start (and to remove again if that fails).
    Added { pos: usize, idx: u64 },
}

/// The reply to a `start` of a name that is taken.
pub fn already_exists_reply() -> (r: String)
    ensures
        r@ == "Process already exists"@,
{
    string_of(&chars_of("Process already exists"))
}

/// The reply to a `start` that started the process.
pub fn started_reply() -> (r: String)
    ensures
        r@ == "Started successfully"@,
{
    string_of(&chars_of("Started successfully"))
}

impl ProcessTable {
    /// The decision of `start`: a name that is taken leaves the table as it
    /// is (no number is used up); else the process is added at the end
    /// under the next number.
    pub fn start_step(&mut self, config: PmProcessConfig) -> (r: StartStep)
        ensures
            first_with_name(old(self).processes@, config.proc_name@) is Some ==> r == StartStep::AlreadyExists
                && *final(self) == *old(self),
            first_with_name(old(self).processes@, config.proc_name@) is None ==> {
                &&& r == (StartStep::Added { pos: old(self).processes@.len() as usize, idx: old(self).ids.next })
                &&& final(self).processes@.len() == old(self).processes@.len() + 1
                &&& forall|i: int| 0 <= i < old(self).processes@.len() ==> final(self).processes@[i] == old(self).processes@[i]
                &&& final(self).processes@.last().idx == old(self).ids.next
                &&& final(self).processes@.last().proc_name@ == config.proc_name@
                &&& final(self).processes@.last().config@ == config@
                &&& final(self).processes@.last().child is None
                &&& final(self).ids.next == crate::process::next_id(old(self).ids.next)
            },
            old(self).wf() && old(self).ids.next < u64::MAX ==> final(self).wf(),
    {
        if self.has_name(config.proc_name.as_str()) {
            return StartStep::AlreadyExists;
        }
        let pos = self.processes.len();
        let idx = self.add(config);
        StartStep::Added { pos, idx }
    }
}

/// What `stop` does with one of its arguments.
#[derive(Debug, PartialEq, Eq, Structural)]
pub enum StopStep {
    /// No process is meant: the argument is passed over.
    Skip,
    /// The process at this position is not active: it is reported as
    /// already stopped and left alone.
    AlreadyStopped(usize),
    /// The process at this position is stopped; on success its number goes
    /// into the reply.
    Stop(usize),
}

/// What `restart` does with one of its arguments.
#[derive(Debug, PartialEq, Eq, Structural)]
pub enum RestartStep {
    /// No process is meant.
    Skip,
    /// The process at this position is started again, after its child is
    /// stopped when `stop_first` holds.
    Restart { pos: usize, stop_first: bool },
}

impl ProcessTable {
    /// The decision of `stop` for one argument, taken on the table as it
    /// stands after the arguments before it.
    pub fn stop_step(&self, program_id: &str) -> (r: StopStep)
        ensures
            match resolve_spec(self.processes@, program_id@) {
                None => r == StopStep::Skip,
                Some(i) => if self.processes@[i].status.spec_is_active() {
                    r == StopStep::Stop(i as usize)
                } else {
                    r == StopStep::AlreadyStopped(i as usize)
                },
            },
            r matches StopStep::Stop(p) ==> p < self.processes@.len(),
            r matches StopStep::AlreadyStopped(p) ==> p < self.processes@.len(),
    {
        match self.resolve(program_id) {
            None => StopStep::Skip,
            Some(pos) => {
                if self.processes[pos].is_active() {
                    StopStep::Stop(pos)
                } else {
                    StopStep::AlreadyStopped(pos)
                }
            },
        }
    }

    /// The decision of `restart` for one argument: the process it means,
    /// and whether it holds a child to stop first.
    pub fn restart_step(&self, program_id: &str) -> (r: RestartStep)
        ensures
            match resolve_spec(self.processes@, program_id@) {
                None => r == RestartStep::Skip,
                Some(i) => r == (RestartStep::Restart {
                    pos: i as usize,
                    stop_first: self.processes@[i].child is Some,
                }),
            },
            r matches RestartStep::Restart { pos, .. } ==> pos < self.processes@.len(),
    {
        match self.resolve(program_id) {
            None => RestartStep::Skip,
            Some(pos) => RestartStep::Restart { pos, stop_first: self.processes[pos].child.is_some() },
        }
    }
}

/// A managed process is found by the number the daemon reports for it
/// (the text of its number), by `stop`, `restart` and `delete` alike.
pub proof fn lemma_resolve_reported_number(t: ProcessTable, k: int)
    requires
        t.wf(),
        0 <= k < t.processes@.len(),
    ensures
        resolve_id_spec(t.processes@, dec(t.processes@[k].idx as nat)) == Some(k),
        resolve_spec(t.processes@, dec(t.processes@[k].idx as nat)) == Some(k),
{
    let ps = t.processes@;
    let id = ps[k].idx;
    lemma_parse_dec(id as nat, u64::MAX as nat);
    let c = choose|i: int| 0 <= i < ps.len() && ps[i].idx == id && forall|j: int| 0 <= j < i ==> ps[j].idx != id;
    if c < k {
        assert(ps[c].idx != ps[k].idx);
    }
    if c > k {
        assert(ps[k].idx != id);
    }
}

} // verus!
