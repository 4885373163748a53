//! The dashboard's state and what each user action does to it. Running commands,
//! reading the clock and touching the file system are left to the caller, who hands
//! in what they gave.
use vstd::prelude::*;
use crate::history::{section, push_entry, strings_of, InputHistory};
use crate::input::{handle_tab, BodyStyle, Modal, ModalKind, MsgStyle};
use crate::palette::Palette;
use crate::slurm::SlurmData;
use crate::text::{
    byte_len, chars_of, concat_str, eq_ignore_ascii_case, eq_ignore_case_str, eq_str,
    extend_range, lemma_char_pos, lines, lines_of, pad_left, pad_right, push_padded_left,
    push_padded_right, seqs, slice_of, split, split_chars, starts_with, starts_with_str,
    str_bytes, string_of, trim, trim_bounds, words, words_of,
};
use crate::users::UidCache;

verus! {

broadcast use vstd::string::group_string_axioms;

/// How long a message stays up, in milliseconds.
pub const MESSAGE_MS: u64 = 2000;

/// What the caller is to do after a dialog was submitted.
pub enum Action {
    Nothing,
    /// Submit a job with these `sbatch` arguments.
    Submit(String),
    /// Cancel this job.
    Cancel(String),
    /// Cancel all of the user's jobs.
    CancelAll,
    /// Change to this directory (as typed).
    ChangeDir(String),
    /// Find the log of this job and show it.
    ShowLog(String),
}

pub struct App {
    pub palette: Palette,
    pub cwd: String,
    pub login_node: String,
    pub data: SlurmData,
    pub max_jobs: usize,
    pub modal: Option<Modal>,
    pub history: InputHistory,
    pub should_quit: bool,
    /// When set, the modal shows a message until this time (milliseconds on the
    /// caller's clock), then goes away.
    pub msg_deadline: Option<u64>,
    /// User names resolved for user ids.
    pub users: UidCache,
    /// A log file the caller is to show full screen.
    pub pending_less_path: Option<String>,
}

pub open spec fn body_view(v: Seq<(String, BodyStyle)>) -> Seq<(Seq<char>, BodyStyle)> {
    Seq::new(v.len(), |i: int| (v[i].0@, v[i].1))
}

/// How many running jobs the details show for a terminal `height` rows high: two
/// columns of jobs of seven rows each, at least one per column.
pub open spec fn max_jobs_for(height: u16) -> int {
    let available = if height >= 18 {
        height - 18
    } else {
        0
    };
    let per_column = if available / 7 >= 1 {
        available / 7
    } else {
        1
    };
    per_column * 2
}

/// The color role of a job state in the cancel dialog.
pub open spec fn state_style(state: Seq<char>) -> BodyStyle {
    if state == "RUNNING"@ {
        BodyStyle::Blue
    } else if state == "PENDING"@ {
        BodyStyle::Yellow
    } else {
        BodyStyle::Fg
    }
}

/// A `JOBID|NAME|STATE` line of the user's jobs as the cancel and log dialogs list it.
pub open spec fn job_row(parts: Seq<Seq<char>>) -> (Seq<char>, BodyStyle) {
    (
        "  "@ + pad_left(parts[0], 8) + "  "@ + pad_right(parts[1], 20) + " "@ + parts[2],
        state_style(parts[2]),
    )
}

/// The listed jobs of the cancel and log dialogs: the lines with at least three fields.
pub open spec fn job_rows(ls: Seq<Seq<char>>) -> Seq<(Seq<char>, BodyStyle)>
    decreases ls.len(),
{
    if ls.len() == 0 {
        Seq::empty()
    } else {
        let parts = split(trim(ls.last()), '|');
        if parts.len() >= 3 {
            job_rows(ls.drop_last()).push(job_row(parts))
        } else {
            job_rows(ls.drop_last())
        }
    }
}

/// `~` at the start of a path stands for the home directory, when there is one.
pub open spec fn expand_home_spec(path: Seq<char>, home: Option<Seq<char>>) -> Seq<char> {
    if path.len() > 0 && path[0] == '~' && home is Some {
        home->0 + path.skip(1)
    } else {
        path
    }
}

/// `~` at the start of `path` replaced by the home directory, when there is one.
pub fn expand_home(path: &str, home: Option<&str>) -> (r: String)
    ensures
        r@ == expand_home_spec(path@, match home {
            Some(h) => Some(h@),
            None => None,
        }),
{
    let v = chars_of(path);
    match home {
        Some(h) => {
            if v.len() > 0 && v[0] == '~' {
                let mut out = chars_of(h);
                extend_range(&mut out, &v, 1, v.len());
                assert(v@.subrange(1, v@.len() as int) == v@.skip(1));
                string_of(&out)
            } else {
                path.to_owned()
            }
        },
        None => path.to_owned(),
    }
}

/// `p` taken relative to the directory `base`, as a path join does it: an absolute
/// `p` stands for itself, else a `/` separates the two unless `base` is empty or
/// already ends in one.
pub open spec fn join_path(base: Seq<char>, p: Seq<char>) -> Seq<char> {
    if p.len() > 0 && p[0] == '/' {
        p
    } else if base.len() == 0 || base.last() == '/' {
        base + p
    } else {
        base + seq!['/'] + p
    }
}

/// The directory that `typed` in the change-directory dialog names, from `cwd`,
/// with `~` standing for `home`.
pub fn chdir_target(cwd: &str, typed: &str, home: Option<&str>) -> (r: String)
    ensures
        r@ == join_path(cwd@, expand_home_spec(typed@, match home {
            Some(h) => Some(h@),
            None => None,
        })),
{
    let p = expand_home(typed, home);
    let pv = chars_of(p.as_str());
    if pv.len() > 0 && pv[0] == '/' {
        return p;
    }
    let mut out = chars_of(cwd);
    if out.len() > 0 && out[out.len() - 1] != '/' {
        out.push('/');
    }
    extend_range(&mut out, &pv, 0, pv.len());
    assert(pv@.subrange(0, pv@.len() as int) == pv@);
    string_of(&out)
}

fn body_line(text: String, style: BodyStyle) -> (r: (String, BodyStyle))
    ensures
        r.0 == text,
        r.1 == style,
{
    (text, style)
}

/// Adds the listed jobs of a `JOBID|NAME|STATE` listing to a dialog body.
fn push_job_rows(body: &mut Vec<(String, BodyStyle)>, v: &Vec<char>)
    ensures
        body_view(final(body)@) == body_view(old(body)@) + job_rows(lines(v@)),
{
    let ghost first = body_view(body@);
    let ls = lines_of(v);
    let ghost all = seqs(ls@);
    let mut i: usize = 0;
    assert(all.take(0) == Seq::<Seq<char>>::empty());
    assert(first + job_rows(all.take(0)) =~= first);
    while i < ls.len()
        invariant
            i <= ls.len(),
            all == seqs(ls@),
            body_view(body@) == first + job_rows(all.take(i as int)),
        decreases ls.len() - i,
    {
        assert(all.take(i + 1).drop_last() == all.take(i as int));
        assert(all.take(i + 1).last() == ls@[i as int]@);
        let line = &ls[i];
        let (a, b) = trim_bounds(line, 0, line.len());
        assert(line@.subrange(0, line@.len() as int) == line@);
        let t = slice_of(line, a, b);
        let parts = split_chars(&t, '|');
        if parts.len() >= 3 {
            let ghost pv = seqs(parts@);
            assert(parts@[0]@ == pv[0]);
            assert(parts@[1]@ == pv[1]);
            assert(parts@[2]@ == pv[2]);
            let style = if eq_str(&parts[2], "RUNNING") {
                BodyStyle::Blue
            } else if eq_str(&parts[2], "PENDING") {
                BodyStyle::Yellow
            } else {
                BodyStyle::Fg
            };
            let mut text: Vec<char> = Vec::new();
            text.push(' ');
            text.push(' ');
            push_padded_left(&mut text, &parts[0], 8);
            text.push(' ');
            text.push(' ');
            push_padded_right(&mut text, &parts[1], 20);
            text.push(' ');
            extend_range(&mut text, &parts[2], 0, parts[2].len());
            proof {
                reveal_strlit("  ");
                reveal_strlit(" ");
                assert(parts@[2]@.subrange(0, parts@[2]@.len() as int) == parts@[2]@);
                assert(text@ =~= job_row(pv).0);
            }
            let ghost before = body_view(body@);
            body.push(body_line(string_of(&text), style));
            assert(body_view(body@) =~= before.push(job_row(pv)));
        }
        i = i + 1;
    }
    assert(all.take(ls.len() as int) == all);
}

/// The dialog for a message: titled `title`, showing `msg`.
pub open spec fn is_message(m: Modal, title: Seq<char>, msg: Seq<char>, style: MsgStyle) -> bool {
    &&& m.wf()
    &&& m.kind == ModalKind::Submit
    &&& m.title@ == title
    &&& m.prompt@.len() == 0
    &&& m.buf@.len() == 0
    &&& m.body_lines@.len() == 0
    &&& m.message matches Some((t, s)) && t@ == msg && s == style
    &&& m.hist_index == 0
    &&& m.cursor == 0
    &&& m.completions@.len() == 0
}

/// A fresh input dialog.
pub open spec fn is_input(m: Modal, kind: ModalKind, title: Seq<char>, prompt: Seq<char>) -> bool {
    &&& m.wf()
    &&& m.kind == kind
    &&& m.title@ == title
    &&& m.prompt@ == prompt
    &&& m.buf@.len() == 0
    &&& m.cursor == 0
    &&& m.message is None
    &&& m.completions@.len() == 0
    &&& m.comp_index == -1
    &&& m.comp_prefix@.len() == 0
    &&& m.comp_suffix@.len() == 0
    &&& m.saved_buf@.len() == 0
}

/// The trimmed line of the dialog, when there is a dialog and the line is not blank.
pub open spec fn submitted(modal: Option<Modal>) -> Option<Seq<char>> {
    match modal {
        Some(m) => if trim(m.buf@).len() > 0 {
            Some(trim(m.buf@))
        } else {
            None
        },
        None => None,
    }
}

/// A dialog that picks a job from a list rather than taking a typed line.
pub open spec fn is_picker(modal: Option<Modal>) -> bool {
    modal matches Some(m) && m.kind == ModalKind::Logs
}

/// The job of the chosen line of a job list: the line's first word.
pub open spec fn selected_job(m: Modal) -> Option<Seq<char>> {
    if m.selection < m.body_lines@.len() && words(m.body_lines@[m.selection as int].0@).len() > 0 {
        Some(words(m.body_lines@[m.selection as int].0@)[0])
    } else {
        None
    }
}

/// One step back in a dialog's history `hist`, from (line, kept line, slot) to the
/// same; leaving the newest slot keeps the line typed there.
pub open spec fn up_step(st: (Seq<char>, Seq<char>, int), hist: Seq<Seq<char>>) -> (
    Seq<char>,
    Seq<char>,
    int,
) {
    let (line, saved, k) = st;
    if hist.len() == 0 || k == 0 {
        st
    } else {
        (hist[k - 1], if k == hist.len() {
            line
        } else {
            saved
        }, k - 1)
    }
}

/// One step forward in a dialog's history; past the newest entry comes the kept line.
pub open spec fn down_step(st: (Seq<char>, Seq<char>, int), hist: Seq<Seq<char>>) -> (
    Seq<char>,
    Seq<char>,
    int,
) {
    let (line, saved, k) = st;
    if k >= hist.len() {
        st
    } else if k + 1 < hist.len() {
        (hist[k + 1], saved, k + 1)
    } else {
        (saved, saved, k + 1)
    }
}

/// Going up in the history and then down again gives back the line that was shown,
/// at the same slot; from the newest slot, what had been typed there.
pub proof fn law_history_up_then_down(line: Seq<char>, saved: Seq<char>, k: int, hist: Seq<Seq<char>>)
    requires
        0 < k <= hist.len(),
        k < hist.len() ==> line == hist[k],
    ensures
        down_step(up_step((line, saved, k), hist), hist).0 == line,
        down_step(up_step((line, saved, k), hist), hist).2 == k,
{
}

impl App {
    /// A modal dialog, if any, is well formed and its history slot lies within the
    /// history of its title.
    pub open spec fn wf(&self) -> bool {
        match self.modal {
            Some(m) => m.wf() && m.hist_index <= section(self.history@, m.title@).len(),
            None => true,
        }
    }

    /// Everything but the dialog, the message deadline and the history is as in `o`.
    pub open spec fn same_but_dialog(&self, o: App) -> bool {
        &&& self.palette == o.palette
        &&& self.cwd == o.cwd
        &&& self.login_node == o.login_node
        &&& self.data == o.data
        &&& self.max_jobs == o.max_jobs
        &&& self.should_quit == o.should_quit
        &&& self.users == o.users
        &&& self.pending_less_path == o.pending_less_path
    }

    /// A dashboard in the given theme, working in `cwd`, with the history read at
    /// start.
    pub fn new(dark: bool, login_node: String, cwd: String, history: InputHistory) -> (a: App)
        ensures
            a.wf(),
            a.palette == (if dark {
                Palette::dark_spec()
            } else {
                Palette::light_spec()
            }),
            a.cwd == cwd,
            a.login_node == login_node,
            a.max_jobs == 20,
            a.modal is None,
            a.history == history,
            !a.should_quit,
            a.msg_deadline is None,
            a.data.queue_jobs@.len() == 0,
            a.data.partition_stats@.len() == 0,
            a.data.job_details@.len() == 0,
            a.data.running_total == 0,
            a.data.idle_nodes == 0,
            a.data.mix_nodes == 0,
            a.data.alloc_nodes == 0,
            a.data.down_nodes == 0,
            a.users@.len() == 0,
            a.pending_less_path is None,
    {
        App {
            palette: if dark {
                Palette::dark()
            } else {
                Palette::light()
            },
            cwd,
            login_node,
            data: SlurmData {
                queue_jobs: Vec::new(),
                partition_stats: Vec::new(),
                idle_nodes: 0,
                mix_nodes: 0,
                alloc_nodes: 0,
                down_nodes: 0,
                job_details: Vec::new(),
                running_total: 0,
            },
            max_jobs: 20,
            modal: None,
            history,
            should_quit: false,
            msg_deadline: None,
            users: UidCache::new(),
            pending_less_path: None,
        }
    }

    /// Sizes the job details to a terminal `height` rows high.
    pub fn calc_max_jobs(&mut self, height: u16)
        ensures
            final(self).max_jobs == max_jobs_for(height),
            final(self).modal == old(self).modal,
            final(self).history == old(self).history,
            final(self).msg_deadline == old(self).msg_deadline,
            final(self).wf() == old(self).wf(),
    {
        let available = height.saturating_sub(3 + 12 + 1 + 2) as usize;
        let per_column = if available / 7 >= 1 {
            available / 7
        } else {
            1
        };
        self.max_jobs = per_column * 2;
    }

    fn open_input(&mut self, kind: ModalKind, title: &str, prompt: &str, body: Vec<(String, BodyStyle)>)
        ensures
            final(self).modal matches Some(m) && is_input(m, kind, title@, prompt@) && m.body_lines
                == body && m.hist_index == section(old(self).history@, title@).len(),
            final(self).wf(),
            final(self).history == old(self).history,
            final(self).msg_deadline == old(self).msg_deadline,
            final(self).same_but_dialog(*old(self)),
    {
        let mut modal = Modal::new(kind, title, prompt).with_body(body);
        let hist = self.history.get(title);
        modal.hist_index = hist.len();
        assert(strings_of(hist@).len() == hist@.len());
        self.modal = Some(modal);
    }

    /// Opens the dialog that submits a job.
    pub fn open_submit(&mut self)
        ensures
            final(self).modal matches Some(m) && is_input(
                m,
                ModalKind::Submit,
                " Submit Job "@,
                ":sbatch "@,
            ) && body_view(m.body_lines@) == seq![
                ("cwd: "@ + old(self).cwd@, BodyStyle::Gray),
                ("Enter sbatch args (Esc to cancel)"@, BodyStyle::Dim),
            ] && m.hist_index == section(old(self).history@, " Submit Job "@).len(),
            final(self).wf(),
            final(self).history == old(self).history,
            final(self).msg_deadline == old(self).msg_deadline,
            final(self).same_but_dialog(*old(self)),
    {
        let mut body: Vec<(String, BodyStyle)> = Vec::new();
        body.push(body_line(concat_str("cwd: ", self.cwd.as_str()), BodyStyle::Gray));
        body.push(body_line("Enter sbatch args (Esc to cancel)".to_owned(), BodyStyle::Dim));
        let ghost bv = body@;
        self.open_input(ModalKind::Submit, " Submit Job ", ":sbatch ", body);
        assert(body_view(bv) =~= seq![
            ("cwd: "@ + old(self).cwd@, BodyStyle::Gray),
            ("Enter sbatch args (Esc to cancel)"@, BodyStyle::Dim),
        ]);
    }

    /// Opens the dialog that changes the working directory.
    pub fn open_chdir(&mut self)
        ensures
            final(self).modal matches Some(m) && is_input(
                m,
                ModalKind::Chdir,
                " Change Directory "@,
                ":cd "@,
            ) && body_view(m.body_lines@) == seq![
                ("Current: "@ + old(self).cwd@, BodyStyle::Gray),
                ("Enter path (Tab to complete, Esc to cancel)"@, BodyStyle::Dim),
            ] && m.hist_index == section(old(self).history@, " Change Directory "@).len(),
            final(self).wf(),
            final(self).history == old(self).history,
            final(self).msg_deadline == old(self).msg_deadline,
            final(self).same_but_dialog(*old(self)),
    {
        let mut body: Vec<(String, BodyStyle)> = Vec::new();
        body.push(body_line(concat_str("Current: ", self.cwd.as_str()), BodyStyle::Gray));
        body.push(
            body_line("Enter path (Tab to complete, Esc to cancel)".to_owned(), BodyStyle::Dim),
        );
        let ghost bv = body@;
        self.open_input(ModalKind::Chdir, " Change Directory ", ":cd ", body);
        assert(body_view(bv) =~= seq![
            ("Current: "@ + old(self).cwd@, BodyStyle::Gray),
            ("Enter path (Tab to complete, Esc to cancel)"@, BodyStyle::Dim),
        ]);
    }

    /// Shows `msg` for `MESSAGE_MS` from `now_ms`.
    pub fn flash_message(&mut self, title: &str, msg: &str, style: MsgStyle, now_ms: u64)
        requires
            now_ms <= u64::MAX - MESSAGE_MS,
        ensures
            final(self).modal matches Some(m) && is_message(m, title@, msg@, style),
            final(self).msg_deadline == Some((now_ms + MESSAGE_MS) as u64),
            final(self).wf(),
            final(self).history == old(self).history,
            final(self).same_but_dialog(*old(self)),
    {
        let mut modal = Modal::new(ModalKind::Submit, title, "");
        proof {
            reveal_strlit("");
        }
        modal.set_message(msg.to_owned(), style);
        self.modal = Some(modal);
        self.msg_deadline = Some(now_ms + MESSAGE_MS);
    }

    /// Opens the dialog that cancels a job, listing the user's jobs from
    /// `squeue -u USER -h -o %i|%j|%T`; with none (or an error) it says so instead.
    pub fn open_cancel(&mut self, output: &str, now_ms: u64)
        requires
            now_ms <= u64::MAX - MESSAGE_MS,
        ensures
            final(self).wf(),
            final(self).history == old(self).history,
            final(self).same_but_dialog(*old(self)),
            output@.len() == 0 || starts_with(output@, "Error"@) ==> (final(self).modal matches Some(
                m,
            ) && is_message(m, " Cancel Job "@, "No jobs to cancel"@, MsgStyle::Yellow))
                && final(self).msg_deadline == Some((now_ms + MESSAGE_MS) as u64),
            !(output@.len() == 0 || starts_with(output@, "Error"@)) ==> (final(self).modal matches Some(
                m,
            ) && is_input(m, ModalKind::Cancel, " Cancel Job "@, ":cancel "@) && body_view(
                m.body_lines@,
            ) == seq![("Enter JobID or 'all' (Esc to cancel)"@, BodyStyle::Dim)] + job_rows(
                lines(output@),
            ) && m.hist_index == section(old(self).history@, " Cancel Job "@).len())
                && final(self).msg_deadline == old(self).msg_deadline,
    {
        let v = chars_of(output);
        if v.len() == 0 || starts_with_str(&v, "Error") {
            self.flash_message(" Cancel Job ", "No jobs to cancel", MsgStyle::Yellow, now_ms);
            return;
        }
        let mut body: Vec<(String, BodyStyle)> = Vec::new();
        body.push(
            body_line("Enter JobID or 'all' (Esc to cancel)".to_owned(), BodyStyle::Dim),
        );
        push_job_rows(&mut body, &v);
        self.open_input(ModalKind::Cancel, " Cancel Job ", ":cancel ", body);
    }

    /// Opens the dialog that picks one of the user's recent jobs to read its log,
    /// listing them from a `JOBID|NAME|STATE` listing (newest first); the first job
    /// is chosen. With none (or an error) it says so instead.
    pub fn open_logs(&mut self, recent: &str, now_ms: u64)
        requires
            now_ms <= u64::MAX - MESSAGE_MS,
        ensures
            final(self).wf(),
            final(self).history == old(self).history,
            final(self).same_but_dialog(*old(self)),
            recent@.len() == 0 || starts_with(recent@, "Error"@) ==> (final(self).modal matches Some(
                m,
            ) && is_message(m, " Logs "@, "No recent jobs"@, MsgStyle::Yellow))
                && final(self).msg_deadline == Some((now_ms + MESSAGE_MS) as u64),
            !(recent@.len() == 0 || starts_with(recent@, "Error"@)) ==> (final(self).modal matches Some(
                m,
            ) && is_input(m, ModalKind::Logs, " Logs "@, ""@) && body_view(m.body_lines@) == seq![
                ("Up/Down to choose, Enter to open the log, Esc to cancel"@, BodyStyle::Dim),
            ] + job_rows(lines(recent@)) && m.selection == 1) && final(self).msg_deadline == old(
                self,
            ).msg_deadline,
    {
        let v = chars_of(recent);
        if v.len() == 0 || starts_with_str(&v, "Error") {
            self.flash_message(" Logs ", "No recent jobs", MsgStyle::Yellow, now_ms);
            return;
        }
        let mut body: Vec<(String, BodyStyle)> = Vec::new();
        body.push(
            body_line(
                "Up/Down to choose, Enter to open the log, Esc to cancel".to_owned(),
                BodyStyle::Dim,
            ),
        );
        push_job_rows(&mut body, &v);
        let mut modal = Modal::new(ModalKind::Logs, " Logs ", "").with_body(body);
        modal.selection = 1;
        self.modal = Some(modal);
    }

    /// Takes the outcome of finding a job's log: the file is to be shown, or the
    /// reason it was not found is reported.
    pub fn after_log_lookup(&mut self, found: Result<String, String>, now_ms: u64)
        requires
            now_ms <= u64::MAX - MESSAGE_MS,
        ensures
            final(self).wf(),
            final(self).history == old(self).history,
            match found {
                Ok(p) => final(self).pending_less_path == Some(p) && final(self).modal is None
                    && final(self).msg_deadline is None,
                Err(e) => final(self).pending_less_path == old(self).pending_less_path
                    && (final(self).modal matches Some(m) && is_message(m, " Logs "@, e@, MsgStyle::Red))
                    && final(self).msg_deadline == Some((now_ms + MESSAGE_MS) as u64),
            },
            final(self).palette == old(self).palette,
            final(self).cwd == old(self).cwd,
            final(self).login_node == old(self).login_node,
            final(self).data == old(self).data,
            final(self).max_jobs == old(self).max_jobs,
            final(self).should_quit == old(self).should_quit,
            final(self).users == old(self).users,
    {
        match found {
            Ok(p) => {
                self.modal = None;
                self.msg_deadline = None;
                self.pending_less_path = Some(p);
            },
            Err(e) => {
                self.flash_message(" Logs ", e.as_str(), MsgStyle::Red, now_ms);
            },
        }
    }

    /// Hands over the log file to show, if there is one.
    pub fn take_pending_log(&mut self) -> (r: Option<String>)
        ensures
            r == old(self).pending_less_path,
            final(self).pending_less_path is None,
            final(self).modal == old(self).modal,
            final(self).msg_deadline == old(self).msg_deadline,
            final(self).history == old(self).history,
            final(self).palette == old(self).palette,
            final(self).cwd == old(self).cwd,
            final(self).data == old(self).data,
            final(self).max_jobs == old(self).max_jobs,
            final(self).should_quit == old(self).should_quit,
            final(self).users == old(self).users,
            final(self).wf() == old(self).wf(),
    {
        let mut r: Option<String> = None;
        std::mem::swap(&mut r, &mut self.pending_less_path);
        r
    }

    /// Whether the data is due to be read again: no dialog stands open (a timed
    /// message does not hold it back) and the refresh interval has passed.
    pub fn refresh_due(&self, since_fetch_ms: u64, refresh_ms: u64) -> (b: bool)
        ensures
            b == ((self.modal is None || self.msg_deadline is Some) && since_fetch_ms >= refresh_ms),
    {
        (self.modal.is_none() || self.msg_deadline.is_some()) && since_fetch_ms >= refresh_ms
    }

    /// How long to wait for a key: until the next refresh, but no longer than 100 ms
    /// while a message is timed, and than a second otherwise.
    pub fn key_wait_ms(&self, until_refresh_ms: u64) -> (w: u64)
        ensures
            w == (if self.msg_deadline is Some {
                if until_refresh_ms < 100 {
                    until_refresh_ms
                } else {
                    100
                }
            } else {
                if until_refresh_ms < 1000 {
                    until_refresh_ms
                } else {
                    1000
                }
            }),
    {
        let cap: u64 = if self.msg_deadline.is_some() {
            100
        } else {
            1000
        };
        if until_refresh_ms < cap {
            until_refresh_ms
        } else {
            cap
        }
    }

    /// Closes the dialog.
    pub fn dismiss_modal(&mut self)
        ensures
            final(self).modal is None,
            final(self).msg_deadline is None,
            final(self).wf(),
            final(self).history == old(self).history,
            final(self).same_but_dialog(*old(self)),
    {
        self.modal = None;
        self.msg_deadline = None;
    }

    pub fn has_timed_message(&self) -> (b: bool)
        ensures
            b == self.msg_deadline is Some,
    {
        self.msg_deadline.is_some()
    }

    /// Closes a message whose time is up at `now_ms`; says whether it did.
    pub fn check_message_timeout(&mut self, now_ms: u64) -> (closed: bool)
        requires
            old(self).wf(),
        ensures
            closed == (old(self).msg_deadline matches Some(d) && now_ms >= d),
            closed ==> final(self).modal is None && final(self).msg_deadline is None,
            !closed ==> final(self).modal == old(self).modal && final(self).msg_deadline == old(
                self,
            ).msg_deadline,
            final(self).wf(),
            final(self).history == old(self).history,
            final(self).same_but_dialog(*old(self)),
    {
        if let Some(deadline) = self.msg_deadline {
            if now_ms >= deadline {
                self.dismiss_modal();
                return true;
            }
        }
        false
    }

    /// Takes the submitted dialog's line and says what is to be done with it; the
    /// typed line goes into the dialog's history. Cancelling `all` asks for a
    /// confirmation first; a confirmation other than `y` does nothing. In the log
    /// picker the chosen job's log is asked for; with no job chosen the picker stays.
    pub fn handle_modal_submit(&mut self) -> (r: Action)
        requires
            old(self).wf(),
        ensures
            final(self).wf(),
            final(self).same_but_dialog(*old(self)),
            final(self).msg_deadline == old(self).msg_deadline,
            is_picker(old(self).modal) ==> final(self).history == old(self).history && match selected_job(
                old(self).modal->0,
            ) {
                Some(id) => r matches Action::ShowLog(s) && s@ == id && final(self).modal is None,
                None => r is Nothing && final(self).modal == old(self).modal,
            },
            !is_picker(old(self).modal) && submitted(old(self).modal) is None ==> r is Nothing
                && final(self).modal is None && final(self).history == old(self).history,
            !is_picker(old(self).modal) ==> (submitted(old(self).modal) matches Some(val) ==> {
                let kind = old(self).modal->0.kind;
                match kind {
                    ModalKind::Submit => r matches Action::Submit(s) && s@ == val
                        && final(self).modal is None
                        && final(self).history@ == push_entry(old(self).history@, " Submit Job "@, val),
                    ModalKind::Cancel => if eq_ignore_ascii_case(val, "all"@) {
                        &&& r is Nothing
                        &&& final(self).history == old(self).history
                        &&& final(self).modal matches Some(c) && is_input(
                            c,
                            ModalKind::CancelConfirm,
                            " Cancel Job "@,
                            ":cancel ALL jobs? [y/N] "@,
                        ) && body_view(c.body_lines@) == seq![
                            ("This will cancel every job you own."@, BodyStyle::Red),
                        ] && c.hist_index == 0
                    } else {
                        &&& r matches Action::Cancel(s) && s@ == val
                        &&& final(self).modal is None
                        &&& final(self).history@ == push_entry(old(self).history@, " Cancel Job "@, val)
                    },
                    ModalKind::CancelConfirm => {
                        &&& (eq_ignore_ascii_case(trim(val), "y"@) ==> r is CancelAll)
                        &&& (!eq_ignore_ascii_case(trim(val), "y"@) ==> r is Nothing)
                        &&& final(self).modal is None
                        &&& final(self).history == old(self).history
                    },
                    ModalKind::Chdir => r matches Action::ChangeDir(s) && s@ == val
                        && final(self).modal is None
                        && final(self).history@ == push_entry(
                        old(self).history@,
                        " Change Directory "@,
                        val,
                    ),
                    ModalKind::Logs => true,
                }
            }),
    {
        let mut taken: Option<Modal> = None;
        std::mem::swap(&mut taken, &mut self.modal);
        let modal = match taken {
            Some(m) => m,
            None => return Action::Nothing,
        };
        if modal.kind == ModalKind::Logs {
            if modal.selection < modal.body_lines.len() {
                let line = chars_of(modal.body_lines[modal.selection].0.as_str());
                let ws = words_of(&line);
                if ws.len() > 0 {
                    assert(ws@[0]@ == seqs(ws@)[0]);
                    return Action::ShowLog(string_of(&ws[0]));
                }
            }
            // Nothing to open: the picker stays.
            self.modal = Some(modal);
            return Action::Nothing;
        }
        let val = match modal.submit() {
            Some(v) => v,
            None => return Action::Nothing,
        };
        match modal.kind {
            ModalKind::Submit => {
                self.history.push(" Submit Job ", val.clone());
                Action::Submit(val)
            },
            ModalKind::Cancel => {
                let v = chars_of(val.as_str());
                if eq_ignore_case_str(&v, "all") {
                    let mut body: Vec<(String, BodyStyle)> = Vec::new();
                    body.push(
                        body_line("This will cancel every job you own.".to_owned(), BodyStyle::Red),
                    );
                    let ghost bv = body@;
                    let confirm = Modal::new(
                        ModalKind::CancelConfirm,
                        " Cancel Job ",
                        ":cancel ALL jobs? [y/N] ",
                    ).with_body(body);
                    assert(body_view(bv) =~= seq![
                        ("This will cancel every job you own."@, BodyStyle::Red),
                    ]);
                    self.modal = Some(confirm);
                    return Action::Nothing;
                }
                self.history.push(" Cancel Job ", val.clone());
                Action::Cancel(val)
            },
            ModalKind::CancelConfirm => {
                let v = chars_of(val.as_str());
                let (a, b) = trim_bounds(&v, 0, v.len());
                assert(v@.subrange(0, v@.len() as int) == v@);
                let t = slice_of(&v, a, b);
                if eq_ignore_case_str(&t, "y") {
                    Action::CancelAll
                } else {
                    Action::Nothing
                }
            },
            ModalKind::Chdir => {
                self.history.push(" Change Directory ", val.clone());
                Action::ChangeDir(val)
            },
            ModalKind::Logs => Action::Nothing,
        }
    }

    /// Reports how `sbatch` went: its output, or its error.
    pub fn after_submit(&mut self, ok: bool, stdout: &str, stderr: &str, now_ms: u64)
        requires
            now_ms <= u64::MAX - MESSAGE_MS,
        ensures
            final(self).modal matches Some(m) && is_message(
                m,
                " Submit Job "@,
                if ok {
                    stdout@
                } else {
                    "Error: "@ + stderr@
                },
                if ok {
                    MsgStyle::Green
                } else {
                    MsgStyle::Red
                },
            ),
            final(self).msg_deadline == Some((now_ms + MESSAGE_MS) as u64),
            final(self).wf(),
            final(self).history == old(self).history,
            final(self).same_but_dialog(*old(self)),
    {
        if ok {
            self.flash_message(" Submit Job ", stdout, MsgStyle::Green, now_ms);
        } else {
            let msg = concat_str("Error: ", stderr);
            self.flash_message(" Submit Job ", msg.as_str(), MsgStyle::Red, now_ms);
        }
    }

    /// Reports how `scancel` went.
    pub fn after_cancel(&mut self, ok: bool, stderr: &str, now_ms: u64)
        requires
            now_ms <= u64::MAX - MESSAGE_MS,
        ensures
            final(self).modal matches Some(m) && is_message(
                m,
                " Cancel Job "@,
                if ok {
                    "Job(s) cancelled"@
                } else {
                    "Error: "@ + stderr@
                },
                if ok {
                    MsgStyle::Green
                } else {
                    MsgStyle::Red
                },
            ),
            final(self).msg_deadline == Some((now_ms + MESSAGE_MS) as u64),
            final(self).wf(),
            final(self).history == old(self).history,
            final(self).same_but_dialog(*old(self)),
    {
        if ok {
            self.flash_message(" Cancel Job ", "Job(s) cancelled", MsgStyle::Green, now_ms);
        } else {
            let msg = concat_str("Error: ", stderr);
            self.flash_message(" Cancel Job ", msg.as_str(), MsgStyle::Red, now_ms);
        }
    }

    /// Moves to `dir` when it is a directory (`Some`, as resolved by the caller),
    /// else reports that `shown` is none.
    pub fn after_chdir(&mut self, dir: Option<String>, shown: &str, now_ms: u64)
        requires
            now_ms <= u64::MAX - MESSAGE_MS,
        ensures
            match dir {
                Some(d) => final(self).cwd == d && (final(self).modal matches Some(m) && is_message(
                    m,
                    " Change Directory "@,
                    "cwd: "@ + d@,
                    MsgStyle::Green,
                )),
                None => final(self).cwd == old(self).cwd && (final(self).modal matches Some(m)
                    && is_message(
                    m,
                    " Change Directory "@,
                    "Not a directory: "@ + shown@,
                    MsgStyle::Red,
                )),
            },
            final(self).msg_deadline == Some((now_ms + MESSAGE_MS) as u64),
            final(self).wf(),
            final(self).history == old(self).history,
            final(self).palette == old(self).palette,
            final(self).login_node == old(self).login_node,
            final(self).data == old(self).data,
            final(self).max_jobs == old(self).max_jobs,
            final(self).should_quit == old(self).should_quit,
            final(self).users == old(self).users,
    {
        match dir {
            Some(d) => {
                self.cwd = d;
                let msg = concat_str("cwd: ", self.cwd.as_str());
                self.flash_message(" Change Directory ", msg.as_str(), MsgStyle::Green, now_ms);
            },
            None => {
                let msg = concat_str("Not a directory: ", shown);
                self.flash_message(" Change Directory ", msg.as_str(), MsgStyle::Red, now_ms);
            },
        }
    }

    /// Shows the previous entry of the dialog's history; leaving the newest slot
    /// keeps what was typed there.
    pub fn history_up(&mut self)
        requires
            old(self).wf(),
        ensures
            final(self).wf(),
            final(self).history == old(self).history,
            final(self).msg_deadline == old(self).msg_deadline,
            final(self).same_but_dialog(*old(self)),
            match old(self).modal {
                None => final(self).modal is None,
                Some(m) => final(self).modal matches Some(n) && n.same_completion(m) && {
                    let st = up_step(
                        (m.buf@, m.saved_buf@, m.hist_index as int),
                        section(old(self).history@, m.title@),
                    );
                    &&& n.buf@ == st.0
                    &&& n.saved_buf@ == st.1
                    &&& n.hist_index == st.2
                    &&& (st.2 == m.hist_index ==> n.buf == m.buf && n.cursor == m.cursor
                        && n.saved_buf == m.saved_buf)
                    &&& (st.2 != m.hist_index ==> n.cursor == byte_len(n.buf@))
                    &&& n.kind == m.kind && n.title == m.title && n.prompt == m.prompt
                    &&& n.body_lines == m.body_lines && n.message == m.message
                    &&& n.selection == m.selection
                },
            },
    {
        let mut taken: Option<Modal> = None;
        std::mem::swap(&mut taken, &mut self.modal);
        match taken {
            None => {},
            Some(mut modal) => {
                let hist = self.history.get(modal.title.as_str());
                let ghost hv = strings_of(hist@);
                if hist.len() == 0 || modal.hist_index == 0 {
                    self.modal = Some(modal);
                    return;
                }
                if modal.hist_index == hist.len() {
                    modal.saved_buf = modal.buf.clone();
                }
                modal.hist_index = modal.hist_index - 1;
                modal.buf = hist[modal.hist_index].clone();
                assert(modal.buf@ == hv[modal.hist_index as int]);
                modal.cursor = str_bytes(modal.buf.as_str());
                proof {
                    lemma_char_pos(modal.buf@, modal.buf@.len() as int);
                    assert(modal.buf@.take(modal.buf@.len() as int) == modal.buf@);
                }
                self.modal = Some(modal);
            },
        }
    }

    /// Shows the next entry of the dialog's history; past the newest one, what was
    /// typed before going up.
    pub fn history_down(&mut self)
        requires
            old(self).wf(),
        ensures
            final(self).wf(),
            final(self).history == old(self).history,
            final(self).msg_deadline == old(self).msg_deadline,
            final(self).same_but_dialog(*old(self)),
            match old(self).modal {
                None => final(self).modal is None,
                Some(m) => final(self).modal matches Some(n) && n.same_completion(m) && {
                    let st = down_step(
                        (m.buf@, m.saved_buf@, m.hist_index as int),
                        section(old(self).history@, m.title@),
                    );
                    &&& n.buf@ == st.0
                    &&& n.saved_buf == m.saved_buf
                    &&& n.hist_index == st.2
                    &&& (st.2 == m.hist_index ==> n.buf == m.buf && n.cursor == m.cursor)
                    &&& (st.2 != m.hist_index ==> n.cursor == byte_len(n.buf@))
                    &&& n.kind == m.kind && n.title == m.title && n.prompt == m.prompt
                    &&& n.body_lines == m.body_lines && n.message == m.message
                    &&& n.selection == m.selection
                },
            },
    {
        let mut taken: Option<Modal> = None;
        std::mem::swap(&mut taken, &mut self.modal);
        match taken {
            None => {},
            Some(mut modal) => {
                let hist = self.history.get(modal.title.as_str());
                let ghost hv = strings_of(hist@);
                if modal.hist_index >= hist.len() {
                    self.modal = Some(modal);
                    return;
                }
                modal.hist_index = modal.hist_index + 1;
                if modal.hist_index < hist.len() {
                    modal.buf = hist[modal.hist_index].clone();
                    assert(modal.buf@ == hv[modal.hist_index as int]);
                } else {
                    modal.buf = modal.saved_buf.clone();
                }
                modal.cursor = str_bytes(modal.buf.as_str());
                proof {
                    lemma_char_pos(modal.buf@, modal.buf@.len() as int);
                    assert(modal.buf@.take(modal.buf@.len() as int) == modal.buf@);
                }
                self.modal = Some(modal);
            },
        }
    }
}

} // verus!
