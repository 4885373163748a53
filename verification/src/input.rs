//! The modal dialog: a one-line editor with a byte cursor, path completion and
//! history slots.
use vstd::prelude::*;
use crate::text::{
    byte_len, char_pos, char_pos_exec, char_width, chars_of, extend_range, first_pos, find_char,
    is_boundary, is_white, lemma_byte_len_concat, lemma_byte_len_one, lemma_byte_len_prefix,
    lemma_char_pos, lemma_trim_end_take, prefix_bytes, slice_of, str_bytes, string_of, trim,
    trim_bounds, trim_end, char_is_white,
};

verus! {

broadcast use vstd::string::group_string_axioms;

/// What the dialog is for.
#[derive(Clone, Copy, PartialEq, Eq, Structural, Debug)]
pub enum ModalKind {
    Submit,
    Cancel,
    CancelConfirm,
    Chdir,
    /// Picks one of the user's recent jobs to read its log.
    Logs,
}

/// The color role of a body line.
#[derive(Clone, Copy, PartialEq, Eq, Structural, Debug)]
pub enum BodyStyle {
    Gray,
    Dim,
    Blue,
    Yellow,
    Fg,
    Red,
}

/// The color role of a message.
#[derive(Clone, Copy, PartialEq, Eq, Structural, Debug)]
pub enum MsgStyle {
    Green,
    Red,
    Yellow,
    Gray,
}

/// The current modal dialog: body lines and either a message or an input line.
pub struct Modal {
    pub kind: ModalKind,
    pub title: String,
    pub prompt: String,
    pub buf: String,
    /// A byte offset into `buf`, between two characters.
    pub cursor: usize,
    pub body_lines: Vec<(String, BodyStyle)>,
    pub message: Option<(String, MsgStyle)>,
    /// Tab completion state
    pub completions: Vec<String>,
    pub comp_index: isize,
    pub comp_prefix: String,
    pub comp_suffix: String,
    /// History navigation
    pub hist_index: usize,
    pub saved_buf: String,
    /// The chosen body line, in a dialog that picks one.
    pub selection: usize,
}

/// Index after the last space of `t`, or 0.
pub open spec fn after_last_space(t: Seq<char>) -> int
    decreases t.len(),
{
    if t.len() == 0 {
        0
    } else if t.last() == ' ' {
        t.len() as int
    } else {
        after_last_space(t.drop_last())
    }
}

/// Index after the last space or `/` of `t`, or 0.
pub open spec fn after_last_sep(t: Seq<char>) -> int
    decreases t.len(),
{
    if t.len() == 0 {
        0
    } else if t.last() == ' ' || t.last() == '/' {
        t.len() as int
    } else {
        after_last_sep(t.drop_last())
    }
}

proof fn lemma_after_last_space_bound(t: Seq<char>)
    ensures
        0 <= after_last_space(t) <= t.len(),
    decreases t.len(),
{
    if t.len() > 0 {
        lemma_after_last_space_bound(t.drop_last());
    }
}

proof fn lemma_after_last_sep_bound(t: Seq<char>)
    ensures
        0 <= after_last_sep(t) <= t.len(),
    decreases t.len(),
{
    if t.len() > 0 {
        lemma_after_last_sep_bound(t.drop_last());
    }
}

proof fn lemma_trim_end_prefix(s: Seq<char>)
    ensures
        trim_end(s).len() <= s.len(),
        trim_end(s) == s.take(trim_end(s).len() as int),
    decreases s.len(),
{
    if s.len() > 0 && is_white(s.last()) {
        lemma_trim_end_prefix(s.drop_last());
        assert(s.drop_last().take(trim_end(s).len() as int) == s.take(trim_end(s).len() as int));
    } else {
        assert(s.take(s.len() as int) == s);
    }
}

/// `s` with `ch` put before its `k`-th character.
pub open spec fn insert_at(s: Seq<char>, k: int, ch: char) -> Seq<char> {
    s.take(k) + seq![ch] + s.skip(k)
}

/// `s` without the character before position `k`.
pub open spec fn remove_before(s: Seq<char>, k: int) -> Seq<char> {
    s.take(k - 1) + s.skip(k)
}

/// `s` without the character at position `k`.
pub open spec fn remove_at(s: Seq<char>, k: int) -> Seq<char> {
    s.take(k) + s.skip(k + 1)
}

/// The line that selecting completion `c` gives: what stood before and after the
/// completed word, around `c`.
pub open spec fn completed_line(prefix: Seq<char>, c: Seq<char>, suffix: Seq<char>) -> Seq<char> {
    prefix + c + suffix
}

impl Modal {
    /// The cursor stands between characters of `buf`, and a completion is selected
    /// whenever there are completions.
    pub open spec fn wf(&self) -> bool {
        &&& is_boundary(self.buf@, self.cursor as int)
        &&& self.completions.len() > 0 ==> 0 <= self.comp_index < self.completions.len()
        &&& self.completions.len() <= isize::MAX
    }

    /// How many characters precede the cursor.
    pub open spec fn pos(&self) -> int {
        char_pos(self.buf@, self.cursor as int)
    }

    /// Everything but the input line and the completions is as in `o`.
    pub open spec fn same_frame(&self, o: Modal) -> bool {
        &&& self.kind == o.kind
        &&& self.title == o.title
        &&& self.prompt == o.prompt
        &&& self.body_lines == o.body_lines
        &&& self.message == o.message
        &&& self.hist_index == o.hist_index
        &&& self.saved_buf == o.saved_buf
        &&& self.selection == o.selection
    }

    /// The completion state is as in `o`.
    pub open spec fn same_completion(&self, o: Modal) -> bool {
        &&& self.completions == o.completions
        &&& self.comp_index == o.comp_index
        &&& self.comp_prefix == o.comp_prefix
        &&& self.comp_suffix == o.comp_suffix
    }

    /// The completions are dropped (what they replaced is kept).
    pub open spec fn completions_cleared(&self, o: Modal) -> bool {
        &&& self.completions@.len() == 0
        &&& self.comp_index == -1
        &&& self.comp_prefix == o.comp_prefix
        &&& self.comp_suffix == o.comp_suffix
    }

    pub fn new(kind: ModalKind, title: &str, prompt: &str) -> (m: Modal)
        ensures
            m.wf(),
            m.kind == kind,
            m.title@ == title@,
            m.prompt@ == prompt@,
            m.buf@.len() == 0,
            m.cursor == 0,
            m.body_lines@.len() == 0,
            m.message is None,
            m.completions@.len() == 0,
            m.comp_index == -1,
            m.comp_prefix@.len() == 0,
            m.comp_suffix@.len() == 0,
            m.hist_index == 0,
            m.saved_buf@.len() == 0,
            m.selection == 0,
    {
        let m = Modal {
            kind,
            title: title.to_owned(),
            prompt: prompt.to_owned(),
            buf: String::new(),
            cursor: 0,
            body_lines: Vec::new(),
            message: None,
            completions: Vec::new(),
            comp_index: -1,
            comp_prefix: String::new(),
            comp_suffix: String::new(),
            hist_index: 0,
            saved_buf: String::new(),
            selection: 0,
        };
        proof {
            lemma_char_pos(m.buf@, 0);
            assert(m.buf@.take(0) == m.buf@);
        }
        m
    }

    pub fn with_body(self, lines: Vec<(String, BodyStyle)>) -> (m: Modal)
        ensures
            m.body_lines == lines,
            m.kind == self.kind,
            m.title == self.title,
            m.prompt == self.prompt,
            m.buf == self.buf,
            m.cursor == self.cursor,
            m.message == self.message,
            m.same_completion(self),
            m.hist_index == self.hist_index,
            m.saved_buf == self.saved_buf,
            m.selection == self.selection,
    {
        let mut m = self;
        m.body_lines = lines;
        m
    }

    pub fn set_message(&mut self, msg: String, style: MsgStyle)
        ensures
            final(self).message == Some((msg, style)),
            final(self).kind == old(self).kind,
            final(self).title == old(self).title,
            final(self).prompt == old(self).prompt,
            final(self).buf == old(self).buf,
            final(self).cursor == old(self).cursor,
            final(self).body_lines == old(self).body_lines,
            final(self).same_completion(*old(self)),
            final(self).hist_index == old(self).hist_index,
            final(self).saved_buf == old(self).saved_buf,
            final(self).selection == old(self).selection,
    {
        self.message = Some((msg, style));
    }

    pub fn clear_completions(&mut self)
        ensures
            final(self).completions_cleared(*old(self)),
            final(self).same_frame(*old(self)),
            final(self).buf == old(self).buf,
            final(self).cursor == old(self).cursor,
    {
        self.completions = Vec::new();
        self.comp_index = -1;
    }

    /// Sets the input line and cursor, dropping the completions.
    fn set_line(&mut self, v: &Vec<char>, k: usize)
        requires
            k <= v.len(),
        ensures
            final(self).buf@ == v@,
            final(self).cursor == byte_len(v@.take(k as int)),
            final(self).pos() == k,
            final(self).wf(),
            final(self).completions_cleared(*old(self)),
            final(self).same_frame(*old(self)),
    {
        let nb = string_of(v);
        // A string's length in bytes fits a usize.
        let _total = str_bytes(nb.as_str());
        proof {
            lemma_byte_len_prefix(v@, k as int, k as int);
            assert(v@.take(v.len() as int) == v@);
        }
        let c = prefix_bytes(v, k);
        self.buf = nb;
        self.cursor = c;
        self.clear_completions();
        proof {
            lemma_char_pos(v@, k as int);
        }
    }

    /// Inserts `ch` at the cursor and moves the cursor past it.
    pub fn insert_char(&mut self, ch: char)
        requires
            old(self).wf(),
        ensures
            final(self).wf(),
            final(self).buf@ == insert_at(old(self).buf@, old(self).pos(), ch),
            final(self).cursor == old(self).cursor + char_width(ch),
            final(self).pos() == old(self).pos() + 1,
            final(self).completions_cleared(*old(self)),
            final(self).same_frame(*old(self)),
    {
        let v = chars_of(self.buf.as_str());
        let k = char_pos_exec(&v, self.cursor);
        let mut nv = slice_of(&v, 0, k);
        nv.push(ch);
        extend_range(&mut nv, &v, k, v.len());
        proof {
            assert(v@.subrange(0, k as int) == v@.take(k as int));
            assert(v@.subrange(k as int, v.len() as int) == v@.skip(k as int));
            assert(nv@.take(k + 1) == v@.take(k as int) + seq![ch]);
            lemma_byte_len_concat(v@.take(k as int), seq![ch]);
            lemma_byte_len_one(ch);
        }
        self.set_line(&nv, k + 1);
    }

    /// Deletes the character before the cursor.
    pub fn backspace(&mut self)
        requires
            old(self).wf(),
        ensures
            final(self).wf(),
            old(self).cursor == 0 ==> *final(self) == *old(self),
            old(self).cursor > 0 ==> {
                &&& final(self).buf@ == remove_before(old(self).buf@, old(self).pos())
                &&& final(self).pos() == old(self).pos() - 1
                &&& final(self).cursor == byte_len(old(self).buf@.take(old(self).pos() - 1))
                &&& final(self).completions_cleared(*old(self))
                &&& final(self).same_frame(*old(self))
            },
    {
        if self.cursor > 0 {
            let v = chars_of(self.buf.as_str());
            let k = char_pos_exec(&v, self.cursor);
            assert(k > 0) by {
                if k == 0 {
                    assert(v@.take(0) == Seq::<char>::empty());
                }
            }
            let mut nv = slice_of(&v, 0, k - 1);
            extend_range(&mut nv, &v, k, v.len());
            proof {
                assert(v@.subrange(0, k - 1) == v@.take(k - 1));
                assert(v@.subrange(k as int, v.len() as int) == v@.skip(k as int));
                assert(nv@.take(k - 1) == v@.take(k - 1));
            }
            self.set_line(&nv, k - 1);
        }
    }

    /// Deletes the character at the cursor.
    pub fn delete_char(&mut self)
        requires
            old(self).wf(),
        ensures
            final(self).wf(),
            old(self).pos() == old(self).buf@.len() ==> *final(self) == *old(self),
            old(self).pos() < old(self).buf@.len() ==> {
                &&& final(self).buf@ == remove_at(old(self).buf@, old(self).pos())
                &&& final(self).cursor == old(self).cursor
                &&& final(self).completions_cleared(*old(self))
                &&& final(self).same_frame(*old(self))
            },
    {
        let len = str_bytes(self.buf.as_str());
        if self.cursor < len {
            let v = chars_of(self.buf.as_str());
            let k = char_pos_exec(&v, self.cursor);
            assert(k < v.len()) by {
                if k == v.len() {
                    assert(v@.take(k as int) == v@);
                }
            }
            let mut nv = slice_of(&v, 0, k);
            extend_range(&mut nv, &v, k + 1, v.len());
            proof {
                assert(v@.subrange(0, k as int) == v@.take(k as int));
                assert(v@.subrange(k + 1, v.len() as int) == v@.skip(k + 1));
                assert(nv@.take(k as int) == v@.take(k as int));
            }
            self.set_line(&nv, k);
        } else {
            proof {
                let k = self.pos();
                lemma_char_pos(self.buf@, self.buf@.len() as int);
                assert(self.buf@.take(self.buf@.len() as int) == self.buf@);
                if k < self.buf@.len() {
                    lemma_byte_len_prefix(self.buf@, k + 1, self.buf@.len() as int);
                    lemma_byte_len_prefix(self.buf@, k, k + 1);
                }
            }
        }
    }

    /// Moves the cursor one character left.
    pub fn move_left(&mut self)
        requires
            old(self).wf(),
        ensures
            final(self).wf(),
            final(self).buf == old(self).buf,
            final(self).same_frame(*old(self)),
            final(self).same_completion(*old(self)),
            old(self).cursor == 0 ==> final(self).cursor == 0,
            old(self).cursor > 0 ==> final(self).pos() == old(self).pos() - 1,
            final(self).cursor == byte_len(final(self).buf@.take(final(self).pos())),
    {
        let v = chars_of(self.buf.as_str());
        let k = char_pos_exec(&v, self.cursor);
        // A string's length in bytes fits a usize.
        let _total = str_bytes(self.buf.as_str());
        if self.cursor > 0 {
            assert(k > 0) by {
                if k == 0 {
                    assert(v@.take(0) == Seq::<char>::empty());
                }
            }
            let c = prefix_bytes(&v, k - 1);
            self.cursor = c;
            proof {
                lemma_char_pos(v@, k - 1);
            }
        } else {
            proof {
                lemma_char_pos(v@, k as int);
            }
        }
    }

    /// Moves the cursor one character right.
    pub fn move_right(&mut self)
        requires
            old(self).wf(),
        ensures
            final(self).wf(),
            final(self).buf == old(self).buf,
            final(self).same_frame(*old(self)),
            final(self).same_completion(*old(self)),
            old(self).pos() == old(self).buf@.len() ==> final(self).cursor == old(self).cursor,
            old(self).pos() < old(self).buf@.len() ==> final(self).pos() == old(self).pos() + 1,
            final(self).cursor == byte_len(final(self).buf@.take(final(self).pos())),
    {
        let v = chars_of(self.buf.as_str());
        let k = char_pos_exec(&v, self.cursor);
        let len = str_bytes(self.buf.as_str());
        proof {
            lemma_char_pos(v@, k as int);
            assert(v@.take(v.len() as int) == v@);
        }
        if self.cursor < len {
            assert(k < v.len()) by {
                if k == v.len() {
                    assert(v@.take(k as int) == v@);
                }
            }
            let c = prefix_bytes(&v, k + 1);
            self.cursor = c;
            proof {
                lemma_char_pos(v@, k + 1);
            }
        } else {
            proof {
                if k < v.len() {
                    lemma_byte_len_prefix(v@, k + 1, v.len() as int);
                    lemma_byte_len_prefix(v@, k as int, k + 1);
                }
            }
        }
    }

    /// Moves the cursor to the start of the line.
    pub fn home(&mut self)
        requires
            old(self).wf(),
        ensures
            final(self).wf(),
            final(self).cursor == 0,
            final(self).pos() == 0,
            final(self).buf == old(self).buf,
            final(self).same_frame(*old(self)),
            final(self).same_completion(*old(self)),
    {
        self.cursor = 0;
        proof {
            lemma_char_pos(self.buf@, 0);
            assert(self.buf@.take(0) == Seq::<char>::empty());
        }
    }

    /// Moves the cursor to the end of the line.
    pub fn end(&mut self)
        requires
            old(self).wf(),
        ensures
            final(self).wf(),
            final(self).cursor == byte_len(old(self).buf@),
            final(self).pos() == old(self).buf@.len(),
            final(self).buf == old(self).buf,
            final(self).same_frame(*old(self)),
            final(self).same_completion(*old(self)),
    {
        self.cursor = str_bytes(self.buf.as_str());
        proof {
            lemma_char_pos(self.buf@, self.buf@.len() as int);
            assert(self.buf@.take(self.buf@.len() as int) == self.buf@);
        }
    }

    /// Deletes everything from the cursor on.
    pub fn kill_to_end(&mut self)
        requires
            old(self).wf(),
        ensures
            final(self).wf(),
            final(self).buf@ == old(self).buf@.take(old(self).pos()),
            final(self).cursor == old(self).cursor,
            final(self).completions_cleared(*old(self)),
            final(self).same_frame(*old(self)),
    {
        let v = chars_of(self.buf.as_str());
        let k = char_pos_exec(&v, self.cursor);
        let nv = slice_of(&v, 0, k);
        proof {
            assert(nv@.take(k as int) == v@.take(k as int));
        }
        self.set_line(&nv, k);
    }

    /// Deletes everything before the cursor.
    pub fn kill_to_start(&mut self)
        requires
            old(self).wf(),
        ensures
            final(self).wf(),
            final(self).buf@ == old(self).buf@.skip(old(self).pos()),
            final(self).cursor == 0,
            final(self).completions_cleared(*old(self)),
            final(self).same_frame(*old(self)),
    {
        let v = chars_of(self.buf.as_str());
        let k = char_pos_exec(&v, self.cursor);
        let nv = slice_of(&v, k, v.len());
        proof {
            assert(nv@.take(0) == Seq::<char>::empty());
        }
        self.set_line(&nv, 0);
    }

    /// Where the word before the cursor starts: after the last space or `/` of the
    /// text before the cursor with its trailing white space dropped.
    pub open spec fn word_back(&self) -> int {
        after_last_sep(trim_end(self.buf@.take(self.pos())))
    }

    /// Deletes the word before the cursor (and the white space after it).
    pub fn kill_word(&mut self)
        requires
            old(self).wf(),
        ensures
            final(self).wf(),
            0 <= old(self).word_back() <= old(self).pos(),
            final(self).buf@ == old(self).buf@.take(old(self).word_back()) + old(self).buf@.skip(
                old(self).pos(),
            ),
            final(self).pos() == old(self).word_back(),
            final(self).cursor == byte_len(old(self).buf@.take(old(self).word_back())),
            final(self).completions_cleared(*old(self)),
            final(self).same_frame(*old(self)),
    {
        let v = chars_of(self.buf.as_str());
        let k = char_pos_exec(&v, self.cursor);
        let ghost left = v@.take(k as int);
        let mut e = k;
        while e > 0 && char_is_white(v[e - 1])
            invariant
                e <= k <= v.len(),
                forall|x: int| e <= x < k ==> is_white(#[trigger] v@[x]),
            decreases e,
        {
            e = e - 1;
        }
        proof {
            assert forall|x: int| e <= x < left.len() implies is_white(#[trigger] left[x]) by {
                assert(left[x] == v@[x]);
            }
            lemma_trim_end_take(left, e as int);
            assert(left.take(e as int) == v@.take(e as int));
            assert(trim_end(v@.take(e as int)) == v@.take(e as int)) by {
                if e > 0 {
                    assert(v@.take(e as int).last() == v@[e - 1]);
                }
            }
        }
        let mut j = e;
        while j > 0 && v[j - 1] != ' ' && v[j - 1] != '/'
            invariant
                j <= e <= v.len(),
                after_last_sep(v@.take(e as int)) == after_last_sep(v@.take(j as int)),
            decreases j,
        {
            assert(v@.take(j as int).drop_last() == v@.take(j - 1));
            assert(v@.take(j as int).last() == v@[j - 1]);
            j = j - 1;
        }
        proof {
            if j > 0 {
                assert(v@.take(j as int).last() == v@[j - 1]);
            }
            assert(after_last_sep(v@.take(j as int)) == j);
        }
        let mut nv = slice_of(&v, 0, j);
        extend_range(&mut nv, &v, k, v.len());
        proof {
            assert(v@.subrange(0, j as int) == v@.take(j as int));
            assert(v@.subrange(k as int, v.len() as int) == v@.skip(k as int));
            assert(nv@.take(j as int) == v@.take(j as int));
        }
        self.set_line(&nv, j);
    }


    /// Where the word around the cursor starts: after the last space before the cursor.
    pub open spec fn word_start(&self) -> int {
        after_last_space(self.buf@.take(self.pos()))
    }

    /// Where the word around the cursor ends: at the first space after the cursor.
    pub open spec fn word_end(&self) -> int {
        self.pos() + first_pos(self.buf@.skip(self.pos()), ' ')
    }

    fn word_bounds(&self, v: &Vec<char>) -> (r: (usize, usize, usize))
        requires
            self.wf(),
            v@ == self.buf@,
        ensures
            r.0 == self.word_start(),
            r.1 == self.word_end(),
            r.2 == self.pos(),
            r.0 <= r.2 <= r.1 <= v.len(),
    {
        let k = char_pos_exec(v, self.cursor);
        let mut j = k;
        while j > 0 && v[j - 1] != ' '
            invariant
                j <= k <= v.len(),
                after_last_space(v@.take(k as int)) == after_last_space(v@.take(j as int)),
            decreases j,
        {
            assert(v@.take(j as int).drop_last() == v@.take(j - 1));
            assert(v@.take(j as int).last() == v@[j - 1]);
            j = j - 1;
        }
        proof {
            if j > 0 {
                assert(v@.take(j as int).last() == v@[j - 1]);
            }
            assert(after_last_space(v@.take(j as int)) == j);
        }
        let rest = slice_of(v, k, v.len());
        let off = find_char(&rest, ' ');
        assert(rest@ == v@.skip(k as int));
        (j, k + off, k)
    }

    /// The word around the cursor, which Tab completes.
    pub fn completion_word(&self) -> (w: String)
        requires
            self.wf(),
        ensures
            w@ == self.buf@.subrange(self.word_start(), self.word_end()),
    {
        let v = chars_of(self.buf.as_str());
        let (a, b, _) = self.word_bounds(&v);
        crate::text::string_of_range(&v, a, b)
    }

    /// Shows completion `idx` in the input line, the cursor just after it.
    fn show_completion(&mut self, idx: usize)
        requires
            old(self).wf(),
            idx < old(self).completions.len(),
        ensures
            final(self).wf(),
            final(self).buf@ == completed_line(
                old(self).comp_prefix@,
                old(self).completions@[idx as int]@,
                old(self).comp_suffix@,
            ),
            final(self).cursor == byte_len(
                old(self).comp_prefix@ + old(self).completions@[idx as int]@,
            ),
            final(self).same_frame(*old(self)),
            final(self).same_completion(*old(self)),
    {
        let mut nv = chars_of(self.comp_prefix.as_str());
        let c = chars_of(self.completions[idx].as_str());
        extend_range(&mut nv, &c, 0, c.len());
        let k = nv.len();
        let sfx = chars_of(self.comp_suffix.as_str());
        extend_range(&mut nv, &sfx, 0, sfx.len());
        proof {
            assert(c@.subrange(0, c@.len() as int) == c@);
            assert(sfx@.subrange(0, sfx@.len() as int) == sfx@);
            assert(nv@.take(k as int) == self.comp_prefix@ + self.completions@[idx as int]@);
        }
        let nb = string_of(&nv);
        // A string's length in bytes fits a usize.
        let _total = str_bytes(nb.as_str());
        proof {
            lemma_byte_len_prefix(nv@, k as int, k as int);
            assert(nv@.take(nv.len() as int) == nv@);
        }
        let cur = prefix_bytes(&nv, k);
        self.buf = nb;
        self.cursor = cur;
        proof {
            lemma_char_pos(nv@, k as int);
        }
    }

    /// Selects the next (`forward`) or previous completion, cyclically, and shows it.
    pub fn step_completion(&mut self, forward: bool)
        requires
            old(self).wf(),
            old(self).completions.len() > 0,
        ensures
            final(self).wf(),
            final(self).comp_index == (if forward {
                (old(self).comp_index + 1) % (old(self).completions.len() as int)
            } else {
                (old(self).comp_index + old(self).completions.len() - 1) % (
                old(self).completions.len() as int)
            }),
            final(self).buf@ == completed_line(
                old(self).comp_prefix@,
                old(self).completions@[final(self).comp_index as int]@,
                old(self).comp_suffix@,
            ),
            final(self).cursor == byte_len(
                old(self).comp_prefix@ + old(self).completions@[final(self).comp_index as int]@,
            ),
            final(self).completions == old(self).completions,
            final(self).comp_prefix == old(self).comp_prefix,
            final(self).comp_suffix == old(self).comp_suffix,
            final(self).same_frame(*old(self)),
    {
        let len = self.completions.len();
        let cur = self.comp_index as usize;
        let next = if forward {
            (cur + 1) % len
        } else {
            (cur + len - 1) % len
        };
        self.show_completion(next);
        self.comp_index = next as isize;
    }
}

/// Tab in the dialog. Without completions on show, the word around the cursor is
/// completed: what stands before and after it is kept aside, `candidates` (the
/// completions of `completion_word()`) become the completions, and the first is
/// shown. With completions on show, the next one is shown and `candidates` is unused.
pub fn handle_tab(modal: &mut Modal, candidates: Vec<String>)
    requires
        old(modal).wf(),
        candidates.len() <= isize::MAX,
    ensures
        final(modal).wf(),
        final(modal).same_frame(*old(modal)),
        old(modal).completions.len() > 0 ==> {
            &&& final(modal).comp_index == tab_step(
                old(modal).comp_index as int,
                old(modal).completions.len() as int,
            )
            &&& (final(modal).comp_index as int, final(modal).buf@, final(modal).cursor as nat)
                == tab_shown(
                old(modal).comp_prefix@,
                crate::history::strings_of(old(modal).completions@),
                old(modal).comp_suffix@,
                final(modal).comp_index as int,
            )
            &&& final(modal).completions == old(modal).completions
            &&& final(modal).comp_prefix == old(modal).comp_prefix
            &&& final(modal).comp_suffix == old(modal).comp_suffix
            &&& final(modal).buf@ == completed_line(
                old(modal).comp_prefix@,
                old(modal).completions@[final(modal).comp_index as int]@,
                old(modal).comp_suffix@,
            )
            &&& final(modal).cursor == byte_len(
                old(modal).comp_prefix@ + old(modal).completions@[final(modal).comp_index as int]@,
            )
        },
        old(modal).completions.len() == 0 ==> {
            &&& final(modal).comp_prefix@ == old(modal).buf@.take(old(modal).word_start())
            &&& final(modal).comp_suffix@ == old(modal).buf@.skip(old(modal).word_end())
            &&& final(modal).completions == candidates
            &&& candidates.len() == 0 ==> final(modal).buf == old(modal).buf && final(modal).cursor
                == old(modal).cursor && final(modal).comp_index == old(modal).comp_index
            &&& candidates.len() > 0 ==> {
                &&& final(modal).comp_index == 0
                &&& final(modal).buf@ == completed_line(
                    final(modal).comp_prefix@,
                    candidates@[0]@,
                    final(modal).comp_suffix@,
                )
                &&& final(modal).cursor == byte_len(final(modal).comp_prefix@ + candidates@[0]@)
            }
        },
{
    if modal.completions.len() == 0 {
        let v = chars_of(modal.buf.as_str());
        let (a, b, _) = modal.word_bounds(&v);
        modal.comp_prefix = crate::text::string_of_range(&v, 0, a);
        modal.comp_suffix = crate::text::string_of_range(&v, b, v.len());
        proof {
            assert(v@.subrange(0, a as int) == v@.take(a as int));
            assert(v@.subrange(b as int, v.len() as int) == v@.skip(b as int));
        }
        let n = candidates.len();
        modal.completions = candidates;
        if n > 0 {
            modal.comp_index = 0;
            modal.show_completion(0);
        }
    } else {
        modal.step_completion(true);
    }
}

impl Modal {
    /// Moves the selection one line up, not above the first line after the hint.
    pub fn select_up(&mut self)
        ensures
            final(self).selection == (if old(self).selection > 1 {
                old(self).selection - 1
            } else {
                old(self).selection as int
            }),
            final(self).buf == old(self).buf,
            final(self).cursor == old(self).cursor,
            final(self).kind == old(self).kind,
            final(self).title == old(self).title,
            final(self).prompt == old(self).prompt,
            final(self).body_lines == old(self).body_lines,
            final(self).message == old(self).message,
            final(self).hist_index == old(self).hist_index,
            final(self).saved_buf == old(self).saved_buf,
            final(self).same_completion(*old(self)),
    {
        if self.selection > 1 {
            self.selection = self.selection - 1;
        }
    }

    /// Moves the selection one line down, not past the last body line.
    pub fn select_down(&mut self)
        ensures
            final(self).selection == (if old(self).selection + 1 < old(self).body_lines.len() {
                old(self).selection + 1
            } else {
                old(self).selection as int
            }),
            final(self).buf == old(self).buf,
            final(self).cursor == old(self).cursor,
            final(self).kind == old(self).kind,
            final(self).title == old(self).title,
            final(self).prompt == old(self).prompt,
            final(self).body_lines == old(self).body_lines,
            final(self).message == old(self).message,
            final(self).hist_index == old(self).hist_index,
            final(self).saved_buf == old(self).saved_buf,
            final(self).same_completion(*old(self)),
    {
        let max = if self.body_lines.len() >= 1 {
            self.body_lines.len() - 1
        } else {
            0
        };
        if self.selection < max {
            self.selection = self.selection + 1;
        }
    }

    /// The trimmed input line, unless it is empty.
    pub fn submit(&self) -> (r: Option<String>)
        ensures
            match r {
                Some(s) => s@ == trim(self.buf@) && s@.len() > 0,
                None => trim(self.buf@).len() == 0,
            },
    {
        let v = chars_of(self.buf.as_str());
        let (a, b) = trim_bounds(&v, 0, v.len());
        assert(v@.subrange(0, v@.len() as int) == v@);
        if a == b {
            None
        } else {
            Some(crate::text::string_of_range(&v, a, b))
        }
    }
}


// ───────────────────────── laws of the line editor ─────────────────────────

/// Typing a character and then deleting it with Backspace gives back the line, and
/// the cursor comes back to the same place.
pub proof fn law_insert_then_backspace(s: Seq<char>, k: int, ch: char)
    requires
        0 <= k <= s.len(),
    ensures
        remove_before(insert_at(s, k, ch), k + 1) == s,
        insert_at(s, k, ch).take(k) == s.take(k),
{
    let t = insert_at(s, k, ch);
    assert(t.take(k) == s.take(k));
    assert(t.skip(k + 1) == s.skip(k));
    assert(s.take(k) + s.skip(k) == s);
}

/// Delete after moving one character left does what Backspace does.
pub proof fn law_left_then_delete_is_backspace(s: Seq<char>, k: int)
    requires
        0 < k <= s.len(),
    ensures
        remove_at(s, k - 1) == remove_before(s, k),
{
}

/// Moving left and then right from a cursor that is not at the start brings it back.
pub proof fn law_left_then_right(s: Seq<char>, k: int)
    requires
        0 < k <= s.len(),
    ensures
        k - 1 < s.len(),
        byte_len(s.take((k - 1) + 1)) == byte_len(s.take(k)),
{
}

/// Deleting to the end and then to the start leaves an empty line.
pub proof fn law_kill_both_ways(s: Seq<char>, k: int)
    requires
        0 <= k <= s.len(),
    ensures
        s.take(k).skip(k) == Seq::<char>::empty(),
{
    assert(s.take(k).skip(k) =~= Seq::<char>::empty());
}

/// With completions on show, `step_completion(true)` and then `step_completion(false)`
/// come back to the same completion: the second undoes the index change of the first.
pub proof fn law_completion_step_back(i: int, n: int)
    requires
        0 <= i < n,
    ensures
        (((i + 1) % n) + n - 1) % n == i,
{
    if i + 1 < n {
        assert((i + 1) % n == i + 1) by (nonlinear_arith)
            requires
                0 <= i + 1 < n,
        ;
        assert((i + n) % n == i) by (nonlinear_arith)
            requires
                0 <= i < n,
        ;
    } else {
        assert((i + 1) % n == 0) by (nonlinear_arith)
            requires
                i + 1 == n,
                n > 0,
        ;
        assert((n - 1) % n == n - 1) by (nonlinear_arith)
            requires
                n > 0,
        ;
    }
}

/// The completion shown after one Tab among `n` completions on show.
pub open spec fn tab_step(i: int, n: int) -> int {
    (i + 1) % n
}

/// The completion shown after `k` Tabs.
pub open spec fn tab_steps(i: int, n: int, k: nat) -> int
    decreases k,
{
    if k == 0 {
        i
    } else {
        tab_step(tab_steps(i, n, (k - 1) as nat), n)
    }
}

/// What the dialog shows with completion `i` selected: the index, the line and the
/// cursor.
pub open spec fn tab_shown(
    prefix: Seq<char>,
    comps: Seq<Seq<char>>,
    suffix: Seq<char>,
    i: int,
) -> (int, Seq<char>, nat) {
    (i, completed_line(prefix, comps[i], suffix), byte_len(prefix + comps[i]))
}

proof fn lemma_tab_steps(i: int, n: int, k: nat)
    requires
        0 <= i < n,
    ensures
        tab_steps(i, n, k) == (i + k) % n,
    decreases k,
{
    if k == 0 {
        vstd::arithmetic::div_mod::lemma_small_mod(i as nat, n as nat);
    } else {
        lemma_tab_steps(i, n, (k - 1) as nat);
        let x = i + k - 1;
        vstd::arithmetic::div_mod::lemma_add_mod_noop(x, 1, n);
        vstd::arithmetic::div_mod::lemma_mod_self_0(n);
        if n > 1 {
            vstd::arithmetic::div_mod::lemma_small_mod(1, n as nat);
            vstd::arithmetic::div_mod::lemma_mod_bound(x + 1, n);
            vstd::arithmetic::div_mod::lemma_mod_bound(x, n);
        } else {
            vstd::arithmetic::div_mod::lemma_mod_bound(x + 1, n);
            vstd::arithmetic::div_mod::lemma_mod_bound(x % n + 1, n);
        }
    }
}

/// Tab with `n` completions on show moves to the next one, around the list (see
/// `handle_tab`, which shows `tab_shown` of `tab_step` and keeps the completions and
/// what stands around them): `n` more Tabs bring back the same completion, line and
/// cursor.
pub proof fn law_tab_cycle(prefix: Seq<char>, comps: Seq<Seq<char>>, suffix: Seq<char>, i: int)
    requires
        0 <= i < comps.len(),
    ensures
        tab_steps(i, comps.len() as int, comps.len()) == i,
        tab_shown(prefix, comps, suffix, tab_steps(i, comps.len() as int, comps.len())) == tab_shown(
            prefix,
            comps,
            suffix,
            i,
        ),
        forall|k: nat| 0 <= #[trigger] tab_steps(i, comps.len() as int, k) < comps.len(),
{
    let n = comps.len() as int;
    lemma_tab_steps(i, n, comps.len());
    vstd::arithmetic::div_mod::lemma_add_mod_noop(i, n, n);
    vstd::arithmetic::div_mod::lemma_mod_self_0(n);
    vstd::arithmetic::div_mod::lemma_small_mod(i as nat, n as nat);
    assert forall|k: nat| 0 <= #[trigger] tab_steps(i, n, k) < n by {
        lemma_tab_steps(i, n, k);
        vstd::arithmetic::div_mod::lemma_mod_bound(i + k, n);
    }
}

} // verus!
