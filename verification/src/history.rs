//! What was typed into each dialog, kept per dialog title and saved between runs.
use vstd::prelude::*;
use crate::text::{
    chars_of, ends_with, extend_range, lines, lines_of, seqs, slice_of, starts_with,
    string_of,
};

verus! {

broadcast use vstd::string::group_string_axioms;

/// How many entries of a section are saved.
pub const HISTORY_MAX: usize = 100;

/// A history: sections in the order they were first seen, each with its entries.
pub type HistView = Seq<(Seq<char>, Seq<Seq<char>>)>;

pub open spec fn strings_of(v: Seq<String>) -> Seq<Seq<char>> {
    Seq::new(v.len(), |i: int| v[i]@)
}

/// No two sections share a name.
pub open spec fn names_distinct(h: HistView) -> bool {
    forall|i: int, j: int| 0 <= i < j < h.len() ==> #[trigger] h[i].0 != #[trigger] h[j].0
}

/// Where the section `name` stands, or -1.
pub open spec fn sec_index(h: HistView, name: Seq<char>) -> int
    decreases h.len(),
{
    if h.len() == 0 {
        -1
    } else if h.last().0 == name {
        h.len() - 1
    } else {
        sec_index(h.drop_last(), name)
    }
}

/// The entries of section `name`; none when there is no such section.
pub open spec fn section(h: HistView, name: Seq<char>) -> Seq<Seq<char>> {
    let i = sec_index(h, name);
    if i >= 0 {
        h[i].1
    } else {
        Seq::empty()
    }
}

/// `h` with a section `name` (empty when new, at the end).
pub open spec fn ensure_section(h: HistView, name: Seq<char>) -> HistView {
    if sec_index(h, name) >= 0 {
        h
    } else {
        h.push((name, Seq::empty()))
    }
}

/// `h` with `e` added at the end of section `name`, created if need be.
pub open spec fn push_entry(h: HistView, name: Seq<char>, e: Seq<char>) -> HistView {
    let h2 = ensure_section(h, name);
    let i = sec_index(h2, name);
    h2.update(i, (name, h2[i].1.push(e)))
}

proof fn lemma_sec_index(h: HistView, name: Seq<char>)
    ensures
        -1 <= sec_index(h, name) < h.len(),
        sec_index(h, name) >= 0 ==> h[sec_index(h, name)].0 == name,
        sec_index(h, name) < 0 ==> forall|j: int| 0 <= j < h.len() ==> #[trigger] h[j].0 != name,
    decreases h.len(),
{
    if h.len() > 0 && h.last().0 != name {
        lemma_sec_index(h.drop_last(), name);
        if sec_index(h, name) < 0 {
            assert forall|j: int| 0 <= j < h.len() implies #[trigger] h[j].0 != name by {
                if j < h.len() - 1 {
                    assert(h.drop_last()[j] == h[j]);
                }
            }
        }
    }
}

/// In a history with distinct names, the section at `i` is found at `i`.
proof fn lemma_sec_index_at(h: HistView, i: int)
    requires
        names_distinct(h),
        0 <= i < h.len(),
    ensures
        sec_index(h, h[i].0) == i,
    decreases h.len(),
{
    if i < h.len() - 1 {
        assert(h.drop_last()[i] == h[i]);
        assert(names_distinct(h.drop_last()));
        lemma_sec_index_at(h.drop_last(), i);
    }
}

proof fn lemma_push_entry(h: HistView, name: Seq<char>, e: Seq<char>)
    requires
        names_distinct(h),
    ensures
        names_distinct(push_entry(h, name, e)),
        forall|q: Seq<char>|
            #[trigger] section(push_entry(h, name, e), q) == if q == name {
                section(h, name).push(e)
            } else {
                section(h, q)
            },
        ensure_section(h, name).len() == push_entry(h, name, e).len(),
{
    lemma_sec_index(h, name);
    let h2 = ensure_section(h, name);
    lemma_ensure_section(h, name);
    let i = sec_index(h2, name);
    lemma_sec_index(h2, name);
    let h3 = push_entry(h, name, e);
    assert(names_distinct(h3)) by {
        assert forall|a: int, b: int| 0 <= a < b < h3.len() implies #[trigger] h3[a].0
            != #[trigger] h3[b].0 by {
            assert(h3[a].0 == h2[a].0);
            assert(h3[b].0 == h2[b].0);
        }
    }
    assert forall|q: Seq<char>| #[trigger] section(h3, q) == if q == name {
        section(h, name).push(e)
    } else {
        section(h, q)
    } by {
        lemma_sec_index(h3, q);
        lemma_sec_index(h2, q);
        assert(section(h2, q) == section(h, q));
        if q == name {
            lemma_sec_index_at(h3, i);
            assert(h3[i] == (name, h2[i].1.push(e)));
            assert(section(h2, name) == h2[i].1);
        } else {
            let j = sec_index(h2, q);
            if j >= 0 {
                lemma_sec_index_at(h3, j);
                assert(h3[j] == h2[j]);
            } else {
                if sec_index(h3, q) >= 0 {
                    assert(h3[sec_index(h3, q)].0 == h2[sec_index(h3, q)].0);
                }
            }
        }
    }
}

proof fn lemma_ensure_section(h: HistView, name: Seq<char>)
    requires
        names_distinct(h),
    ensures
        names_distinct(ensure_section(h, name)),
        forall|q: Seq<char>| #[trigger] section(ensure_section(h, name), q) == section(h, q),
        sec_index(ensure_section(h, name), name) >= 0,
{
    lemma_sec_index(h, name);
    let h2 = ensure_section(h, name);
    if sec_index(h, name) < 0 {
        assert(names_distinct(h2)) by {
            assert forall|a: int, b: int| 0 <= a < b < h2.len() implies #[trigger] h2[a].0
                != #[trigger] h2[b].0 by {
                if b == h.len() {
                    assert(h2[a] == h[a]);
                } else {
                    assert(h2[a] == h[a]);
                    assert(h2[b] == h[b]);
                }
            }
        }
        assert(h2.drop_last() == h);
        assert forall|q: Seq<char>| #[trigger] section(h2, q) == section(h, q) by {
            lemma_sec_index(h, q);
            if q != name {
                assert(sec_index(h2, q) == sec_index(h, q));
                if sec_index(h, q) >= 0 {
                    assert(h2[sec_index(h, q)] == h[sec_index(h, q)]);
                }
            } else {
                assert(sec_index(h2, q) == h.len());
                assert(h2[h.len() as int].1 == Seq::<Seq<char>>::empty());
            }
        }
    }
}

// ───────────────────────── the history file ─────────────────────────

/// A line `[name]` opens the section `name`.
pub open spec fn is_header(line: Seq<char>) -> bool {
    starts_with(line, "["@) && ends_with(line, "]"@)
}

pub open spec fn header_name(line: Seq<char>) -> Seq<char> {
    line.subrange(1, line.len() - 1)
}

/// Reading one line of a history file: a header line opens its section; a non-empty
/// line is an entry of the section last opened (ignored before any).
pub open spec fn parse_step(st: (HistView, Option<Seq<char>>), line: Seq<char>) -> (
    HistView,
    Option<Seq<char>>,
) {
    let (h, cur) = st;
    if is_header(line) {
        (ensure_section(h, header_name(line)), Some(header_name(line)))
    } else {
        match cur {
            Some(sec) => if line.len() > 0 {
                (push_entry(h, sec, line), cur)
            } else {
                (h, cur)
            },
            None => (h, cur),
        }
    }
}

/// Reading lines one after the other, from the state `st`.
pub open spec fn parse_steps(st: (HistView, Option<Seq<char>>), ls: Seq<Seq<char>>) -> (
    HistView,
    Option<Seq<char>>,
)
    decreases ls.len(),
{
    if ls.len() == 0 {
        st
    } else {
        parse_step(parse_steps(st, ls.drop_last()), ls.last())
    }
}

pub open spec fn parse_start() -> (HistView, Option<Seq<char>>) {
    (Seq::empty(), None)
}

/// The history a file holds.
pub open spec fn parse_history(content: Seq<char>) -> HistView {
    parse_steps(parse_start(), lines(content)).0
}

/// The entries of a section that are saved: the last `HISTORY_MAX`.
pub open spec fn kept(es: Seq<Seq<char>>) -> Seq<Seq<char>> {
    if es.len() > HISTORY_MAX {
        es.skip(es.len() - HISTORY_MAX)
    } else {
        es
    }
}

/// Each line followed by a newline.
pub open spec fn terminated(ls: Seq<Seq<char>>) -> Seq<char>
    decreases ls.len(),
{
    if ls.len() == 0 {
        Seq::empty()
    } else {
        terminated(ls.drop_last()) + ls.last() + seq!['\n']
    }
}

/// The lines of a section in the file: its header, then its kept entries.
pub open spec fn section_lines(name: Seq<char>, es: Seq<Seq<char>>) -> Seq<Seq<char>> {
    seq![seq!['['] + name + seq![']']] + kept(es)
}

/// The lines of a whole history file.
pub open spec fn history_lines(h: HistView) -> Seq<Seq<char>>
    decreases h.len(),
{
    if h.len() == 0 {
        Seq::empty()
    } else {
        history_lines(h.drop_last()) + section_lines(h.last().0, h.last().1)
    }
}

/// What a history is saved as.
pub open spec fn serialize_spec(h: HistView) -> Seq<char> {
    terminated(history_lines(h))
}


proof fn lemma_terminated_concat(a: Seq<Seq<char>>, b: Seq<Seq<char>>)
    ensures
        terminated(a + b) == terminated(a) + terminated(b),
    decreases b.len(),
{
    if b.len() == 0 {
        assert(a + b == a);
    } else {
        assert((a + b).drop_last() == a + b.drop_last());
        lemma_terminated_concat(a, b.drop_last());
    }
}

// ───────────────────────── the history ─────────────────────────

/// The history that a list of sections holds.
pub open spec fn sections_view(v: Seq<(String, Vec<String>)>) -> HistView {
    Seq::new(v.len(), |i: int| (v[i].0@, strings_of(v[i].1@)))
}

/// What was typed into each dialog, by dialog title.
pub struct InputHistory {
    path: String,
    sections: Vec<(String, Vec<String>)>,
}

impl View for InputHistory {
    type V = HistView;

    open spec fn view(&self) -> HistView {
        self.view_sections()
    }
}

impl InputHistory {
    pub closed spec fn view_sections(&self) -> HistView {
        sections_view(self.sections@)
    }

    #[verifier::type_invariant]
    closed spec fn inv(&self) -> bool {
        names_distinct(self.view_sections())
    }

    /// Where the history is saved.
    pub closed spec fn path_view(&self) -> Seq<char> {
        self.path@
    }

    /// The file the history is saved to.
    pub fn path(&self) -> (r: &str)
        ensures
            r@ == self.path_view(),
    {
        self.path.as_str()
    }

    /// An empty history to be saved at `path`.
    pub fn empty(path: String) -> (h: InputHistory)
        ensures
            h@ == Seq::<(Seq<char>, Seq<Seq<char>>)>::empty(),
            h.path_view() == path@,
    {
        let h = InputHistory { path, sections: Vec::new() };
        assert(h@ =~= Seq::<(Seq<char>, Seq<Seq<char>>)>::empty());
        h
    }

    /// Makes sure the section `name` exists.
    fn ensure(&mut self, name: &Vec<char>)
        ensures
            final(self)@ == ensure_section(old(self)@, name@),
            final(self).path_view() == old(self).path_view(),
    {
        proof {
            use_type_invariant(&*self);
        }
        let ghost h = self@;
        if self.index_of(name).is_none() {
            proof {
                lemma_ensure_section(h, name@);
            }
            let mut sections: Vec<(String, Vec<String>)> = Vec::new();
            std::mem::swap(&mut sections, &mut self.sections);
            assert(sections_view(sections@) == h);
            let es: Vec<String> = Vec::new();
            assert(strings_of(es@) =~= Seq::<Seq<char>>::empty());
            sections.push((string_of(name), es));
            assert(sections_view(sections@) =~= h.push((name@, Seq::<Seq<char>>::empty())));
            self.sections = sections;
        }
    }

    /// The history that the file `content` holds, to be saved at `path`.
    pub fn load(path: String, content: &str) -> (h: InputHistory)
        ensures
            h@ == parse_history(content@),
            names_distinct(h@),
            h.path_view() == path@,
    {
        proof {
            reveal_strlit("[");
            reveal_strlit("]");
        }
        let mut h = InputHistory::empty(path);
        let v = chars_of(content);
        let ls = lines_of(&v);
        let ghost all = seqs(ls@);
        let mut cur: Option<Vec<char>> = None;
        let mut i: usize = 0;
        assert(all.take(0) == Seq::<Seq<char>>::empty());
        while i < ls.len()
            invariant
                i <= ls.len(),
                all == seqs(ls@),
                all == lines(content@),
                h.path_view() == path@,
                h@ == parse_steps(parse_start(), all.take(i as int)).0,
                parse_steps(parse_start(), all.take(i as int)).1 == (match cur {
                    Some(c) => Some(c@),
                    None => None,
                }),
            decreases ls.len() - i,
        {
            assert(all.take(i + 1).drop_last() == all.take(i as int));
            assert(all.take(i + 1).last() == ls@[i as int]@);
            let line = &ls[i];
            let n = line.len();
            let header = n > 0 && line[0] == '[' && line[n - 1] == ']';
            proof {
                reveal_strlit("[");
                reveal_strlit("]");
                if n > 0 {
                    assert(line@.take(1) == seq![line@[0]]);
                    assert(line@.skip(n - 1) == seq![line@[n - 1]]);
                    if starts_with(line@, "["@) {
                        assert(line@.take(1)[0] == "["@[0]);
                    }
                    if ends_with(line@, "]"@) {
                        assert(line@.skip(n - 1)[0] == "]"@[0]);
                    }
                }
                assert("["@ =~= seq!['[']);
                assert("]"@ =~= seq![']']);
                assert(header == is_header(line@));
            }
            if header {
                let name = slice_of(line, 1, n - 1);
                h.ensure(&name);
                cur = Some(name);
            } else {
                match &cur {
                    Some(sec) => {
                        if n > 0 {
                            let sec_s = string_of(sec);
                            let e = string_of(line);
                            h.push(sec_s.as_str(), e);
                        }
                    },
                    None => {},
                }
            }
            i = i + 1;
        }
        assert(all.take(ls.len() as int) == all);
        proof {
            use_type_invariant(&h);
        }
        h
    }

    /// What the history is saved as: for each section a `[name]` line, then its last
    /// `HISTORY_MAX` entries, one per line.
    pub fn serialize(&self) -> (r: String)
        ensures
            r@ == serialize_spec(self@),
    {
        let ghost h = self@;
        let mut out: Vec<char> = Vec::new();
        let mut i: usize = 0;
        assert(h.take(0) == Seq::<(Seq<char>, Seq<Seq<char>>)>::empty());
        while i < self.sections.len()
            invariant
                i <= self.sections.len(),
                h == self@,
                out@ == serialize_spec(h.take(i as int)),
            decreases self.sections.len() - i,
        {
            let ghost before = out@;
            let name = chars_of(self.sections[i].0.as_str());
            out.push('[');
            extend_range(&mut out, &name, 0, name.len());
            out.push(']');
            out.push('\n');
            let ghost hdr = seq!['['] + name@ + seq![']'];
            proof {
                assert(name@.subrange(0, name@.len() as int) == name@);
                assert(out@ == before + hdr + seq!['\n']);
            }
            let es = &self.sections[i].1;
            let ghost esv = strings_of(es@);
            assert(esv == h[i as int].1);
            let start: usize = if es.len() > HISTORY_MAX {
                es.len() - HISTORY_MAX
            } else {
                0
            };
            let ghost kv = kept(esv);
            assert(kv == esv.skip(start as int));
            let mut j = start;
            assert(kv.take(0) == Seq::<Seq<char>>::empty());
            proof {
                assert(seq![hdr] + kv.take(0) == seq![hdr]);
                assert(seq![hdr].drop_last() == Seq::<Seq<char>>::empty());
                assert(seq![hdr].last() == hdr);
                assert(terminated(Seq::<Seq<char>>::empty()) == Seq::<char>::empty());
                assert(terminated(seq![hdr]) =~= hdr + seq!['\n']);
            }
            while j < es.len()
                invariant
                    start <= j <= es.len(),
                    esv == strings_of(es@),
                    kv == esv.skip(start as int),
                    out@ == before + terminated(seq![hdr] + kv.take(j - start)),
                decreases es.len() - j,
            {
                let e = chars_of(es[j].as_str());
                let ghost mid = out@;
                extend_range(&mut out, &e, 0, e.len());
                out.push('\n');
                proof {
                    assert(e@.subrange(0, e@.len() as int) == e@);
                    let t = seq![hdr] + kv.take(j - start);
                    assert(seq![hdr] + kv.take(j + 1 - start) == t.push(kv[j - start]));
                    assert(kv[j - start] == e@);
                    assert(terminated(t.push(e@)).len() >= 0);
                    assert(t.push(e@).drop_last() == t);
                }
                j = j + 1;
            }
            proof {
                assert(kv.take(es.len() - start) == kv);
                let hs = h.take(i + 1);
                assert(hs.drop_last() == h.take(i as int));
                assert(hs.last() == h[i as int]);
                assert(section_lines(h[i as int].0, h[i as int].1) == seq![hdr] + kv);
                lemma_terminated_concat(history_lines(h.take(i as int)), seq![hdr] + kv);
            }
            i = i + 1;
        }
        assert(h.take(self.sections.len() as int) == h);
        string_of(&out)
    }

    /// Where section `name` stands, or -1.
    fn index_of(&self, name: &Vec<char>) -> (r: Option<usize>)
        ensures
            match r {
                Some(i) => i < self@.len() && sec_index(self@, name@) == i,
                None => sec_index(self@, name@) < 0,
            },
    {
        let ghost h = self@;
        let mut j = self.sections.len();
        assert(h.take(j as int) == h);
        while j > 0
            invariant
                j <= self.sections.len(),
                h == self@,
                sec_index(h, name@) == sec_index(h.take(j as int), name@),
            decreases j,
        {
            assert(h.take(j as int).drop_last() == h.take(j - 1));
            assert(h.take(j as int).last() == h[j - 1]);
            let k = chars_of(self.sections[j - 1].0.as_str());
            if k.len() == name.len() && crate::scontrol::slice_eq(&k, name) {
                return Some(j - 1);
            }
            j = j - 1;
        }
        None
    }

    /// The entries typed into the dialog titled `section`, oldest first.
    pub fn get(&self, section: &str) -> (r: &[String])
        ensures
            strings_of(r@) == crate::history::section(self@, section@),
    {
        let name = chars_of(section);
        match self.index_of(&name) {
            Some(i) => {
                assert(strings_of(self.sections@[i as int].1@) == self@[i as int].1);
                self.sections[i].1.as_slice()
            },
            None => {
                let e: &[String] = &[];
                assert(strings_of(e@) =~= Seq::<Seq<char>>::empty());
                e
            },
        }
    }

    /// Adds `entry` at the end of the dialog's section.
    pub fn push(&mut self, section: &str, entry: String)
        ensures
            final(self)@ == push_entry(old(self)@, section@, entry@),
            names_distinct(final(self)@),
            final(self).path_view() == old(self).path_view(),
    {
        proof {
            use_type_invariant(&*self);
        }
        let name = chars_of(section);
        let ghost h = self@;
        let idx = self.index_of(&name);
        proof {
            lemma_push_entry(h, section@, entry@);
            lemma_ensure_section(h, section@);
            lemma_sec_index(h, section@);
        }
        let ghost ev = entry@;
        match idx {
            Some(i) => {
                let mut sections: Vec<(String, Vec<String>)> = Vec::new();
                std::mem::swap(&mut sections, &mut self.sections);
                assert(sections_view(sections@) == h);
                let (n, mut es) = sections.remove(i);
                let ghost old_es = strings_of(es@);
                es.push(entry);
                assert(strings_of(es@) =~= old_es.push(ev));
                sections.insert(i, (n, es));
                proof {
                    assert(sections_view(sections@) =~= h.update(
                        i as int,
                        (section@, h[i as int].1.push(ev)),
                    ));
                }
                self.sections = sections;
            },
            None => {
                let mut es: Vec<String> = Vec::new();
                es.push(entry);
                assert(strings_of(es@) =~= seq![ev]);
                let mut sections: Vec<(String, Vec<String>)> = Vec::new();
                std::mem::swap(&mut sections, &mut self.sections);
                assert(sections_view(sections@) == h);
                sections.push((section.to_owned(), es));
                proof {
                    let h2 = h.push((section@, Seq::<Seq<char>>::empty()));
                    lemma_sec_index(h2, section@);
                    assert(sections_view(sections@) =~= h2.update(
                        h.len() as int,
                        (section@, seq![ev]),
                    ));
                }
                self.sections = sections;
            },
        }
    }
}


// ───────────────────────── saving and loading ─────────────────────────

/// An entry that a history file can hold as a line of its own.
pub open spec fn entry_savable(e: Seq<char>) -> bool {
    &&& e.len() > 0
    &&& !e.contains('\n')
    &&& e.last() != '\r'
    &&& !is_header(e)
}

/// Every section fits the file: at most `HISTORY_MAX` entries, a name without
/// newlines, and entries that can stand as lines.
pub open spec fn savable(h: HistView) -> bool {
    forall|i: int|
        #![trigger h[i]]
        0 <= i < h.len() ==> {
            &&& h[i].1.len() <= HISTORY_MAX
            &&& !h[i].0.contains('\n')
            &&& forall|j: int| 0 <= j < h[i].1.len() ==> entry_savable(#[trigger] h[i].1[j])
        }
}

proof fn lemma_split_append_plain(a: Seq<char>, l: Seq<char>)
    requires
        !l.contains('\n'),
    ensures
        crate::text::split(a + l, '\n') == crate::text::split(a, '\n').drop_last().push(
            crate::text::split(a, '\n').last() + l,
        ),
    decreases l.len(),
{
    crate::text::lemma_split_len(a, '\n');
    if l.len() == 0 {
        assert(a + l == a);
        assert(crate::text::split(a, '\n').last() + l == crate::text::split(a, '\n').last());
        assert(crate::text::split(a, '\n').drop_last().push(crate::text::split(a, '\n').last())
            == crate::text::split(a, '\n'));
    } else {
        let l2 = l.drop_last();
        assert(!l2.contains('\n')) by {
            if l2.contains('\n') {
                let k = choose|k: int| 0 <= k < l2.len() && l2[k] == '\n';
                assert(l[k] == '\n');
            }
        }
        assert(l.last() != '\n') by {
            assert(l[l.len() - 1] == l.last());
        }
        lemma_split_append_plain(a, l2);
        assert((a + l).drop_last() == a + l2);
        assert((a + l).last() == l.last());
        let p = crate::text::split(a, '\n');
        assert((p.last() + l2).push(l.last()) == p.last() + l);
    }
}

proof fn lemma_split_terminated(ls: Seq<Seq<char>>)
    requires
        forall|i: int| 0 <= i < ls.len() ==> !(#[trigger] ls[i]).contains('\n'),
    ensures
        crate::text::split(terminated(ls), '\n') == ls.push(Seq::<char>::empty()),
    decreases ls.len(),
{
    if ls.len() == 0 {
        assert(terminated(ls) == Seq::<char>::empty());
    } else {
        let l2 = ls.drop_last();
        assert forall|i: int| 0 <= i < l2.len() implies !(#[trigger] l2[i]).contains('\n') by {
            assert(l2[i] == ls[i]);
        }
        lemma_split_terminated(l2);
        let a = terminated(l2);
        let l = ls.last();
        assert(!l.contains('\n')) by {
            assert(ls[ls.len() - 1] == l);
        }
        lemma_split_append_plain(a, l);
        let x = a + l;
        assert(terminated(ls) == x + seq!['\n']);
        assert((x + seq!['\n']).drop_last() == x);
        assert((x + seq!['\n']).last() == '\n');
        assert(crate::text::split(a, '\n').drop_last() == l2);
        assert(Seq::<char>::empty() + l == l);
        assert(l2.push(l) == ls);
    }
}

/// Lines without newlines, none ending in a carriage return, read back as themselves.
proof fn lemma_lines_terminated(ls: Seq<Seq<char>>)
    requires
        forall|i: int| 0 <= i < ls.len() ==> !(#[trigger] ls[i]).contains('\n'),
        forall|i: int| 0 <= i < ls.len() ==> (#[trigger] ls[i]).len() == 0 || ls[i].last() != '\r',
    ensures
        lines(terminated(ls)) == ls,
{
    lemma_split_terminated(ls);
    let p = ls.push(Seq::<char>::empty());
    assert(p.take(p.len() - 1) == ls);
    assert(ls.map_values(|x: Seq<char>| crate::text::strip_cr(x)) =~= ls);
}

proof fn lemma_parse_steps_concat(st: (HistView, Option<Seq<char>>), a: Seq<Seq<char>>, b: Seq<Seq<char>>)
    ensures
        parse_steps(st, a + b) == parse_steps(parse_steps(st, a), b),
    decreases b.len(),
{
    if b.len() == 0 {
        assert(a + b == a);
    } else {
        assert((a + b).drop_last() == a + b.drop_last());
        lemma_parse_steps_concat(st, a, b.drop_last());
    }
}

/// Reading the entries of the last section, which is the open one.
proof fn lemma_parse_entries(h: HistView, name: Seq<char>, es: Seq<Seq<char>>, k: int)
    requires
        names_distinct(h.push((name, Seq::empty()))),
        0 <= k <= es.len(),
        forall|j: int| 0 <= j < es.len() ==> entry_savable(#[trigger] es[j]),
    ensures
        parse_steps((h.push((name, Seq::empty())), Some(name)), es.take(k)) == (
            h.push((name, es.take(k))),
            Some(name),
        ),
    decreases k,
{
    if k == 0 {
        assert(es.take(0) == Seq::<Seq<char>>::empty());
    } else {
        lemma_parse_entries(h, name, es, k - 1);
        assert(es.take(k).drop_last() == es.take(k - 1));
        assert(es.take(k).last() == es[k - 1]);
        let hk = h.push((name, es.take(k - 1)));
        assert(names_distinct(hk)) by {
            assert forall|a: int, b: int| 0 <= a < b < hk.len() implies #[trigger] hk[a].0
                != #[trigger] hk[b].0 by {
                let h0 = h.push((name, Seq::<Seq<char>>::empty()));
                assert(hk[a].0 == h0[a].0);
                assert(hk[b].0 == h0[b].0);
            }
        }
        lemma_sec_index_at(hk, h.len() as int);
        assert(ensure_section(hk, name) == hk);
        assert(es.take(k - 1).push(es[k - 1]) == es.take(k));
        assert(hk.update(h.len() as int, (name, es.take(k - 1).push(es[k - 1]))) == h.push(
            (name, es.take(k)),
        ));
    }
}

/// Reading back the lines of a history gives the history, with its last section open.
proof fn lemma_parse_history_lines(h: HistView)
    requires
        names_distinct(h),
        savable(h),
    ensures
        parse_steps(parse_start(), history_lines(h)) == (h, if h.len() == 0 {
            None::<Seq<char>>
        } else {
            Some(h.last().0)
        }),
    decreases h.len(),
{
    if h.len() > 0 {
        let h2 = h.drop_last();
        assert(names_distinct(h2));
        assert(savable(h2)) by {
            assert forall|i: int| #![trigger h2[i]] 0 <= i < h2.len() implies {
                &&& h2[i].1.len() <= HISTORY_MAX
                &&& !h2[i].0.contains('\n')
                &&& forall|j: int| 0 <= j < h2[i].1.len() ==> entry_savable(#[trigger] h2[i].1[j])
            } by {
                assert(h2[i] == h[i]);
            }
        }
        lemma_parse_history_lines(h2);
        let (name, es) = h.last();
        assert(h[h.len() - 1] == h.last());
        assert(es.len() <= HISTORY_MAX);
        assert(kept(es) == es);
        let hdr = seq!['['] + name + seq![']'];
        lemma_parse_steps_concat(parse_start(), history_lines(h2), section_lines(name, es));
        let st = parse_steps(parse_start(), history_lines(h2));
        lemma_parse_steps_concat(st, seq![hdr], es);
        assert(section_lines(name, es) == seq![hdr] + es);
        reveal_strlit("[");
        reveal_strlit("]");
        assert(is_header(hdr)) by {
            assert(hdr.take(1) =~= "["@);
            assert(hdr.skip(hdr.len() - 1) =~= "]"@);
        }
        assert(header_name(hdr) =~= name);
        assert(seq![hdr].drop_last() == Seq::<Seq<char>>::empty());
        assert(sec_index(h2, name) < 0) by {
            lemma_sec_index(h2, name);
            if sec_index(h2, name) >= 0 {
                let i = sec_index(h2, name);
                assert(h[i] == h2[i]);
            }
        }
        assert(seq![hdr].last() == hdr);
        assert(parse_steps(st, Seq::<Seq<char>>::empty()) == st);
        assert(parse_steps(st, seq![hdr]) == parse_step(st, hdr));
        assert(st.0 == h2);
        assert(ensure_section(h2, name) == h2.push((name, Seq::<Seq<char>>::empty())));
        assert(parse_steps(st, seq![hdr]) == (h2.push((name, Seq::<Seq<char>>::empty())), Some(
            name,
        )));
        assert(names_distinct(h2.push((name, Seq::<Seq<char>>::empty())))) by {
            let h0 = h2.push((name, Seq::<Seq<char>>::empty()));
            assert forall|a: int, b: int| 0 <= a < b < h0.len() implies #[trigger] h0[a].0
                != #[trigger] h0[b].0 by {
                assert(h0[a].0 == h[a].0);
                assert(h0[b].0 == h[b].0);
            }
        }
        assert forall|j: int| 0 <= j < es.len() implies entry_savable(#[trigger] es[j]) by {
            assert(h[h.len() - 1].1[j] == es[j]);
        }
        lemma_parse_entries(h2, name, es, es.len() as int);
        assert(es.take(es.len() as int) == es);
        assert(h2.push((name, es)) == h);
    }
}

/// What the lines of a history file are: header lines and entries.
proof fn lemma_history_lines_plain(h: HistView)
    requires
        savable(h),
    ensures
        forall|i: int|
            0 <= i < history_lines(h).len() ==> !(#[trigger] history_lines(h)[i]).contains('\n')
                && (history_lines(h)[i].len() == 0 || history_lines(h)[i].last() != '\r'),
    decreases h.len(),
{
    if h.len() > 0 {
        let h2 = h.drop_last();
        assert(savable(h2)) by {
            assert forall|i: int| #![trigger h2[i]] 0 <= i < h2.len() implies {
                &&& h2[i].1.len() <= HISTORY_MAX
                &&& !h2[i].0.contains('\n')
                &&& forall|j: int| 0 <= j < h2[i].1.len() ==> entry_savable(#[trigger] h2[i].1[j])
            } by {
                assert(h2[i] == h[i]);
            }
        }
        lemma_history_lines_plain(h2);
        let a = history_lines(h2);
        let (name, es) = h.last();
        assert(h[h.len() - 1] == h.last());
        assert(kept(es) == es);
        let b = section_lines(name, es);
        let hdr = seq!['['] + name + seq![']'];
        assert forall|i: int| 0 <= i < (a + b).len() implies !(#[trigger] (a + b)[i]).contains('\n')
            && ((a + b)[i].len() == 0 || (a + b)[i].last() != '\r') by {
            if i >= a.len() {
                let j = i - a.len();
                if j == 0 {
                    assert(b[0] == hdr);
                    assert(hdr.last() == ']');
                    if hdr.contains('\n') {
                        let k = choose|k: int| 0 <= k < hdr.len() && hdr[k] == '\n';
                        if 0 < k < hdr.len() - 1 {
                            assert(name[k - 1] == '\n');
                        }
                    }
                } else {
                    assert(b[j] == es[j - 1]);
                    assert(entry_savable(h[h.len() - 1].1[j - 1]));
                }
            }
        }
    }
}

/// Saving a history and reading the file back gives the same history, when every
/// section holds at most `HISTORY_MAX` entries, no section name holds a newline, and
/// every entry is non-empty, holds no newline, does not end with a carriage return and
/// is not itself of the form `[...]`.
pub proof fn law_save_then_load(h: HistView)
    requires
        names_distinct(h),
        savable(h),
    ensures
        parse_history(serialize_spec(h)) == h,
{
    lemma_history_lines_plain(h);
    lemma_lines_terminated(history_lines(h));
    lemma_parse_history_lines(h);
}

/// Adding an entry puts it last in its own section and leaves every other section as
/// it was.
pub proof fn law_push_then_get(h: HistView, name: Seq<char>, e: Seq<char>, other: Seq<char>)
    requires
        names_distinct(h),
        other != name,
    ensures
        section(push_entry(h, name, e), name) == section(h, name).push(e),
        section(push_entry(h, name, e), other) == section(h, other),
{
    lemma_push_entry(h, name, e);
}

/// Saving keeps the last `HISTORY_MAX` entries of each section.
pub proof fn law_save_keeps_last(es: Seq<Seq<char>>)
    ensures
        kept(es).len() <= HISTORY_MAX,
        es.len() <= HISTORY_MAX ==> kept(es) == es,
        forall|j: int| 0 <= j < kept(es).len() ==> #[trigger] kept(es)[j] == es[es.len() - kept(
            es,
        ).len() + j],
{
}

/// Each section cut to the entries that are saved.
pub open spec fn last_kept(h: HistView) -> HistView {
    Seq::new(h.len(), |i: int| (h[i].0, kept(h[i].1)))
}

/// Every section name can stand in a header line and every entry as a line of its own.
pub open spec fn lines_savable(h: HistView) -> bool {
    forall|i: int|
        #![trigger h[i]]
        0 <= i < h.len() ==> {
            &&& !h[i].0.contains('\n')
            &&& forall|j: int| 0 <= j < h[i].1.len() ==> entry_savable(#[trigger] h[i].1[j])
        }
}

proof fn lemma_history_lines_kept(h: HistView)
    ensures
        history_lines(last_kept(h)) == history_lines(h),
    decreases h.len(),
{
    if h.len() > 0 {
        assert(last_kept(h).drop_last() =~= last_kept(h.drop_last()));
        lemma_history_lines_kept(h.drop_last());
        let (name, es) = h.last();
        assert(last_kept(h).last() == (name, kept(es)));
        assert(kept(kept(es)) == kept(es));
    }
}

/// Saving a history and reading the file back gives each section's last
/// `HISTORY_MAX` entries, in order, when no section name holds a newline and every
/// entry is non-empty, holds no newline, does not end with a carriage return and is
/// not itself of the form `[...]`.
pub proof fn law_save_then_load_keeps_last(h: HistView)
    requires
        names_distinct(h),
        lines_savable(h),
    ensures
        parse_history(serialize_spec(h)) == last_kept(h),
{
    let k = last_kept(h);
    lemma_history_lines_kept(h);
    assert(names_distinct(k)) by {
        assert forall|a: int, b: int| 0 <= a < b < k.len() implies #[trigger] k[a].0 != #[trigger] k[b].0 by {
            assert(k[a].0 == h[a].0);
            assert(k[b].0 == h[b].0);
        }
    }
    assert(savable(k)) by {
        assert forall|i: int| #![trigger k[i]] 0 <= i < k.len() implies {
            &&& k[i].1.len() <= HISTORY_MAX
            &&& !k[i].0.contains('\n')
            &&& forall|j: int| 0 <= j < k[i].1.len() ==> entry_savable(#[trigger] k[i].1[j])
        } by {
            assert(h[i] == h[i]);
            let es = h[i].1;
            assert forall|j: int| 0 <= j < kept(es).len() implies entry_savable(#[trigger] kept(es)[j]) by {
                assert(kept(es)[j] == es[es.len() - kept(es).len() + j]);
            }
        }
    }
    law_save_then_load(k);
}

} // verus!
