//! The `Key=Value` records that `scontrol` prints, and the values read from them.
use vstd::prelude::*;
use crate::text::{
    chars_of, contains_seq, contains_str, eq_str, find_char, first_pos, lowercase,
    lemma_split_len, parse_u64, parse_u64_spec, seqs, slice_of, split, split_chars, split_once,
    string_of, to_lower, to_upper, trim, trim_bounds, uppercase, words, words_of,
    ascii_lower_text, ascii_upper_text, is_ascii_text,
};

verus! {

broadcast use vstd::string::group_string_axioms;

// ───────────────────────── Key=Value records ─────────────────────────

/// The `Key=Value` pairs of a list of words, in order; words without `=` are skipped.
pub open spec fn pairs_of(ws: Seq<Seq<char>>) -> Seq<(Seq<char>, Seq<char>)>
    decreases ws.len(),
{
    if ws.len() == 0 {
        Seq::empty()
    } else {
        match split_once(ws.last(), '=') {
            Some(kv) => pairs_of(ws.drop_last()).push(kv),
            None => pairs_of(ws.drop_last()),
        }
    }
}

/// The pairs of an `scontrol` record.
pub open spec fn scontrol_pairs(raw: Seq<char>) -> Seq<(Seq<char>, Seq<char>)> {
    pairs_of(words(raw))
}

/// The value of `key` in a list of pairs: the last pair with that key wins.
pub open spec fn lookup(pairs: Seq<(Seq<char>, Seq<char>)>, key: Seq<char>) -> Option<Seq<char>>
    decreases pairs.len(),
{
    if pairs.len() == 0 {
        None
    } else if pairs.last().0 == key {
        Some(pairs.last().1)
    } else {
        lookup(pairs.drop_last(), key)
    }
}

/// The pairs that a list of character-vector pairs holds.
pub open spec fn pairs_view(e: Seq<(Vec<char>, Vec<char>)>) -> Seq<(Seq<char>, Seq<char>)> {
    Seq::new(e.len(), |i: int| (e[i].0@, e[i].1@))
}

/// Where the value of `key` stands in `entries`: the last entry with that key.
pub fn last_position(entries: &Vec<(Vec<char>, Vec<char>)>, key: &Vec<char>) -> (r: Option<
    usize,
>)
    ensures
        match r {
            Some(i) => i < entries.len() && entries@[i as int].0@ == key@ && lookup(
                pairs_view(entries@),
                key@,
            ) == Some(entries@[i as int].1@) && forall|j: int|
                i < j < entries.len() ==> #[trigger] entries@[j].0@ != key@,
            None => lookup(pairs_view(entries@), key@) is None,
        },
{
    let ghost pv = pairs_view(entries@);
    let mut j = entries.len();
    assert(pv.take(j as int) == pv);
    while j > 0
        invariant
            j <= entries.len(),
            pv == pairs_view(entries@),
            lookup(pv, key@) == lookup(pv.take(j as int), key@),
            forall|k: int| j <= k < entries.len() ==> #[trigger] entries@[k].0@ != key@,
        decreases j,
    {
        assert(pv.take(j as int).drop_last() == pv.take(j - 1));
        assert(pv.take(j as int).last() == pv[j - 1]);
        let (k, _) = &entries[j - 1];
        let same = if k.len() == key.len() {
            slice_eq(k, key)
        } else {
            false
        };
        if same {
            return Some(j - 1);
        }
        j = j - 1;
    }
    None
}

/// The fields of an `scontrol` record.
pub struct ScontrolFields {
    pub entries: Vec<(Vec<char>, Vec<char>)>,
}

impl View for ScontrolFields {
    type V = Seq<(Seq<char>, Seq<char>)>;

    open spec fn view(&self) -> Seq<(Seq<char>, Seq<char>)> {
        pairs_view(self.entries@)
    }
}

impl ScontrolFields {
    /// The value of `key`, as text.
    pub fn get(&self, key: &str) -> (r: Option<Vec<char>>)
        ensures
            match r {
                Some(v) => lookup(self@, key@) == Some(v@),
                None => lookup(self@, key@) is None,
            },
    {
        let k = chars_of(key);
        match last_position(&self.entries, &k) {
            Some(i) => Some(slice_of(&self.entries[i].1, 0, self.entries[i].1.len())),
            None => None,
        }
    }

    /// The value of `key`, or `default` when there is none.
    pub fn get_or(&self, key: &str, default: &str) -> (r: String)
        ensures
            r@ == (match lookup(self@, key@) {
                Some(v) => v,
                None => default@,
            }),
    {
        match self.get(key) {
            Some(v) => string_of(&v),
            None => default.to_owned(),
        }
    }

    /// The value of `key` read as a number, or 0 when it is missing or not a number.
    pub fn get_u64(&self, key: &str) -> (r: u64)
        ensures
            r == num_or_zero(lookup(self@, key@)),
    {
        match self.get(key) {
            Some(v) => match parse_u64(&v) {
                Some(n) => n,
                None => 0,
            },
            None => 0,
        }
    }
}

/// A field read as a number, 0 when missing or not a number.
pub open spec fn num_or_zero(v: Option<Seq<char>>) -> u64 {
    match v {
        Some(s) => match parse_u64_spec(s) {
            Some(n) => n,
            None => 0,
        },
        None => 0,
    }
}

pub fn slice_eq(a: &Vec<char>, b: &Vec<char>) -> (r: bool)
    requires
        a.len() == b.len(),
    ensures
        r == (a@ == b@),
{
    let mut i: usize = 0;
    while i < a.len()
        invariant
            a.len() == b.len(),
            i <= a.len(),
            forall|j: int| 0 <= j < i ==> a@[j] == b@[j],
        decreases a.len() - i,
    {
        if a[i] != b[i] {
            return false;
        }
        i = i + 1;
    }
    assert(a@ == b@);
    true
}

/// Reads an `scontrol` record: every word of the form `Key=Value` (split at its
/// first `=`) becomes a field; a later field overrides an earlier one of the same key.
pub fn parse_scontrol(raw: &str) -> (f: ScontrolFields)
    ensures
        f@ == scontrol_pairs(raw@),
{
    let v = chars_of(raw);
    let ws = words_of(&v);
    let mut entries: Vec<(Vec<char>, Vec<char>)> = Vec::new();
    let mut i: usize = 0;
    assert(seqs(ws@).take(0) == Seq::<Seq<char>>::empty());
    while i < ws.len()
        invariant
            i <= ws.len(),
            seqs(ws@) == words(v@),
            (ScontrolFields { entries })@ == pairs_of(seqs(ws@).take(i as int)),
        decreases ws.len() - i,
    {
        let w = &ws[i];
        let ghost ts = seqs(ws@).take(i + 1);
        assert(ts.drop_last() == seqs(ws@).take(i as int));
        assert(ts.last() == w@);
        let eq = find_char(w, '=');
        if eq < w.len() {
            let k = slice_of(w, 0, eq);
            let val = slice_of(w, eq + 1, w.len());
            let ghost before = (ScontrolFields { entries })@;
            entries.push((k, val));
            assert((ScontrolFields { entries })@ =~= before.push(
                (w@.take(eq as int), w@.skip(eq + 1)),
            ));
        }
        i = i + 1;
    }
    assert(seqs(ws@).take(ws.len() as int) == seqs(ws@));
    ScontrolFields { entries }
}

// ───────────────────────── generic resources ─────────────────────────

/// What one comma-separated item of a `Gres` field counts for `kind`: the item is cut
/// at its first `(` and trimmed; it counts when its first `:`-piece is `kind`, by the
/// number its last `:`-piece holds (0 when that is not a number).
pub open spec fn gres_item_count(item: Seq<char>, kind: Seq<char>) -> nat {
    let head = trim(item.take(first_pos(item, '(')));
    if head.len() == 0 {
        0
    } else {
        let parts = split(head, ':');
        if parts[0] != kind {
            0
        } else {
            match parse_u64_spec(parts.last()) {
                Some(n) => n as nat,
                None => 0,
            }
        }
    }
}

pub open spec fn gres_sum(items: Seq<Seq<char>>, kind: Seq<char>) -> nat
    decreases items.len(),
{
    if items.len() == 0 {
        0
    } else {
        gres_sum(items.drop_last(), kind) + gres_item_count(items.last(), kind)
    }
}

/// How many resources of `kind` a `Gres` field lists (`gpu:a100:4,gpu:v100:2` has 6 GPUs).
pub open spec fn gres_total(gres: Seq<char>, kind: Seq<char>) -> nat {
    if gres.len() == 0 || gres == "(null)"@ {
        0
    } else {
        gres_sum(split(gres, ','), kind)
    }
}

proof fn lemma_gres_sum_prefix(items: Seq<Seq<char>>, kind: Seq<char>, k: int)
    requires
        0 <= k <= items.len(),
    ensures
        gres_sum(items.take(k), kind) <= gres_sum(items, kind),
    decreases items.len() - k,
{
    if k < items.len() {
        assert(items.drop_last().take(k) == items.take(k));
        lemma_gres_sum_prefix(items.drop_last(), kind, k);
    } else {
        assert(items.take(k) == items);
    }
}

fn gres_item_count_exec(item: &Vec<char>, kind: &Vec<char>) -> (r: u64)
    ensures
        r == gres_item_count(item@, kind@),
{
    broadcast use lemma_split_len;

    let cut = find_char(item, '(');
    let (a, b) = trim_bounds(item, 0, cut);
    assert(item@.subrange(0, cut as int) == item@.take(cut as int));
    if a == b {
        return 0;
    }
    let head = slice_of(item, a, b);
    let parts = split_chars(&head, ':');
    proof {
        lemma_split_len(head@, ':');
    }
    assert(parts@[0]@ == seqs(parts@)[0]);
    let first = &parts[0];
    if first.len() != kind.len() || !slice_eq(first, kind) {
        return 0;
    }
    let last = &parts[parts.len() - 1];
    assert(last@ == seqs(parts@).last());
    match parse_u64(last) {
        Some(n) => n,
        None => 0,
    }
}

/// How many resources of `kind` a `Gres` field lists.
pub fn parse_gres_count(gres: &str, kind: &str) -> (r: u64)
    requires
        gres_total(gres@, kind@) <= u64::MAX,
    ensures
        r == gres_total(gres@, kind@),
{
    let g = chars_of(gres);
    let k = chars_of(kind);
    if g.len() == 0 || eq_str(&g, "(null)") {
        return 0;
    }
    let items = split_chars(&g, ',');
    let mut total: u64 = 0;
    let mut i: usize = 0;
    assert(seqs(items@).take(0) == Seq::<Seq<char>>::empty());
    while i < items.len()
        invariant
            i <= items.len(),
            seqs(items@) == split(g@, ','),
            g@ == gres@,
            k@ == kind@,
            gres_sum(seqs(items@), kind@) <= u64::MAX,
            total == gres_sum(seqs(items@).take(i as int), kind@),
        decreases items.len() - i,
    {
        let n = gres_item_count_exec(&items[i], &k);
        proof {
            let ts = seqs(items@).take(i + 1);
            assert(ts.drop_last() == seqs(items@).take(i as int));
            assert(ts.last() == items@[i as int]@);
            lemma_gres_sum_prefix(seqs(items@), kind@, i + 1);
        }
        total = total + n;
        i = i + 1;
    }
    assert(seqs(items@).take(items.len() as int) == seqs(items@));
    total
}

/// Whether the count of `kind` in `gres` fits in 64 bits, as `parse_gres_count` needs.
pub fn gres_count_fits(gres: &str, kind: &str) -> (b: bool)
    ensures
        b == (gres_total(gres@, kind@) <= u64::MAX),
{
    let g = chars_of(gres);
    let k = chars_of(kind);
    if g.len() == 0 || eq_str(&g, "(null)") {
        return true;
    }
    let items = split_chars(&g, ',');
    let mut total: u64 = 0;
    let mut i: usize = 0;
    assert(seqs(items@).take(0) == Seq::<Seq<char>>::empty());
    while i < items.len()
        invariant
            i <= items.len(),
            seqs(items@) == split(g@, ','),
            g@ == gres@,
            k@ == kind@,
            gres_total(gres@, kind@) == gres_sum(seqs(items@), kind@),
            total == gres_sum(seqs(items@).take(i as int), kind@),
        decreases items.len() - i,
    {
        let n = gres_item_count_exec(&items[i], &k);
        proof {
            let ts = seqs(items@).take(i + 1);
            assert(ts.drop_last() == seqs(items@).take(i as int));
            assert(ts.last() == items@[i as int]@);
            lemma_gres_sum_prefix(seqs(items@), kind@, i + 1);
        }
        if n > u64::MAX - total {
            return false;
        }
        total = total + n;
        i = i + 1;
    }
    assert(seqs(items@).take(items.len() as int) == seqs(items@));
    true
}

// ───────────────────────── node states ─────────────────────────

/// How a node's state counts in the cluster summary.
#[derive(PartialEq, Eq, Structural, Clone, Copy, Debug)]
pub enum StateCat {
    Idle,
    Mix,
    Alloc,
    Down,
    Other,
}

/// The category of an upper-cased node state: anything drained, down, failing, not
/// responding, in maintenance or powered down is down; then mixed, allocated, idle.
pub open spec fn state_category(st: Seq<char>) -> StateCat {
    if contains_seq(st, "DRAIN"@) || contains_seq(st, "DOWN"@) || contains_seq(st, "FAIL"@)
        || contains_seq(st, "NOT_RESPOND"@) || contains_seq(st, "MAINT"@) || contains_seq(
        st,
        "POWER_DOWN"@,
    ) || contains_seq(st, "POWERED_DOWN"@) {
        StateCat::Down
    } else if contains_seq(st, "MIX"@) {
        StateCat::Mix
    } else if contains_seq(st, "ALLOCATED"@) {
        StateCat::Alloc
    } else if contains_seq(st, "IDLE"@) {
        StateCat::Idle
    } else {
        StateCat::Other
    }
}

/// The category of an already upper-cased node state.
pub fn categorize_upper(st: &Vec<char>) -> (c: StateCat)
    ensures
        c == state_category(st@),
{
    if contains_str(st, "DRAIN") || contains_str(st, "DOWN") || contains_str(st, "FAIL")
        || contains_str(st, "NOT_RESPOND") || contains_str(st, "MAINT") || contains_str(
        st,
        "POWER_DOWN",
    ) || contains_str(st, "POWERED_DOWN") {
        StateCat::Down
    } else if contains_str(st, "MIX") {
        StateCat::Mix
    } else if contains_str(st, "ALLOCATED") {
        StateCat::Alloc
    } else if contains_str(st, "IDLE") {
        StateCat::Idle
    } else {
        StateCat::Other
    }
}

/// The category of a node state as `scontrol` prints it, compared in upper case.
pub fn categorize_state(state: &str) -> (c: StateCat)
    ensures
        c == state_category(uppercase(state@)),
        is_ascii_text(state@) ==> c == state_category(ascii_upper_text(state@)),
{
    let up = to_upper(state);
    let v = chars_of(up.as_str());
    categorize_upper(&v)
}

// ───────────────────────── GPUs of a job ─────────────────────────

/// The GPU count of the first item of a `Tres...` value that mentions a GPU:
/// what follows its last `:`.
pub open spec fn gpu_in_items(items: Seq<Seq<char>>) -> Option<Seq<char>>
    decreases items.len(),
{
    if items.len() == 0 {
        None
    } else if contains_seq(lowercase(items[0]), "gpu"@) {
        Some(split(items[0], ':').last())
    } else {
        gpu_in_items(items.drop_first())
    }
}

/// The GPU count that one `Tres...` field gives, if it mentions a GPU.
pub open spec fn gpu_in_value(v: Option<Seq<char>>) -> Option<Seq<char>> {
    match v {
        Some(val) => if contains_seq(lowercase(val), "gpu"@) {
            gpu_in_items(split(val, ','))
        } else {
            None
        },
        None => None,
    }
}

/// The fields where a job's GPU request can stand, in the order they are read.
pub open spec fn tres_keys() -> Seq<Seq<char>> {
    seq!["TresPerNode"@, "TresPerJob"@, "TresPerSocket"@, "TresPerTask"@]
}

/// The GPU count from the first of `keys` that gives one, or nothing.
pub open spec fn gpu_from_keys(f: Seq<(Seq<char>, Seq<char>)>, keys: Seq<Seq<char>>) -> Seq<
    char,
>
    decreases keys.len(),
{
    if keys.len() == 0 {
        Seq::<char>::empty()
    } else {
        match gpu_in_value(lookup(f, keys[0])) {
            Some(c) => c,
            None => gpu_from_keys(f, keys.drop_first()),
        }
    }
}

/// `gpu_in_items` with each item's lower-cased text given in `lowers`.
pub open spec fn gpu_in_items_lowered(items: Seq<Seq<char>>, lowers: Seq<Seq<char>>) -> Option<
    Seq<char>,
>
    decreases items.len(),
{
    if items.len() == 0 || lowers.len() == 0 {
        None
    } else if contains_seq(lowers[0], "gpu"@) {
        Some(split(items[0], ':').last())
    } else {
        gpu_in_items_lowered(items.drop_first(), lowers.drop_first())
    }
}

/// The GPU count that a `Tres...` value gives, with the value and each of its
/// comma-separated items already lower-cased (`lower` and `item_lowers`).
pub open spec fn gpu_in_lowered(
    val: Seq<char>,
    lower: Seq<char>,
    item_lowers: Seq<Seq<char>>,
) -> Option<Seq<char>> {
    if contains_seq(lower, "gpu"@) {
        gpu_in_items_lowered(split(val, ','), item_lowers)
    } else {
        None
    }
}

proof fn lemma_items_lowered(items: Seq<Seq<char>>, lowers: Seq<Seq<char>>)
    requires
        lowers.len() == items.len(),
        forall|i: int| 0 <= i < items.len() ==> lowers[i] == lowercase(#[trigger] items[i]),
    ensures
        gpu_in_items_lowered(items, lowers) == gpu_in_items(items),
    decreases items.len(),
{
    if items.len() > 0 {
        assert(lowers[0] == lowercase(items[0]));
        assert forall|i: int| 0 <= i < items.drop_first().len() implies lowers.drop_first()[i]
            == lowercase(#[trigger] items.drop_first()[i]) by {
            assert(items.drop_first()[i] == items[i + 1]);
        }
        lemma_items_lowered(items.drop_first(), lowers.drop_first());
    }
}

/// The GPU count of a `Tres...` value from its lower-cased forms (see
/// `gpu_in_lowered`): what follows the last `:` of the first item that mentions a GPU.
pub fn gpu_count_lowered(val: &Vec<char>, lower: &Vec<char>, item_lowers: &Vec<Vec<char>>) -> (r:
    Option<Vec<char>>)
    ensures
        match r {
            Some(c) => gpu_in_lowered(val@, lower@, seqs(item_lowers@)) == Some(c@),
            None => gpu_in_lowered(val@, lower@, seqs(item_lowers@)) is None,
        },
{
    broadcast use lemma_split_len;

    if !contains_str(lower, "gpu") {
        return None;
    }
    let items = split_chars(val, ',');
    let mut i: usize = 0;
    assert(seqs(items@).skip(0) == seqs(items@));
    assert(seqs(item_lowers@).skip(0) == seqs(item_lowers@));
    while i < items.len() && i < item_lowers.len()
        invariant
            i <= items.len(),
            i <= item_lowers.len(),
            contains_seq(lower@, "gpu"@),
            seqs(items@) == split(val@, ','),
            gpu_in_items_lowered(split(val@, ','), seqs(item_lowers@)) == gpu_in_items_lowered(
                seqs(items@).skip(i as int),
                seqs(item_lowers@).skip(i as int),
            ),
        decreases items.len() - i,
    {
        let ghost rest = seqs(items@).skip(i as int);
        let ghost lrest = seqs(item_lowers@).skip(i as int);
        assert(rest[0] == items@[i as int]@);
        assert(lrest[0] == item_lowers@[i as int]@);
        assert(rest.drop_first() == seqs(items@).skip(i + 1));
        assert(lrest.drop_first() == seqs(item_lowers@).skip(i + 1));
        if contains_str(&item_lowers[i], "gpu") {
            let item = &items[i];
            let parts = split_chars(item, ':');
            proof {
                lemma_split_len(item@, ':');
            }
            let last = &parts[parts.len() - 1];
            assert(last@ == seqs(parts@).last());
            assert(last@.subrange(0, last@.len() as int) == last@);
            return Some(slice_of(last, 0, last.len()));
        }
        i = i + 1;
    }
    proof {
        if i >= items.len() {
            assert(seqs(items@).skip(i as int).len() == 0);
        } else {
            assert(seqs(item_lowers@).skip(i as int).len() == 0);
        }
    }
    None
}

fn gpu_in_value_exec(val: &Vec<char>) -> (r: Option<Vec<char>>)
    ensures
        match r {
            Some(c) => gpu_in_value(Some(val@)) == Some(c@),
            None => gpu_in_value(Some(val@)) is None,
        },
{
    let s = string_of(val);
    let low = to_lower(s.as_str());
    let lowv = chars_of(low.as_str());
    let items = split_chars(val, ',');
    let mut lowers: Vec<Vec<char>> = Vec::new();
    let mut i: usize = 0;
    while i < items.len()
        invariant
            i <= items.len(),
            lowers.len() == i,
            forall|k: int| 0 <= k < i ==> seqs(lowers@)[k] == lowercase(#[trigger] seqs(items@)[k]),
        decreases items.len() - i,
    {
        let is = string_of(&items[i]);
        let il = to_lower(is.as_str());
        lowers.push(chars_of(il.as_str()));
        i = i + 1;
    }
    proof {
        lemma_items_lowered(seqs(items@), seqs(lowers@));
    }
    gpu_count_lowered(val, &lowv, &lowers)
}

/// The GPU count a job asks for, read from its `Tres...` fields; empty when none
/// mentions a GPU.
pub fn extract_gpu(fields: &ScontrolFields) -> (r: String)
    ensures
        r@ == gpu_from_keys(fields@, tres_keys()),
{
    let keys: [&str; 4] = ["TresPerNode", "TresPerJob", "TresPerSocket", "TresPerTask"];
    let mut i: usize = 0;
    assert(tres_keys().skip(0) == tres_keys());
    while i < 4
        invariant
            i <= 4,
            keys@ == seq!["TresPerNode", "TresPerJob", "TresPerSocket", "TresPerTask"],
            gpu_from_keys(fields@, tres_keys()) == gpu_from_keys(
                fields@,
                tres_keys().skip(i as int),
            ),
        decreases 4 - i,
    {
        let ghost rest = tres_keys().skip(i as int);
        assert(rest[0] == keys[i as int]@);
        assert(rest.drop_first() == tres_keys().skip(i + 1));
        match fields.get(keys[i]) {
            Some(val) => match gpu_in_value_exec(&val) {
                Some(c) => {
                    return string_of(&c);
                },
                None => {},
            },
            None => {},
        }
        i = i + 1;
    }
    String::new()
}

// ───────────────────────── how GRES counts add up ─────────────────────────

proof fn lemma_split_concat(a: Seq<char>, b: Seq<char>, d: char)
    ensures
        split(a + seq![d] + b, d) == split(a, d) + split(b, d),
    decreases b.len(),
{
    broadcast use lemma_split_len;

    if b.len() == 0 {
        assert(a + seq![d] + b == (a + seq![d]));
        assert((a + seq![d]).drop_last() == a);
        assert(split(b, d) == seq![Seq::<char>::empty()]);
        assert(split(a, d).push(Seq::<char>::empty()) == split(a, d) + seq![Seq::<char>::empty()]);
    } else {
        let b2 = b.drop_last();
        lemma_split_concat(a, b2, d);
        let x = a + seq![d] + b;
        assert(x.drop_last() == a + seq![d] + b2);
        assert(x.last() == b.last());
        let pa = split(a, d);
        let pb = split(b2, d);
        if b.last() == d {
            assert((pa + pb).push(Seq::<char>::empty()) == pa + pb.push(Seq::<char>::empty()));
        } else {
            assert((pa + pb).update((pa + pb).len() - 1, (pa + pb).last().push(b.last())) == pa
                + pb.update(pb.len() - 1, pb.last().push(b.last())));
        }
    }
}

proof fn lemma_gres_sum_concat(x: Seq<Seq<char>>, y: Seq<Seq<char>>, kind: Seq<char>)
    ensures
        gres_sum(x + y, kind) == gres_sum(x, kind) + gres_sum(y, kind),
    decreases y.len(),
{
    if y.len() == 0 {
        assert(x + y == x);
    } else {
        assert((x + y).drop_last() == x + y.drop_last());
        lemma_gres_sum_concat(x, y.drop_last(), kind);
    }
}

proof fn lemma_gres_total_split(g: Seq<char>, kind: Seq<char>)
    ensures
        gres_total(g, kind) == gres_sum(split(g, ','), kind),
{
    if g.len() == 0 {
        assert(split(g, ',') == seq![Seq::<char>::empty()]);
        assert(seq![Seq::<char>::empty()].drop_last() == Seq::<Seq<char>>::empty());
        assert(Seq::<char>::empty().take(first_pos(Seq::<char>::empty(), '(')) == Seq::<char>::empty());
        assert(trim(Seq::<char>::empty()) == Seq::<char>::empty());
        assert(gres_item_count(Seq::<char>::empty(), kind) == 0);
        assert(seq![Seq::<char>::empty()].last() == Seq::<char>::empty());
        assert(gres_sum(Seq::<Seq<char>>::empty(), kind) == 0);
        assert(gres_sum(seq![Seq::<char>::empty()], kind) == gres_sum(
            seq![Seq::<char>::empty()].drop_last(),
            kind,
        ) + gres_item_count(Seq::<char>::empty(), kind));
    } else if g == "(null)"@ {
        reveal_strlit("(null)");
        crate::text::lemma_split_no_delim(g, ',');
        assert(!g.contains(',')) by {
            if g.contains(',') {
                let k = choose|k: int| 0 <= k < g.len() && g[k] == ',';
                assert(g[k] == "(null)"@[k]);
            }
        }
        crate::text::lemma_split_join(g, ',');
        lemma_split_single(g, ',');
        let p = split(g, ',');
        assert(p.drop_last() == Seq::<Seq<char>>::empty());
        crate::text::lemma_first_pos(g, '(', 0);
        assert(g.take(0) == Seq::<char>::empty());
        assert(trim(Seq::<char>::empty()) == Seq::<char>::empty());
        assert(gres_item_count(g, kind) == 0);
        assert(p.last() == g);
        assert(gres_sum(Seq::<Seq<char>>::empty(), kind) == 0);
        assert(gres_sum(p, kind) == gres_sum(p.drop_last(), kind) + gres_item_count(p.last(), kind));
    }
}

proof fn lemma_split_single(s: Seq<char>, d: char)
    requires
        !s.contains(d),
    ensures
        split(s, d) == seq![s],
    decreases s.len(),
{
    if s.len() > 0 {
        assert(!s.drop_last().contains(d)) by {
            if s.drop_last().contains(d) {
                let k = choose|k: int| 0 <= k < s.drop_last().len() && s.drop_last()[k] == d;
                assert(s[k] == d);
            }
        }
        lemma_split_single(s.drop_last(), d);
        assert(s.last() != d) by {
            assert(s[s.len() - 1] == s.last());
        }
        assert(s.drop_last().push(s.last()) == s);
        assert(split(s, d) =~= seq![s]);
    } else {
        assert(s =~= Seq::<char>::empty());
    }
}

/// The resources of `kind` that two `Gres` values list, written one after the other
/// with a comma between, are what each lists, added up.
pub proof fn law_gres_counts_add_up(a: Seq<char>, b: Seq<char>, kind: Seq<char>)
    ensures
        gres_total(a + seq![','] + b, kind) == gres_total(a, kind) + gres_total(b, kind),
{
    lemma_gres_total_split(a + seq![','] + b, kind);
    lemma_gres_total_split(a, kind);
    lemma_gres_total_split(b, kind);
    lemma_split_concat(a, b, ',');
    lemma_gres_sum_concat(split(a, ','), split(b, ','), kind);
}

// ───────────────────────── node states and letter case ─────────────────────────

/// For an ASCII node state, the category does not depend on letter case: the state,
/// the state lower-cased and the state upper-cased (all in ASCII) fall in the same
/// category; and a state naming a drained, down, failed, unresponsive or maintained
/// node is down whatever else it says.
pub proof fn law_state_case_ignored(s: Seq<char>)
    ensures
        state_category(ascii_upper_text(ascii_lower_text(s))) == state_category(ascii_upper_text(s)),
        state_category(ascii_upper_text(ascii_upper_text(s))) == state_category(ascii_upper_text(s)),
        is_ascii_text(ascii_lower_text(s)) == is_ascii_text(s),
        is_ascii_text(ascii_upper_text(s)) == is_ascii_text(s),
        ({
            let u = ascii_upper_text(s);
            contains_seq(u, "DRAIN"@) || contains_seq(u, "DOWN"@) || contains_seq(u, "FAIL"@)
                || contains_seq(u, "NOT_RESPOND"@) || contains_seq(u, "MAINT"@) ==> state_category(
                u,
            ) == StateCat::Down
        }),
{
    assert(ascii_upper_text(ascii_lower_text(s)) =~= ascii_upper_text(s));
    assert(ascii_upper_text(ascii_upper_text(s)) =~= ascii_upper_text(s));
    assert(is_ascii_text(ascii_lower_text(s)) == is_ascii_text(s)) by {
        if is_ascii_text(s) {
            assert forall|i: int| 0 <= i < ascii_lower_text(s).len() implies (
            #[trigger] ascii_lower_text(s)[i] as u32) < 0x80 by {
                assert((s[i] as u32) < 0x80);
            }
        }
        if is_ascii_text(ascii_lower_text(s)) {
            assert forall|i: int| 0 <= i < s.len() implies (#[trigger] s[i] as u32) < 0x80 by {
                assert((ascii_lower_text(s)[i] as u32) < 0x80);
            }
        }
    }
    assert(is_ascii_text(ascii_upper_text(s)) == is_ascii_text(s)) by {
        if is_ascii_text(s) {
            assert forall|i: int| 0 <= i < ascii_upper_text(s).len() implies (
            #[trigger] ascii_upper_text(s)[i] as u32) < 0x80 by {
                assert((s[i] as u32) < 0x80);
            }
        }
        if is_ascii_text(ascii_upper_text(s)) {
            assert forall|i: int| 0 <= i < s.len() implies (#[trigger] s[i] as u32) < 0x80 by {
                assert((ascii_upper_text(s)[i] as u32) < 0x80);
            }
        }
    }
}

// ───────────────────────── which field gives a job's GPUs ─────────────────────────

/// A job's GPU count comes from the first of its `TresPerNode`, `TresPerJob`,
/// `TresPerSocket` and `TresPerTask` fields, in that order, that mentions a GPU,
/// whatever the later ones say; with none it is empty.
pub proof fn law_gpu_field_order(f: Seq<(Seq<char>, Seq<char>)>)
    ensures
        gpu_from_keys(f, tres_keys()) == match gpu_in_value(lookup(f, "TresPerNode"@)) {
            Some(c) => c,
            None => match gpu_in_value(lookup(f, "TresPerJob"@)) {
                Some(c) => c,
                None => match gpu_in_value(lookup(f, "TresPerSocket"@)) {
                    Some(c) => c,
                    None => match gpu_in_value(lookup(f, "TresPerTask"@)) {
                        Some(c) => c,
                        None => Seq::<char>::empty(),
                    },
                },
            },
        },
{
    let k = tres_keys();
    assert(k[0] == "TresPerNode"@);
    assert(k.drop_first()[0] == "TresPerJob"@);
    assert(k.drop_first().drop_first()[0] == "TresPerSocket"@);
    assert(k.drop_first().drop_first().drop_first()[0] == "TresPerTask"@);
    assert(k.drop_first().drop_first().drop_first().drop_first().len() == 0);
    reveal_with_fuel(gpu_from_keys, 5);
}

/// A node state is down when it says drained, down, failing, not responding, in
/// maintenance or powered down; otherwise mixed when it says so, then allocated, then
/// idle; anything else is other.
pub proof fn law_state_category_precedence(st: Seq<char>)
    ensures
        ({
            let down = contains_seq(st, "DRAIN"@) || contains_seq(st, "DOWN"@) || contains_seq(
                st,
                "FAIL"@,
            ) || contains_seq(st, "NOT_RESPOND"@) || contains_seq(st, "MAINT"@) || contains_seq(
                st,
                "POWER_DOWN"@,
            ) || contains_seq(st, "POWERED_DOWN"@);
            &&& down ==> state_category(st) == StateCat::Down
            &&& !down && contains_seq(st, "MIX"@) ==> state_category(st) == StateCat::Mix
            &&& !down && !contains_seq(st, "MIX"@) && contains_seq(st, "ALLOCATED"@)
                ==> state_category(st) == StateCat::Alloc
            &&& !down && !contains_seq(st, "MIX"@) && !contains_seq(st, "ALLOCATED"@)
                && contains_seq(st, "IDLE"@) ==> state_category(st) == StateCat::Idle
            &&& !down && !contains_seq(st, "MIX"@) && !contains_seq(st, "ALLOCATED"@)
                && !contains_seq(st, "IDLE"@) ==> state_category(st) == StateCat::Other
        }),
{
}

} // verus!
