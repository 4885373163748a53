//! Tab completion of paths: the pattern to look for, and how the paths found are
//! shown and ordered. Looking on disk is left to the caller.
use vstd::prelude::*;
use crate::app::{expand_home, expand_home_spec};
use crate::history::strings_of;
use crate::nodes::{compare_text, lemma_text_lt_irrefl, lemma_text_lt_total, lemma_text_lt_trans, text_lt};
use crate::text::{chars_of, extend_str, string_of};

verus! {

broadcast use vstd::string::group_string_axioms;

/// A path that starts at the root.
pub open spec fn is_absolute_path(p: Seq<char>) -> bool {
    p.len() > 0 && p[0] == '/'
}

pub open spec fn opt_view(o: Option<&str>) -> Option<Seq<char>> {
    match o {
        Some(s) => Some(s@),
        None => None,
    }
}

/// What to look for when completing `text`: `~` expanded, taken relative to `cwd`
/// unless absolute, followed by `*`.
pub open spec fn completion_pattern_spec(
    text: Seq<char>,
    cwd: Option<Seq<char>>,
    home: Option<Seq<char>>,
) -> Seq<char> {
    let e = expand_home_spec(text, home);
    let full = if !is_absolute_path(e) && cwd is Some {
        cwd->0 + seq!['/'] + e
    } else {
        e
    };
    full.push('*')
}

/// See `completion_pattern_spec`.
pub fn completion_pattern(text: &str, cwd: Option<&str>, home: Option<&str>) -> (r: String)
    ensures
        r@ == completion_pattern_spec(text@, opt_view(cwd), opt_view(home)),
{
    let e = expand_home(text, home);
    let ev = chars_of(e.as_str());
    let absolute = ev.len() > 0 && ev[0] == '/';
    let mut out: Vec<char> = Vec::new();
    match cwd {
        Some(c) => {
            if !absolute {
                extend_str(&mut out, c);
                out.push('/');
            }
        },
        None => {},
    }
    extend_str(&mut out, e.as_str());
    out.push('*');
    assert(out@ =~= completion_pattern_spec(text@, opt_view(cwd), opt_view(home)));
    string_of(&out)
}

/// What `Path::strip_prefix` gives for `path` and `base`: the rest of the path when
/// `base` is a leading run of its components.
pub uninterp spec fn path_strip(path: Seq<char>, base: Seq<char>) -> Option<Seq<char>>;

/// std's `Path::strip_prefix`; the result is a function of the two paths alone.
#[verifier::external_body]
fn strip_path_prefix(path: &str, base: &str) -> (r: Option<String>)
    ensures
        match r {
            Some(s) => path_strip(path@, base@) == Some(s@),
            None => path_strip(path@, base@) is None,
        },
{
    std::path::Path::new(path).strip_prefix(base).ok().map(|p| p.to_string_lossy().into_owned())
}

/// How a path found for `text` is shown: relative to `cwd` when `text` is relative
/// and `stripped` (the path with `cwd` taken off) is known, else as found; a
/// directory gets a trailing `/`.
pub open spec fn shown_spec(
    text: Seq<char>,
    cwd: Option<Seq<char>>,
    entry: Seq<char>,
    stripped: Option<Seq<char>>,
    is_dir: bool,
) -> Seq<char> {
    let base = if !is_absolute_path(text) && cwd is Some {
        match stripped {
            Some(r) => r,
            None => entry,
        }
    } else {
        entry
    };
    if is_dir {
        base.push('/')
    } else {
        base
    }
}

/// See `shown_spec`.
pub fn shown_completion(
    text: &str,
    cwd: Option<&str>,
    entry: &str,
    stripped: Option<&str>,
    is_dir: bool,
) -> (r: String)
    ensures
        r@ == shown_spec(text@, opt_view(cwd), entry@, opt_view(stripped), is_dir),
{
    let tv = chars_of(text);
    let relative = !(tv.len() > 0 && tv[0] == '/');
    let mut out: Vec<char> = Vec::new();
    if relative && cwd.is_some() && stripped.is_some() {
        match stripped {
            Some(r) => extend_str(&mut out, r),
            None => {},
        }
    } else {
        extend_str(&mut out, entry);
    }
    if is_dir {
        out.push('/');
    }
    assert(out@ =~= shown_spec(text@, opt_view(cwd), entry@, opt_view(stripped), is_dir));
    string_of(&out)
}

/// How the path `entry` found for `text` is shown (see `shown_spec`).
pub fn completion_display(text: &str, cwd: Option<&str>, entry: &str, is_dir: bool) -> (r: String)
    ensures
        r@ == shown_spec(
            text@,
            opt_view(cwd),
            entry@,
            match cwd {
                Some(c) => path_strip(entry@, c@),
                None => None,
            },
            is_dir,
        ),
{
    match cwd {
        Some(c) => {
            let stripped = strip_path_prefix(entry, c);
            match stripped {
                Some(s) => shown_completion(text, cwd, entry, Some(s.as_str()), is_dir),
                None => shown_completion(text, cwd, entry, None, is_dir),
            }
        },
        None => shown_completion(text, cwd, entry, None, is_dir),
    }
}

// ───────────────────────── ordering ─────────────────────────

/// The texts in order: none is before one that precedes it.
pub open spec fn sorted_texts(s: Seq<Seq<char>>) -> bool {
    forall|i: int, j: int| 0 <= i < j < s.len() ==> !text_lt(#[trigger] s[j], #[trigger] s[i])
}

proof fn lemma_lt_asym(a: Seq<char>, b: Seq<char>)
    requires
        text_lt(a, b),
    ensures
        !text_lt(b, a),
{
    if text_lt(b, a) {
        lemma_text_lt_trans(a, b, a);
        lemma_text_lt_irrefl(a);
    }
}

/// `v` in the order of `text_lt` (character by character, a prefix first), which is
/// the order strings compare in.
pub fn sort_texts(v: Vec<String>) -> (r: Vec<String>)
    ensures
        sorted_texts(strings_of(r@)),
        strings_of(r@).to_multiset() =~= strings_of(v@).to_multiset(),
{
    broadcast use vstd::seq_lib::group_to_multiset_ensures;

    let mut out: Vec<String> = Vec::new();
    let mut i: usize = 0;
    assert(strings_of(v@).take(0) =~= Seq::<Seq<char>>::empty());
    assert(strings_of(out@) =~= Seq::<Seq<char>>::empty());
    while i < v.len()
        invariant
            i <= v.len(),
            sorted_texts(strings_of(out@)),
            strings_of(out@).to_multiset() =~= strings_of(v@).take(i as int).to_multiset(),
        decreases v.len() - i,
    {
        let x = v[i].clone();
        let xc = chars_of(x.as_str());
        let ghost s = strings_of(out@);
        let mut k: usize = 0;
        while k < out.len() && compare_text(&chars_of(out[k].as_str()), &xc) != 1
            invariant
                k <= out.len(),
                s == strings_of(out@),
                xc@ == x@,
                forall|j: int| 0 <= j < k ==> !text_lt(x@, #[trigger] s[j]),
            decreases out.len() - k,
        {
            assert(s[k as int] == out@[k as int]@);
            k = k + 1;
        }
        proof {
            if k < out.len() {
                assert(s[k as int] == out@[k as int]@);
                assert(text_lt(x@, s[k as int]));
            }
        }
        let ghost xv = x@;
        out.insert(k, x);
        proof {
            let s2 = strings_of(out@);
            assert(s2 =~= s.insert(k as int, xv));
            assert forall|a: int, b: int| 0 <= a < b < s2.len() implies !text_lt(
                #[trigger] s2[b],
                #[trigger] s2[a],
            ) by {
                if a == k {
                    // s2[b] == s[b - 1], at or after the first text above x.
                    assert(s2[b] == s[b - 1]);
                    assert(text_lt(xv, s[k as int]));
                    if b - 1 > k {
                        lemma_text_lt_total(s[k as int], s[b - 1]);
                        if text_lt(s[k as int], s[b - 1]) {
                            lemma_text_lt_trans(xv, s[k as int], s[b - 1]);
                        }
                    }
                    lemma_lt_asym(xv, s[b - 1]);
                } else if b == k {
                    assert(s2[a] == s[a]);
                } else if a < k && b > k {
                    assert(s2[a] == s[a]);
                    assert(s2[b] == s[b - 1]);
                } else if b < k {
                    assert(s2[a] == s[a]);
                    assert(s2[b] == s[b]);
                } else {
                    assert(s2[a] == s[a - 1]);
                    assert(s2[b] == s[b - 1]);
                }
            }
            assert(strings_of(v@).take(i + 1) =~= strings_of(v@).take(i as int).push(xv));
            vstd::seq_lib::to_multiset_insert(s, k as int, xv);
            vstd::seq_lib::to_multiset_build(strings_of(v@).take(i as int), xv);
        }
        i = i + 1;
    }
    assert(strings_of(v@).take(v.len() as int) =~= strings_of(v@));
    out
}

/// The completions of `text`: each path found (with whether it is a directory)
/// shown as `completion_display` shows it, in order.
pub fn completions(text: &str, cwd: Option<&str>, found: &Vec<(String, bool)>) -> (r: Vec<String>)
    ensures
        sorted_texts(strings_of(r@)),
        strings_of(r@).to_multiset() =~= Seq::new(
            found@.len(),
            |i: int|
                shown_spec(
                    text@,
                    opt_view(cwd),
                    found@[i].0@,
                    match cwd {
                        Some(c) => path_strip(found@[i].0@, c@),
                        None => None,
                    },
                    found@[i].1,
                ),
        ).to_multiset(),
{
    let ghost want = Seq::new(
        found@.len(),
        |i: int|
            shown_spec(
                text@,
                opt_view(cwd),
                found@[i].0@,
                match cwd {
                    Some(c) => path_strip(found@[i].0@, c@),
                    None => None,
                },
                found@[i].1,
            ),
    );
    let mut shown: Vec<String> = Vec::new();
    let mut i: usize = 0;
    while i < found.len()
        invariant
            i <= found.len(),
            want == Seq::new(
                found@.len(),
                |i: int|
                    shown_spec(
                        text@,
                        opt_view(cwd),
                        found@[i].0@,
                        match cwd {
                            Some(c) => path_strip(found@[i].0@, c@),
                            None => None,
                        },
                        found@[i].1,
                    ),
            ),
            shown@.len() == i,
            forall|j: int| 0 <= j < i ==> (#[trigger] shown@[j])@ == want[j],
        decreases found.len() - i,
    {
        shown.push(completion_display(text, cwd, found[i].0.as_str(), found[i].1));
        i = i + 1;
    }
    assert(strings_of(shown@) =~= want);
    sort_texts(shown)
}

} // verus!
