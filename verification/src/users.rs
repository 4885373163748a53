//! User names for numeric user ids, remembered once resolved.
use vstd::prelude::*;
use crate::text::{
    all_digits, all_digits_exec, chars_of, find_char, first_pos, lemma_split_len, seqs, slice_of,
    split, split_chars, starts_with, starts_with_str, string_of, trim_end_char,
    trim_end_char_bound,
};
use crate::scontrol::{last_position, lookup, pairs_view};

verus! {

broadcast use vstd::string::group_string_axioms;

/// Resolved user ids: a later entry for an id overrides an earlier one.
pub struct UidCache {
    pub entries: Vec<(Vec<char>, Vec<char>)>,
}

impl View for UidCache {
    type V = Seq<(Seq<char>, Seq<char>)>;

    open spec fn view(&self) -> Seq<(Seq<char>, Seq<char>)> {
        pairs_view(self.entries@)
    }
}

/// `new` answers `v` for `k` and what `old` answers for every other key.
pub open spec fn assigned(
    old: Seq<(Seq<char>, Seq<char>)>,
    new: Seq<(Seq<char>, Seq<char>)>,
    k: Seq<char>,
    v: Seq<char>,
) -> bool {
    forall|q: Seq<char>|
        #![trigger lookup(new, q)]
        lookup(new, q) == if q == k {
            Some(v)
        } else {
            lookup(old, q)
        }
}

proof fn lemma_lookup_push(s: Seq<(Seq<char>, Seq<char>)>, k: Seq<char>, v: Seq<char>)
    ensures
        assigned(s, s.push((k, v)), k, v),
{
    assert(s.push((k, v)).drop_last() == s);
}

proof fn lemma_lookup_update(s: Seq<(Seq<char>, Seq<char>)>, i: int, v: Seq<char>)
    requires
        0 <= i < s.len(),
        forall|j: int| i < j < s.len() ==> #[trigger] s[j].0 != s[i].0,
    ensures
        assigned(s, s.update(i, (s[i].0, v)), s[i].0, v),
    decreases s.len(),
{
    let u = s.update(i, (s[i].0, v));
    let key = s[i].0;
    if i == s.len() - 1 {
        assert(u.drop_last() == s.drop_last());
        assert(u.last() == (key, v));
        assert forall|q: Seq<char>| #![trigger lookup(u, q)] lookup(u, q) == if q == key {
            Some(v)
        } else {
            lookup(s, q)
        } by {
            if q != key {
                assert(s.last().0 == key);
            }
        }
    } else {
        let s2 = s.drop_last();
        let u2 = s2.update(i, (key, v));
        assert(u.drop_last() == u2);
        assert(u.last() == s.last());
        assert(s2[i] == s[i]);
        assert forall|j: int| i < j < s2.len() implies #[trigger] s2[j].0 != s2[i].0 by {
            assert(s2[j] == s[j]);
        }
        lemma_lookup_update(s2, i, v);
        assert(s.last().0 != key);
        assert forall|q: Seq<char>| #![trigger lookup(u, q)] lookup(u, q) == if q == key {
            Some(v)
        } else {
            lookup(s, q)
        } by {
            assert(lookup(u2, q) == if q == key {
                Some(v)
            } else {
                lookup(s2, q)
            });
        }
    }
}

impl UidCache {
    pub fn new() -> (c: UidCache)
        ensures
            c@ == Seq::<(Seq<char>, Seq<char>)>::empty(),
    {
        UidCache { entries: Vec::new() }
    }

    /// The name remembered for `uid`.
    pub fn get(&self, uid: &Vec<char>) -> (r: Option<Vec<char>>)
        ensures
            match r {
                Some(n) => lookup(self@, uid@) == Some(n@),
                None => lookup(self@, uid@) is None,
            },
    {
        match last_position(&self.entries, uid) {
            Some(i) => Some(slice_of(&self.entries[i].1, 0, self.entries[i].1.len())),
            None => None,
        }
    }

    /// Remembers `name` for `uid`.
    pub fn set(&mut self, uid: &Vec<char>, name: &Vec<char>)
        ensures
            assigned(old(self)@, final(self)@, uid@, name@),
    {
        let k = slice_of(uid, 0, uid.len());
        let v = slice_of(name, 0, name.len());
        assert(uid@.subrange(0, uid@.len() as int) == uid@);
        assert(name@.subrange(0, name@.len() as int) == name@);
        match last_position(&self.entries, uid) {
            Some(i) => {
                let ghost s = self@;
                self.entries.set(i, (k, v));
                proof {
                    assert(self@ =~= s.update(i as int, (s[i as int].0, name@)));
                    lemma_lookup_update(s, i as int, name@);
                }
            },
            None => {
                let ghost s = self@;
                self.entries.push((k, v));
                proof {
                    assert(self@ =~= s.push((uid@, name@)));
                    lemma_lookup_push(s, uid@, name@);
                }
            },
        }
    }
}

/// A user field that may need resolving: a non-empty string of digits.
pub open spec fn is_uid(x: Seq<char>) -> bool {
    x.len() > 0 && all_digits(x)
}

/// The name that a `getent passwd` answer gives: what comes before its first `:`;
/// an empty answer or an error gives none.
pub open spec fn getent_name(out: Option<Seq<char>>) -> Option<Seq<char>> {
    match out {
        Some(o) => if o.len() > 0 && !starts_with(o, "Error"@) {
            Some(split(o, ':')[0])
        } else {
            None
        },
        None => None,
    }
}

/// Whether resolving `name_or_uid` needs asking the login node: it is an id, not yet
/// remembered, and a login node is given.
pub fn needs_lookup(cache: &UidCache, name_or_uid: &str, login_node: &str) -> (b: bool)
    ensures
        b == (is_uid(name_or_uid@) && lookup(cache@, name_or_uid@) is None && login_node@.len()
            > 0),
{
    let x = chars_of(name_or_uid);
    let l = chars_of(login_node);
    if x.len() == 0 || !all_digits_exec(&x) || l.len() == 0 {
        return false;
    }
    cache.get(&x).is_none()
}

/// The user name to show for `name_or_uid`. A name is kept as it is; an id is answered
/// from the cache, else from `lookup_output` (the login node's `getent passwd` answer,
/// given when `needs_lookup` said so), else stays the id; what an id resolves to is
/// remembered.
pub fn resolve_user(cache: &mut UidCache, name_or_uid: &str, lookup_output: Option<&str>) -> (r:
    String)
    ensures
        !is_uid(name_or_uid@) ==> r@ == name_or_uid@ && final(cache)@ == old(cache)@,
        is_uid(name_or_uid@) && lookup(old(cache)@, name_or_uid@) is Some ==> r@ == lookup(
            old(cache)@,
            name_or_uid@,
        )->0 && final(cache)@ == old(cache)@,
        is_uid(name_or_uid@) && lookup(old(cache)@, name_or_uid@) is None ==> {
            let out = match lookup_output {
                Some(o) => Some(o@),
                None => None,
            };
            let n = match getent_name(out) {
                Some(n) => n,
                None => name_or_uid@,
            };
            r@ == n && assigned(old(cache)@, final(cache)@, name_or_uid@, n)
        },
{
    broadcast use lemma_split_len;

    let x = chars_of(name_or_uid);
    if x.len() == 0 || !all_digits_exec(&x) {
        return name_or_uid.to_owned();
    }
    if let Some(n) = cache.get(&x) {
        return string_of(&n);
    }
    if let Some(out) = lookup_output {
        let o = chars_of(out);
        if o.len() > 0 && !starts_with_str(&o, "Error") {
            let pieces = split_chars(&o, ':');
            proof {
                lemma_split_len(o@, ':');
            }
            assert(pieces@[0]@ == seqs(pieces@)[0]);
            let name = slice_of(&pieces[0], 0, pieces[0].len());
            assert(pieces@[0]@.subrange(0, pieces@[0]@.len() as int) == pieces@[0]@);
            cache.set(&x, &name);
            return string_of(&name);
        }
    }
    cache.set(&x, &x);
    name_or_uid.to_owned()
}

/// What an `scontrol` `UserId` field such as `alice(1234)` teaches: the name for the id,
/// when the id is a non-empty string of digits and the name is non-empty and not
/// itself all digits.
pub open spec fn userid_pair(field: Seq<char>) -> Option<(Seq<char>, Seq<char>)> {
    let p = first_pos(field, '(');
    if p < field.len() {
        let name = field.take(p);
        let uid = trim_end_char(field.skip(p + 1), ')');
        if is_uid(uid) && name.len() > 0 && !all_digits(name) {
            Some((uid, name))
        } else {
            None
        }
    } else {
        None
    }
}

/// Remembers the name that a `UserId` field gives for its id, if it gives one.
pub fn cache_userid(cache: &mut UidCache, userid_field: &str)
    ensures
        match userid_pair(userid_field@) {
            Some((uid, name)) => assigned(old(cache)@, final(cache)@, uid, name),
            None => final(cache)@ == old(cache)@,
        },
{
    let v = chars_of(userid_field);
    let p = find_char(&v, '(');
    if p < v.len() {
        let name = slice_of(&v, 0, p);
        let b = trim_end_char_bound(&v, p + 1, v.len(), ')');
        assert(v@.subrange(p + 1, v.len() as int) == v@.skip(p + 1));
        let uid = slice_of(&v, p + 1, b);
        if uid.len() > 0 && all_digits_exec(&uid) && name.len() > 0 && !all_digits_exec(&name) {
            cache.set(&uid, &name);
        }
    }
}

} // verus!
