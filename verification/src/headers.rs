//! A small, case-sensitive bag of HTTP header fields.
//!
//! `HttpHeaders` maps header field names to single values. Lookup is exact
//! (byte-for-byte on the field name); setting an existing field overwrites
//! its value and hands the previous one back; removing a field hands its
//! value back. The bag is modelled as a `Map<Seq<char>, Seq<char>>`.

use vstd::prelude::*;

verus! {

/// A mapping from HTTP header field names to single header values.
///
/// Keys are compared case-sensitively. Each key maps to exactly one value.
pub struct HttpHeaders {
    entries: Vec<(String, String)>,
}

/// No two entries of `s` share a field name.
spec fn keys_distinct(s: Seq<(String, String)>) -> bool {
    forall|i: int, j: int| 0 <= i < j < s.len() ==> s[i].0@ != s[j].0@
}

/// The mapping that a sequence of (field, value) entries denotes; later
/// entries win, though a well-formed bag never holds a field twice.
spec fn map_of(s: Seq<(String, String)>) -> Map<Seq<char>, Seq<char>>
    decreases s.len(),
{
    if s.len() == 0 {
        Map::empty()
    } else {
        map_of(s.drop_last()).insert(s.last().0@, s.last().1@)
    }
}

proof fn lemma_map_of_contains(s: Seq<(String, String)>, k: Seq<char>)
    ensures
        map_of(s).contains_key(k) <==> exists|i: int| 0 <= i < s.len() && s[i].0@ == k,
    decreases s.len(),
{
    if s.len() > 0 {
        lemma_map_of_contains(s.drop_last(), k);
        if map_of(s).contains_key(k) {
            if s.last().0@ == k {
                assert(s[s.len() - 1].0@ == k);
            } else {
                let i = choose|i: int| 0 <= i < s.drop_last().len() && s.drop_last()[i].0@ == k;
                assert(s[i].0@ == k);
            }
        }
        if exists|i: int| 0 <= i < s.len() && s[i].0@ == k {
            let i = choose|i: int| 0 <= i < s.len() && s[i].0@ == k;
            if i < s.len() - 1 {
                assert(s.drop_last()[i].0@ == k);
            }
        }
    }
}

proof fn lemma_map_of_get(s: Seq<(String, String)>, i: int)
    requires
        keys_distinct(s),
        0 <= i < s.len(),
    ensures
        map_of(s).contains_key(s[i].0@),
        map_of(s)[s[i].0@] == s[i].1@,
    decreases s.len(),
{
    if i < s.len() - 1 {
        assert(s.drop_last()[i] == s[i]);
        lemma_map_of_get(s.drop_last(), i);
        assert(s[s.len() - 1].0@ != s[i].0@);
    }
}

proof fn lemma_map_of_update(s: Seq<(String, String)>, i: int, p: (String, String))
    requires
        keys_distinct(s),
        0 <= i < s.len(),
        p.0@ == s[i].0@,
    ensures
        keys_distinct(s.update(i, p)),
        map_of(s.update(i, p)) =~= map_of(s).insert(p.0@, p.1@),
{
    let s2 = s.update(i, p);
    assert forall|j: int| 0 <= j < s.len() implies s2[j].0@ == s[j].0@ by {}
    assert forall|k: Seq<char>|
        map_of(s2).contains_key(k) <==> map_of(s).insert(p.0@, p.1@).contains_key(k) by {
        lemma_map_of_contains(s, k);
        lemma_map_of_contains(s2, k);
        if map_of(s).insert(p.0@, p.1@).contains_key(k) && k != p.0@ {
            let j = choose|j: int| 0 <= j < s.len() && s[j].0@ == k;
            assert(s2[j].0@ == k);
        }
    }
    assert forall|k: Seq<char>| map_of(s2).contains_key(k) implies map_of(s2)[k] == map_of(
        s,
    ).insert(p.0@, p.1@)[k] by {
        lemma_map_of_contains(s2, k);
        let j = choose|j: int| 0 <= j < s2.len() && s2[j].0@ == k;
        lemma_map_of_get(s2, j);
        if k == p.0@ {
            assert(j == i);
        } else {
            assert(s[j].0@ == k);
            lemma_map_of_get(s, j);
        }
    }
}

proof fn lemma_map_of_push(s: Seq<(String, String)>, p: (String, String))
    requires
        keys_distinct(s),
        forall|i: int| 0 <= i < s.len() ==> s[i].0@ != p.0@,
    ensures
        keys_distinct(s.push(p)),
        map_of(s.push(p)) == map_of(s).insert(p.0@, p.1@),
{
    let s2 = s.push(p);
    assert(s2.drop_last() =~= s);
    assert forall|i: int, j: int| 0 <= i < j < s2.len() implies s2[i].0@ != s2[j].0@ by {
        if j < s2.len() - 1 {
            assert(s2[i] == s[i] && s2[j] == s[j]);
        } else {
            assert(s2[i] == s[i] && s2[j] == p);
        }
    }
}

proof fn lemma_map_of_remove(s: Seq<(String, String)>, i: int)
    requires
        keys_distinct(s),
        0 <= i < s.len(),
    ensures
        keys_distinct(s.remove(i)),
        map_of(s.remove(i)) =~= map_of(s).remove(s[i].0@),
{
    let s2 = s.remove(i);
    s.remove_ensures(i);
    assert forall|a: int, b: int| 0 <= a < b < s2.len() implies s2[a].0@ != s2[b].0@ by {
        let a0 = if a < i { a } else { a + 1 };
        let b0 = if b < i { b } else { b + 1 };
        assert(s2[a] == s[a0] && s2[b] == s[b0]);
    }
    assert forall|k: Seq<char>|
        map_of(s2).contains_key(k) <==> map_of(s).remove(s[i].0@).contains_key(k) by {
        lemma_map_of_contains(s, k);
        lemma_map_of_contains(s2, k);
        if map_of(s2).contains_key(k) {
            let j = choose|j: int| 0 <= j < s2.len() && s2[j].0@ == k;
            let j0 = if j < i { j } else { j + 1 };
            assert(s[j0].0@ == k);
            assert(k != s[i].0@);
        }
        if map_of(s).remove(s[i].0@).contains_key(k) {
            let j = choose|j: int| 0 <= j < s.len() && s[j].0@ == k;
            let j2 = if j < i { j } else { j - 1 };
            assert(s2[j2].0@ == k);
        }
    }
    assert forall|k: Seq<char>| map_of(s2).contains_key(k) implies map_of(s2)[k] == map_of(
        s,
    ).remove(s[i].0@)[k] by {
        lemma_map_of_contains(s2, k);
        let j = choose|j: int| 0 <= j < s2.len() && s2[j].0@ == k;
        lemma_map_of_get(s2, j);
        let j0 = if j < i { j } else { j + 1 };
        assert(s[j0].0@ == k);
        lemma_map_of_get(s, j0);
    }
}

impl View for HttpHeaders {
    type V = Map<Seq<char>, Seq<char>>;

    closed spec fn view(&self) -> Map<Seq<char>, Seq<char>> {
        map_of(self.entries@)
    }
}

impl HttpHeaders {
    /// The bag never holds the same field name twice.
    pub closed spec fn wf(&self) -> bool {
        keys_distinct(self.entries@)
    }

    /// The current value of `field`, or `None` if the field is absent.
    pub fn get<'a>(&'a self, field: &str) -> (r: Option<&'a String>)
        requires
            self.wf(),
        ensures
            r is Some <==> self@.contains_key(field@),
            r matches Some(v) ==> v@ == self@[field@],
    {
        let key: String = field.to_owned();
        let n = self.entries.len();
        let mut i: usize = 0;
        while i < n
            invariant
                self.wf(),
                key@ == field@,
                n == self.entries@.len(),
                0 <= i <= n,
                forall|j: int| 0 <= j < i ==> self.entries@[j].0@ != field@,
            decreases n - i,
        {
            if self.entries[i].0 == key {
                proof {
                    lemma_map_of_get(self.entries@, i as int);
                }
                return Some(&self.entries[i].1);
            }
            i = i + 1;
        }
        proof {
            lemma_map_of_contains(self.entries@, field@);
        }
        None
    }

    /// Inserts or overwrites `field` with `value`; hands back the value the
    /// field held before, or `None` if the field was absent.
    pub fn set(&mut self, field: &str, value: String) -> (r: Option<String>)
        requires
            old(self).wf(),
        ensures
            final(self).wf(),
            final(self)@ == old(self)@.insert(field@, value@),
            r is Some <==> old(self)@.contains_key(field@),
            r matches Some(v) ==> v@ == old(self)@[field@],
    {
        let key: String = field.to_owned();
        let n = self.entries.len();
        let mut i: usize = 0;
        while i < n
            invariant
                self == old(self),
                self.wf(),
                key@ == field@,
                n == self.entries@.len(),
                0 <= i <= n,
                forall|j: int| 0 <= j < i ==> self.entries@[j].0@ != field@,
            decreases n - i,
        {
            if self.entries[i].0 == key {
                let previous = self.entries[i].1.clone();
                self.entries[i].1 = value;
                proof {
                    assert(self.entries@ =~= old(self).entries@.update(
                        i as int,
                        (old(self).entries@[i as int].0, self.entries@[i as int].1),
                    ));
                    lemma_map_of_update(
                        old(self).entries@,
                        i as int,
                        (old(self).entries@[i as int].0, self.entries@[i as int].1),
                    );
                    lemma_map_of_get(old(self).entries@, i as int);
                }
                return Some(previous);
            }
            i = i + 1;
        }
        self.entries.push((key, value));
        proof {
            lemma_map_of_push(old(self).entries@, self.entries@.last());
            lemma_map_of_contains(old(self).entries@, field@);
        }
        None
    }

    /// Removes `field`; hands back the value it held, or `None` if the field
    /// was absent.
    pub fn unset(&mut self, field: &str) -> (r: Option<String>)
        requires
            old(self).wf(),
        ensures
            final(self).wf(),
            final(self)@ == old(self)@.remove(field@),
            r is Some <==> old(self)@.contains_key(field@),
            r matches Some(v) ==> v@ == old(self)@[field@],
    {
        let key: String = field.to_owned();
        let n = self.entries.len();
        let mut i: usize = 0;
        while i < n
            invariant
                self == old(self),
                self.wf(),
                key@ == field@,
                n == self.entries@.len(),
                0 <= i <= n,
                forall|j: int| 0 <= j < i ==> self.entries@[j].0@ != field@,
            decreases n - i,
        {
            if self.entries[i].0 == key {
                let removed = self.entries.remove(i);
                proof {
                    lemma_map_of_remove(old(self).entries@, i as int);
                    lemma_map_of_get(old(self).entries@, i as int);
                }
                return Some(removed.1);
            }
            i = i + 1;
        }
        proof {
            lemma_map_of_contains(self.entries@, field@);
            assert(self@.remove(field@) =~= self@);
        }
        None
    }

    /// An iterator over the bag's (field, value) pairs, each distinct field
    /// appearing exactly once. Iteration order is unspecified. The iterator
    /// holds its own copy of the pairs: mutating the bag afterwards does not
    /// affect it.
    pub fn iter(&self) -> (r: HttpHeadersIterator)
        requires
            self.wf(),
        ensures
            r.wf(),
            covers_exactly(r.remaining(), self@),
    {
        let n = self.entries.len();
        let mut pairs: Vec<(String, String)> = Vec::new();
        let mut i: usize = 0;
        while i < n
            invariant
                n == self.entries@.len(),
                0 <= i <= n,
                pairs@.len() == i,
                forall|j: int| 0 <= j < i ==> pairs@[j] == self.entries@[j],
            decreases n - i,
        {
            let e = &self.entries[i];
            pairs.push((e.0.clone(), e.1.clone()));
            i = i + 1;
        }
        let r = HttpHeadersIterator { pairs, pos: 0 };
        proof {
            let views = r.pairs@.map_values(|p: (String, String)| (p.0@, p.1@));
            assert(r.remaining() =~= views);
            lemma_map_of_dom_len(self.entries@);
            assert forall|j: int| 0 <= j < views.len() implies self@.contains_key(
                #[trigger] views[j].0,
            ) && self@[views[j].0] == views[j].1 by {
                assert(views[j] == (self.entries@[j].0@, self.entries@[j].1@));
                lemma_map_of_get(self.entries@, j);
            }
            assert forall|a: int, b: int| 0 <= a < b < views.len() implies views[a].0
                != views[b].0 by {
                assert(views[a].0 == self.entries@[a].0@ && views[b].0 == self.entries@[b].0@);
            }
            assert forall|k: Seq<char>| self@.contains_key(k) implies exists|j: int|
                0 <= j < views.len() && #[trigger] views[j].0 == k by {
                lemma_map_of_contains(self.entries@, k);
                let j = choose|j: int| 0 <= j < self.entries@.len() && self.entries@[j].0@ == k;
                assert(views[j].0 == k);
            }
        }
        r
    }
}

/// After `set(f, v)` on a bag whose view is `m`, the view is `m.insert(f, v)`
/// and `get(f)` yields `v`.
pub proof fn lemma_set_then_get(m: Map<Seq<char>, Seq<char>>, f: Seq<char>, v: Seq<char>)
    ensures
        m.insert(f, v).contains_key(f),
        m.insert(f, v)[f] == v,
{
}

/// Setting `f` twice: the second `set` finds the first value `v1` in place —
/// so it hands `v1` back — and afterwards `get(f)` yields `v2`.
pub proof fn lemma_set_overwrites(
    m: Map<Seq<char>, Seq<char>>,
    f: Seq<char>,
    v1: Seq<char>,
    v2: Seq<char>,
)
    ensures
        m.insert(f, v1).contains_key(f),
        m.insert(f, v1)[f] == v1,
        m.insert(f, v1).insert(f, v2).contains_key(f),
        m.insert(f, v1).insert(f, v2)[f] == v2,
{
}

/// After `set(f, v)` then `unset(f)`, the `unset` finds `v` in place — so it
/// hands `v` back — and afterwards `get(f)` yields `None`.
pub proof fn lemma_set_then_unset(m: Map<Seq<char>, Seq<char>>, f: Seq<char>, v: Seq<char>)
    ensures
        m.insert(f, v).contains_key(f),
        m.insert(f, v)[f] == v,
        !m.insert(f, v).remove(f).contains_key(f),
{
}

/// For a field `f` that a bag with view `m` does not hold, `get(f)` yields
/// `None`, and `unset(f)` yields `None` and leaves the bag as it was.
pub proof fn lemma_absent_field(m: Map<Seq<char>, Seq<char>>, f: Seq<char>)
    requires
        !m.contains_key(f),
    ensures
        m.remove(f) == m,
{
    assert(m.remove(f) =~= m);
}

impl Clone for HttpHeaders {
    /// An independent copy holding the same fields and values.
    fn clone(&self) -> (r: Self)
        ensures
            r@ == self@,
            r.wf() == self.wf(),
    {
        let n = self.entries.len();
        let mut entries: Vec<(String, String)> = Vec::new();
        let mut i: usize = 0;
        while i < n
            invariant
                n == self.entries@.len(),
                0 <= i <= n,
                entries@.len() == i,
                forall|j: int| 0 <= j < i ==> entries@[j] == self.entries@[j],
            decreases n - i,
        {
            let e = &self.entries[i];
            entries.push((e.0.clone(), e.1.clone()));
            i = i + 1;
        }
        proof {
            assert(entries@ =~= self.entries@);
        }
        HttpHeaders { entries }
    }
}

/// `pairs` lists the contents of `m`: one pair per distinct key of `m`, each
/// carrying that key's value, and nothing else.
pub open spec fn covers_exactly(
    pairs: Seq<(Seq<char>, Seq<char>)>,
    m: Map<Seq<char>, Seq<char>>,
) -> bool {
    &&& pairs.len() == m.dom().len()
    &&& forall|i: int|
        0 <= i < pairs.len() ==> m.contains_key(#[trigger] pairs[i].0) && m[pairs[i].0]
            == pairs[i].1
    &&& forall|i: int, j: int| 0 <= i < j < pairs.len() ==> pairs[i].0 != pairs[j].0
    &&& forall|k: Seq<char>|
        m.contains_key(k) ==> exists|i: int| 0 <= i < pairs.len() && #[trigger] pairs[i].0 == k
}

proof fn lemma_map_of_dom_len(s: Seq<(String, String)>)
    requires
        keys_distinct(s),
    ensures
        map_of(s).dom().finite(),
        map_of(s).dom().len() == s.len(),
    decreases s.len(),
{
    if s.len() > 0 {
        lemma_map_of_dom_len(s.drop_last());
        lemma_map_of_contains(s.drop_last(), s.last().0@);
        assert(forall|i: int|
            0 <= i < s.drop_last().len() ==> #[trigger] s.drop_last()[i].0@ != s.last().0@);
    }
}

/// Yields each (field, value) pair of a bag once; see [`HttpHeaders::iter`].
pub struct HttpHeadersIterator {
    pairs: Vec<(String, String)>,
    pos: usize,
}

impl HttpHeadersIterator {
    /// The pairs, as field and value views, that the iterator has not yet
    /// yielded.
    pub closed spec fn remaining(&self) -> Seq<(Seq<char>, Seq<char>)> {
        self.pairs@.map_values(|p: (String, String)| (p.0@, p.1@)).skip(self.pos as int)
    }

    pub closed spec fn wf(&self) -> bool {
        self.pos <= self.pairs@.len()
    }

    /// The next pair, as owned strings, or `None` once the bag is exhausted.
    pub fn next(&mut self) -> (r: Option<(String, String)>)
        requires
            old(self).wf(),
        ensures
            final(self).wf(),
            old(self).remaining().len() == 0 ==> r is None && final(self).remaining()
                == old(self).remaining(),
            old(self).remaining().len() > 0 ==> {
                &&& r matches Some(p) && (p.0@, p.1@) == old(self).remaining()[0]
                &&& final(self).remaining() == old(self).remaining().skip(1)
            },
    {
        if self.pos < self.pairs.len() {
            let p = &self.pairs[self.pos];
            let item = (p.0.clone(), p.1.clone());
            self.pos = self.pos + 1;
            proof {
                let views = old(self).pairs@.map_values(|q: (String, String)| (q.0@, q.1@));
                assert(views[old(self).pos as int] == (p.0@, p.1@));
                assert(self.remaining() =~= old(self).remaining().skip(1));
            }
            Some(item)
        } else {
            None
        }
    }
}

impl Default for HttpHeaders {
    /// An empty bag.
    fn default() -> (r: Self)
        ensures
            r.wf(),
            r@ == Map::<Seq<char>, Seq<char>>::empty(),
    {
        HttpHeaders { entries: Vec::new() }
    }
}

} // verus!
