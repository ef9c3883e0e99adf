//! Canonical ordering of map entries: entries are emitted in ascending
//! byte-wise order of their encoded keys, so that two maps with the same
//! contents encode identically whatever order they were filled in.
use vstd::prelude::*;

verus! {

/// An encoded map entry: the bytes of its key and the bytes of its value.
pub type Entry = (Seq<u8>, Seq<u8>);

/// Lexicographic byte order: at the first differing byte the smaller byte
/// wins, and a proper prefix comes first.
pub open spec fn bytes_lt(a: Seq<u8>, b: Seq<u8>) -> bool
    decreases a.len(),
{
    if a.len() == 0 {
        b.len() > 0
    } else if b.len() == 0 {
        false
    } else if a[0] != b[0] {
        a[0] < b[0]
    } else {
        bytes_lt(a.drop_first(), b.drop_first())
    }
}

/// Places `x` after every entry of `t` whose key does not exceed its own,
/// before the first one whose key does.
pub open spec fn insert_entry(t: Seq<Entry>, x: Entry) -> Seq<Entry>
    decreases t.len(),
{
    if t.len() == 0 {
        seq![x]
    } else if bytes_lt(x.0, t[0].0) {
        seq![x] + t
    } else {
        seq![t[0]] + insert_entry(t.drop_first(), x)
    }
}

/// The entries in ascending order of key bytes; entries with equal keys keep
/// their relative order.
pub open spec fn sort_entries(s: Seq<Entry>) -> Seq<Entry>
    decreases s.len(),
{
    if s.len() == 0 {
        s
    } else {
        insert_entry(sort_entries(s.drop_last()), s.last())
    }
}

/// Key and value bytes of every entry, in order.
pub open spec fn flatten_entries(s: Seq<Entry>) -> Seq<u8>
    decreases s.len(),
{
    if s.len() == 0 {
        Seq::empty()
    } else {
        flatten_entries(s.drop_last()) + s.last().0 + s.last().1
    }
}

/// No two entries share key bytes.
pub open spec fn keys_distinct(s: Seq<Entry>) -> bool {
    forall|i: int, j: int| 0 <= i < s.len() && 0 <= j < s.len() && i != j ==> s[i].0 != s[j].0
}

/// Keys strictly ascend.
pub open spec fn strictly_sorted(s: Seq<Entry>) -> bool {
    forall|i: int, j: int| 0 <= i < j < s.len() ==> bytes_lt(#[trigger] s[i].0, #[trigger] s[j].0)
}

/// No byte string precedes itself.
pub proof fn lemma_lt_irreflexive(a: Seq<u8>)
    ensures
        !bytes_lt(a, a),
    decreases a.len(),
{
    if a.len() > 0 {
        lemma_lt_irreflexive(a.drop_first());
    }
}

/// The byte order is transitive.
pub proof fn lemma_lt_transitive(a: Seq<u8>, b: Seq<u8>, c: Seq<u8>)
    requires
        bytes_lt(a, b),
        bytes_lt(b, c),
    ensures
        bytes_lt(a, c),
    decreases a.len(),
{
    if a.len() > 0 && b.len() > 0 && c.len() > 0 && a[0] == b[0] && b[0] == c[0] {
        lemma_lt_transitive(a.drop_first(), b.drop_first(), c.drop_first());
    }
}

/// The byte order is asymmetric.
pub proof fn lemma_lt_asymmetric(a: Seq<u8>, b: Seq<u8>)
    requires
        bytes_lt(a, b),
    ensures
        !bytes_lt(b, a),
    decreases a.len(),
{
    if a.len() > 0 && b.len() > 0 && a[0] == b[0] {
        lemma_lt_asymmetric(a.drop_first(), b.drop_first());
    }
}

/// Two different byte strings are ordered one way or the other.
pub proof fn lemma_lt_total(a: Seq<u8>, b: Seq<u8>)
    requires
        a != b,
    ensures
        bytes_lt(a, b) || bytes_lt(b, a),
    decreases a.len(),
{
    if a.len() > 0 && b.len() > 0 && a[0] == b[0] {
        if a.drop_first() == b.drop_first() {
            assert(a =~= seq![a[0]] + a.drop_first());
            assert(b =~= seq![b[0]] + b.drop_first());
        }
        lemma_lt_total(a.drop_first(), b.drop_first());
    } else if a.len() == 0 && b.len() == 0 {
        assert(a =~= b);
    }
}

/// Inserting puts `x` at the first position whose key exceeds its own.
pub proof fn lemma_insert_at(t: Seq<Entry>, x: Entry, j: int)
    requires
        0 <= j <= t.len(),
        forall|k: int| 0 <= k < j ==> !bytes_lt(x.0, #[trigger] t[k].0),
        j == t.len() || bytes_lt(x.0, t[j].0),
    ensures
        insert_entry(t, x) == t.take(j).push(x) + t.skip(j),
    decreases j,
{
    if t.len() == 0 {
        assert(t.take(j).push(x) + t.skip(j) =~= seq![x]);
    } else if j == 0 {
        assert(t.take(j).push(x) + t.skip(j) =~= seq![x] + t);
    } else {
        let r = t.drop_first();
        assert forall|k: int| 0 <= k < j - 1 implies !bytes_lt(x.0, #[trigger] r[k].0) by {
            assert(r[k] == t[k + 1]);
        }
        lemma_insert_at(r, x, j - 1);
        assert(t.take(j).push(x) + t.skip(j) =~= seq![t[0]] + (r.take(j - 1).push(x) + r.skip(
            j - 1,
        )));
    }
}

/// Inserting keeps the entries and adds `x`.
pub proof fn lemma_insert_contents(t: Seq<Entry>, x: Entry)
    ensures
        insert_entry(t, x).len() == t.len() + 1,
        forall|e: Entry| #[trigger] insert_entry(t, x).contains(e) <==> (t.contains(e) || e == x),
    decreases t.len(),
{
    let r = insert_entry(t, x);
    if t.len() == 0 {
        assert(r[0] == x);
    } else if bytes_lt(x.0, t[0].0) {
        assert forall|e: Entry| r.contains(e) <==> (t.contains(e) || e == x) by {
            if t.contains(e) {
                let i = choose|i: int| 0 <= i < t.len() && t[i] == e;
                assert(r[i + 1] == e);
            }
            if r.contains(e) && e != x {
                let i = choose|i: int| 0 <= i < r.len() && r[i] == e;
                assert(t[i - 1] == e);
            }
            if e == x {
                assert(r[0] == x);
            }
        }
    } else {
        let d = t.drop_first();
        lemma_insert_contents(d, x);
        let rd = insert_entry(d, x);
        assert(r == seq![t[0]] + rd);
        assert forall|e: Entry| r.contains(e) <==> (t.contains(e) || e == x) by {
            if t.contains(e) {
                let i = choose|i: int| 0 <= i < t.len() && t[i] == e;
                if i == 0 {
                    assert(r[0] == e);
                } else {
                    assert(d[i - 1] == e);
                    assert(rd.contains(e));
                    let k = choose|k: int| 0 <= k < rd.len() && rd[k] == e;
                    assert(r[k + 1] == e);
                }
            }
            if e == x {
                assert(rd.contains(e));
                let k = choose|k: int| 0 <= k < rd.len() && rd[k] == e;
                assert(r[k + 1] == e);
            }
            if r.contains(e) {
                let i = choose|i: int| 0 <= i < r.len() && r[i] == e;
                if i == 0 {
                    assert(t[0] == e);
                } else {
                    assert(rd[i - 1] == e);
                    assert(rd.contains(e));
                    if e != x {
                        assert(d.contains(e));
                        let k = choose|k: int| 0 <= k < d.len() && d[k] == e;
                        assert(t[k + 1] == e);
                    }
                }
            }
        }
    }
}

/// Inserting an entry whose key differs from all others into a strictly
/// sorted sequence keeps it strictly sorted.
pub proof fn lemma_insert_sorted(t: Seq<Entry>, x: Entry)
    requires
        strictly_sorted(t),
        forall|k: int| 0 <= k < t.len() ==> (#[trigger] t[k]).0 != x.0,
    ensures
        strictly_sorted(insert_entry(t, x)),
    decreases t.len(),
{
    let r = insert_entry(t, x);
    if t.len() == 0 {
    } else if bytes_lt(x.0, t[0].0) {
        assert forall|i: int, j: int| 0 <= i < j < r.len() implies bytes_lt(
            #[trigger] r[i].0,
            #[trigger] r[j].0,
        ) by {
            if i == 0 {
                if j > 1 {
                    assert(bytes_lt(t[0].0, t[j - 1].0));
                    lemma_lt_transitive(x.0, t[0].0, t[j - 1].0);
                }
            } else {
                assert(r[i] == t[i - 1] && r[j] == t[j - 1]);
            }
        }
    } else {
        let d = t.drop_first();
        assert forall|k: int| 0 <= k < d.len() implies (#[trigger] d[k]).0 != x.0 by {
            assert(d[k] == t[k + 1]);
        }
        lemma_insert_sorted(d, x);
        lemma_insert_contents(d, x);
        let rd = insert_entry(d, x);
        assert(r == seq![t[0]] + rd);
        lemma_lt_total(x.0, t[0].0);
        assert forall|i: int, j: int| 0 <= i < j < r.len() implies bytes_lt(
            #[trigger] r[i].0,
            #[trigger] r[j].0,
        ) by {
            if i == 0 {
                assert(r[j] == rd[j - 1]);
                assert(rd.contains(rd[j - 1]));
                if rd[j - 1] == x {
                } else {
                    assert(d.contains(rd[j - 1]));
                    let k = choose|k: int| 0 <= k < d.len() && d[k] == rd[j - 1];
                    assert(t[k + 1] == d[k]);
                }
            } else {
                assert(r[i] == rd[i - 1] && r[j] == rd[j - 1]);
            }
        }
    }
}

/// Sorting keeps the entries; with distinct keys the result strictly
/// ascends.
pub proof fn lemma_sort_contents(s: Seq<Entry>)
    ensures
        sort_entries(s).len() == s.len(),
        forall|e: Entry| #[trigger] sort_entries(s).contains(e) <==> s.contains(e),
        keys_distinct(s) ==> strictly_sorted(sort_entries(s)),
    decreases s.len(),
{
    if s.len() > 0 {
        let p = s.drop_last();
        lemma_sort_contents(p);
        let sp = sort_entries(p);
        lemma_insert_contents(sp, s.last());
        assert forall|e: Entry| sort_entries(s).contains(e) <==> s.contains(e) by {
            if p.contains(e) {
                let i = choose|i: int| 0 <= i < p.len() && p[i] == e;
                assert(s[i] == e);
            }
            if s.contains(e) {
                let i = choose|i: int| 0 <= i < s.len() && s[i] == e;
                if i < s.len() - 1 {
                    assert(p[i] == e);
                }
            }
        }
        if keys_distinct(s) {
            assert(keys_distinct(p));
            assert forall|k: int| 0 <= k < sp.len() implies (#[trigger] sp[k]).0 != s.last().0 by {
                assert(sp.contains(sp[k]));
                let i = choose|i: int| 0 <= i < p.len() && p[i] == sp[k];
                assert(s[i] == p[i]);
            }
            lemma_insert_sorted(sp, s.last());
        }
    }
}

/// Two strictly sorted sequences with the same entries are equal.
pub proof fn lemma_sorted_unique(a: Seq<Entry>, b: Seq<Entry>)
    requires
        strictly_sorted(a),
        strictly_sorted(b),
        forall|e: Entry| a.contains(e) <==> b.contains(e),
    ensures
        a == b,
    decreases a.len(),
{
    if a.len() == 0 {
        if b.len() > 0 {
            assert(b.contains(b[0]));
        }
        assert(a =~= b);
    } else {
        assert(a.contains(a[0]));
        assert(b.len() > 0);
        assert(b.contains(b[0]));
        let j = choose|j: int| 0 <= j < b.len() && b[j] == a[0];
        let i = choose|i: int| 0 <= i < a.len() && a[i] == b[0];
        if j > 0 {
            assert(bytes_lt(b[0].0, b[j].0));
            if i > 0 {
                assert(bytes_lt(a[0].0, a[i].0));
                lemma_lt_asymmetric(a[0].0, b[0].0);
            } else {
                lemma_lt_irreflexive(a[0].0);
            }
        }
        assert(a[0] == b[0]);
        let da = a.drop_first();
        let db = b.drop_first();
        assert forall|e: Entry| da.contains(e) <==> db.contains(e) by {
            if da.contains(e) {
                let k = choose|k: int| 0 <= k < da.len() && da[k] == e;
                assert(a[k + 1] == e);
                assert(bytes_lt(a[0].0, a[k + 1].0));
                lemma_lt_irreflexive(a[0].0);
                assert(b.contains(e));
                let m = choose|m: int| 0 <= m < b.len() && b[m] == e;
                assert(m != 0);
                assert(db[m - 1] == e);
            }
            if db.contains(e) {
                let k = choose|k: int| 0 <= k < db.len() && db[k] == e;
                assert(b[k + 1] == e);
                assert(bytes_lt(b[0].0, b[k + 1].0));
                lemma_lt_irreflexive(b[0].0);
                assert(a.contains(e));
                let m = choose|m: int| 0 <= m < a.len() && a[m] == e;
                assert(m != 0);
                assert(da[m - 1] == e);
            }
        }
        lemma_sorted_unique(da, db);
        assert(a =~= seq![a[0]] + da);
        assert(b =~= seq![b[0]] + db);
    }
}

/// The byte view of entries held as vectors.
pub open spec fn entries_view(s: Seq<(Vec<u8>, Vec<u8>)>) -> Seq<Entry> {
    s.map_values(|p: (Vec<u8>, Vec<u8>)| (p.0@, p.1@))
}

/// Whether `a` precedes `b` in byte order.
pub fn bytes_less(a: &[u8], b: &[u8]) -> (r: bool)
    ensures
        r == bytes_lt(a@, b@),
{
    let mut i: usize = 0;
    assert(a@.skip(0) =~= a@ && b@.skip(0) =~= b@);
    while i < a.len() && i < b.len() && a[i] == b[i]
        invariant
            i <= a@.len(),
            i <= b@.len(),
            bytes_lt(a@, b@) == bytes_lt(a@.skip(i as int), b@.skip(i as int)),
        decreases a@.len() - i,
    {
        assert(a@.skip(i as int).drop_first() =~= a@.skip(i as int + 1));
        assert(b@.skip(i as int).drop_first() =~= b@.skip(i as int + 1));
        i = i + 1;
    }
    if i < a.len() && i < b.len() {
        a[i] < b[i]
    } else {
        i == a.len() && i < b.len()
    }
}

/// A copy of `pairs` in canonical order.
pub fn sorted_entries(pairs: &Vec<(Vec<u8>, Vec<u8>)>) -> (r: Vec<(Vec<u8>, Vec<u8>)>)
    ensures
        entries_view(r@) == sort_entries(entries_view(pairs@)),
{
    let ghost all = entries_view(pairs@);
    let mut res: Vec<(Vec<u8>, Vec<u8>)> = Vec::new();
    let mut i: usize = 0;
    while i < pairs.len()
        invariant
            i <= pairs@.len(),
            all == entries_view(pairs@),
            entries_view(res@) == sort_entries(all.take(i as int)),
        decreases pairs@.len() - i,
    {
        let key = vstd::slice::slice_to_vec(pairs[i].0.as_slice());
        let value = vstd::slice::slice_to_vec(pairs[i].1.as_slice());
        let ghost t = entries_view(res@);
        let mut j: usize = 0;
        while j < res.len() && !bytes_less(key.as_slice(), res[j].0.as_slice())
            invariant
                j <= res@.len(),
                t == entries_view(res@),
                forall|m: int| 0 <= m < j ==> !bytes_lt(key@, #[trigger] t[m].0),
            decreases res@.len() - j,
        {
            j = j + 1;
        }
        proof {
            lemma_insert_at(t, (key@, value@), j as int);
            assert(all.take(i as int + 1).drop_last() =~= all.take(i as int));
            assert(all[i as int] == (key@, value@));
        }
        res.insert(j, (key, value));
        assert(entries_view(res@) =~= t.take(j as int).push((key@, value@)) + t.skip(j as int));
        i = i + 1;
    }
    assert(all.take(pairs@.len() as int) =~= all);
    res
}

} // verus!
