//! Bencoded values and dictionaries.

use vstd::prelude::*;

verus! {

/// A bencoded value.
#[derive(PartialEq, Eq, Debug)]
pub enum ValuesBencoding {
    String(Vec<u8>),
    Integer(i64),
    List(Vec<ValuesBencoding>),
    Dic(DicValues),
}

/// A bencoded dictionary: its entries, ordered by key.
#[derive(PartialEq, Eq, Debug)]
pub struct DicValues {
    pub entries: Vec<(Vec<u8>, ValuesBencoding)>,
}

/// An error while decoding bencoded bytes.
#[derive(PartialEq, Eq, Debug, Clone, Copy, Structural)]
pub enum ErrorBencoding {
    Integer,
    String,
    List,
    Dic,
    UnexpectedEnd,
    TrailingBytes,
    InvalidType,
}

/// The mathematical value of a bencoded value.
pub enum Bencode {
    Str(Seq<u8>),
    Int(int),
    List(Seq<Bencode>),
    Dict(Seq<(Seq<u8>, Bencode)>),
}

/// The mathematical value of a [`ValuesBencoding`].
pub open spec fn value_model(v: ValuesBencoding) -> Bencode
    decreases v,
{
    match v {
        ValuesBencoding::String(s) => Bencode::Str(s@),
        ValuesBencoding::Integer(i) => Bencode::Int(i as int),
        ValuesBencoding::List(l) => Bencode::List(
            Seq::new(
                l@.len(),
                |i: int|
                    if 0 <= i < l@.len() {
                        value_model(l@[i])
                    } else {
                        Bencode::Int(0)
                    },
            ),
        ),
        ValuesBencoding::Dic(d) => Bencode::Dict(dic_model(d)),
    }
}

/// The entries of a [`DicValues`], as keys and values.
pub open spec fn dic_model(d: DicValues) -> Seq<(Seq<u8>, Bencode)>
    decreases d,
{
    Seq::new(
        d.entries@.len(),
        |i: int|
            if 0 <= i < d.entries@.len() {
                (d.entries@[i].0@, value_model(d.entries@[i].1))
            } else {
                (Seq::empty(), Bencode::Int(0))
            },
    )
}

impl View for ValuesBencoding {
    type V = Bencode;

    open spec fn view(&self) -> Bencode {
        value_model(*self)
    }
}

impl View for DicValues {
    type V = Seq<(Seq<u8>, Bencode)>;

    open spec fn view(&self) -> Seq<(Seq<u8>, Bencode)> {
        dic_model(*self)
    }
}

/// Byte strings ordered lexicographically, a proper prefix first.
pub open spec fn spec_key_lt(a: Seq<u8>, b: Seq<u8>) -> bool
    decreases a.len(),
{
    if a.len() == 0 {
        b.len() > 0
    } else if b.len() == 0 {
        false
    } else if a[0] < b[0] {
        true
    } else if a[0] > b[0] {
        false
    } else {
        spec_key_lt(a.drop_first(), b.drop_first())
    }
}

/// Whether the keys of the entries are strictly increasing.
pub open spec fn spec_keys_sorted(d: Seq<(Seq<u8>, Bencode)>) -> bool {
    forall|i: int, j: int| 0 <= i < j < d.len() ==> spec_key_lt(#[trigger] d[i].0, #[trigger] d[j].0)
}

/// The value stored under `key`, the first entry with that key.
pub open spec fn spec_lookup(d: Seq<(Seq<u8>, Bencode)>, key: Seq<u8>) -> Option<Bencode>
    decreases d.len(),
{
    if d.len() == 0 {
        None
    } else if d[0].0 == key {
        Some(d[0].1)
    } else {
        spec_lookup(d.drop_first(), key)
    }
}

/// The entries after storing `value` under `key` in sorted entries: it replaces the value of
/// an equal key, or goes in before the first greater key.
pub open spec fn spec_insert(d: Seq<(Seq<u8>, Bencode)>, key: Seq<u8>, value: Bencode) -> Seq<(Seq<u8>, Bencode)>
    decreases d.len(),
{
    if d.len() == 0 {
        seq![(key, value)]
    } else if d[0].0 == key {
        seq![(key, value)] + d.drop_first()
    } else if spec_key_lt(key, d[0].0) {
        seq![(key, value)] + d
    } else {
        seq![d[0]] + spec_insert(d.drop_first(), key, value)
    }
}

/// Well formed values: every integer in them fits an `i64`, and the keys of every dictionary
/// in them are strictly increasing.
pub open spec fn spec_value_wf(v: Bencode) -> bool
    decreases v,
{
    match v {
        Bencode::Str(_) => true,
        Bencode::Int(i) => i64::MIN <= i <= i64::MAX,
        Bencode::List(l) => forall|i: int| 0 <= i < l.len() ==> spec_value_wf(#[trigger] l[i]),
        Bencode::Dict(d) => spec_keys_sorted(d) && forall|i: int|
            0 <= i < d.len() ==> spec_value_wf(#[trigger] d[i].1),
    }
}

pub proof fn lemma_key_lt_irreflexive(a: Seq<u8>)
    ensures
        !spec_key_lt(a, a),
    decreases a.len(),
{
    if a.len() > 0 {
        lemma_key_lt_irreflexive(a.drop_first());
    }
}

pub proof fn lemma_key_lt_trichotomy(a: Seq<u8>, b: Seq<u8>)
    ensures
        a == b || spec_key_lt(a, b) || spec_key_lt(b, a),
        !(spec_key_lt(a, b) && spec_key_lt(b, a)),
    decreases a.len(),
{
    if a.len() > 0 && b.len() > 0 && a[0] == b[0] {
        lemma_key_lt_trichotomy(a.drop_first(), b.drop_first());
        if a.drop_first() == b.drop_first() {
            assert(a =~= seq![a[0]] + a.drop_first());
            assert(b =~= seq![b[0]] + b.drop_first());
        }
    } else if a.len() == 0 && b.len() == 0 {
        assert(a =~= b);
    }
}

pub proof fn lemma_key_lt_transitive(a: Seq<u8>, b: Seq<u8>, c: Seq<u8>)
    requires
        spec_key_lt(a, b),
        spec_key_lt(b, c),
    ensures
        spec_key_lt(a, c),
    decreases a.len(),
{
    if a.len() > 0 && b.len() > 0 && c.len() > 0 && a[0] == b[0] && b[0] == c[0] {
        lemma_key_lt_transitive(a.drop_first(), b.drop_first(), c.drop_first());
    }
}

/// Inserting into sorted entries keeps them sorted, and what is stored under each key is the
/// new value for `key` and the old one for every other key.
pub proof fn lemma_insert_sorted(d: Seq<(Seq<u8>, Bencode)>, key: Seq<u8>, value: Bencode)
    requires
        spec_keys_sorted(d),
    ensures
        spec_keys_sorted(spec_insert(d, key, value)),
        forall|k: Seq<u8>| #[trigger] spec_lookup(spec_insert(d, key, value), k)
            == if k == key { Some(value) } else { spec_lookup(d, k) },
        forall|e: (Seq<u8>, Bencode)| spec_insert(d, key, value).contains(e)
            ==> e == (key, value) || d.contains(e),
        forall|i: int| 0 <= i < d.len() && d[i].0 != key ==> spec_insert(d, key, value).contains(#[trigger] d[i]),
    decreases d.len(),
{
    let r = spec_insert(d, key, value);
    if d.len() == 0 {
        assert(spec_lookup(d, key) == None::<Bencode>);
        assert forall|k: Seq<u8>| #[trigger] spec_lookup(r, k)
            == if k == key { Some(value) } else { spec_lookup(d, k) } by {
            assert(r.drop_first().len() == 0);
            assert(spec_lookup(r.drop_first(), k) == None::<Bencode>);
        }
        assert forall|e: (Seq<u8>, Bencode)| r.contains(e) implies e == (key, value) || d.contains(e) by {
            let i = choose|i: int| 0 <= i < r.len() && r[i] == e;
        }
    } else {
        let t = d.drop_first();
        assert(spec_keys_sorted(t)) by {
            assert forall|i: int, j: int| 0 <= i < j < t.len() implies spec_key_lt(#[trigger] t[i].0, #[trigger] t[j].0) by {
                assert(t[i] == d[i + 1] && t[j] == d[j + 1]);
            }
        }
        if d[0].0 == key {
            assert(r.drop_first() =~= t);
            assert forall|i: int, j: int| 0 <= i < j < r.len() implies spec_key_lt(#[trigger] r[i].0, #[trigger] r[j].0) by {
                if i == 0 {
                    assert(r[j] == d[j]);
                } else {
                    assert(r[i] == d[i] && r[j] == d[j]);
                }
            }
            assert forall|k: Seq<u8>| #[trigger] spec_lookup(r, k)
                == if k == key { Some(value) } else { spec_lookup(d, k) } by {
            }
            assert forall|e: (Seq<u8>, Bencode)| r.contains(e) implies e == (key, value) || d.contains(e) by {
                let i = choose|i: int| 0 <= i < r.len() && r[i] == e;
                if i > 0 {
                    assert(d[i] == e);
                }
            }
            assert forall|i: int| 0 <= i < d.len() && d[i].0 != key implies r.contains(#[trigger] d[i]) by {
                assert(r[i] == d[i]);
            }
        } else if spec_key_lt(key, d[0].0) {
            assert(r.drop_first() =~= d);
            assert forall|i: int, j: int| 0 <= i < j < r.len() implies spec_key_lt(#[trigger] r[i].0, #[trigger] r[j].0) by {
                if i == 0 {
                    assert(r[j] == d[j - 1]);
                    if j > 1 {
                        lemma_key_lt_transitive(key, d[0].0, d[j - 1].0);
                    }
                } else {
                    assert(r[i] == d[i - 1] && r[j] == d[j - 1]);
                }
            }
            assert(spec_lookup(d, key) == None::<Bencode>) by {
                lemma_lookup_below(d, key);
            }
            assert forall|k: Seq<u8>| #[trigger] spec_lookup(r, k)
                == if k == key { Some(value) } else { spec_lookup(d, k) } by {
            }
            assert forall|e: (Seq<u8>, Bencode)| r.contains(e) implies e == (key, value) || d.contains(e) by {
                let i = choose|i: int| 0 <= i < r.len() && r[i] == e;
                if i > 0 {
                    assert(d[i - 1] == e);
                }
            }
            assert forall|i: int| 0 <= i < d.len() && d[i].0 != key implies r.contains(#[trigger] d[i]) by {
                assert(r[i + 1] == d[i]);
            }
        } else {
            lemma_insert_sorted(t, key, value);
            let rt = spec_insert(t, key, value);
            assert(r.drop_first() =~= rt);
            lemma_key_lt_trichotomy(key, d[0].0);
            assert forall|i: int, j: int| 0 <= i < j < r.len() implies spec_key_lt(#[trigger] r[i].0, #[trigger] r[j].0) by {
                if i == 0 {
                    let e = rt[j - 1];
                    assert(r[j] == e);
                    assert(rt.contains(e));
                    if e != (key, value) {
                        assert(t.contains(e));
                        let m = choose|m: int| 0 <= m < t.len() && t[m] == e;
                        assert(d[m + 1] == e);
                        assert(spec_key_lt(d[0].0, d[m + 1].0));
                    }
                } else {
                    assert(r[i] == rt[i - 1] && r[j] == rt[j - 1]);
                }
            }
            assert forall|k: Seq<u8>| #[trigger] spec_lookup(r, k)
                == if k == key { Some(value) } else { spec_lookup(d, k) } by {
                assert(spec_lookup(r, k) == if r[0].0 == k { Some(r[0].1) } else { spec_lookup(rt, k) });
            }
            assert forall|e: (Seq<u8>, Bencode)| r.contains(e) implies e == (key, value) || d.contains(e) by {
                let i = choose|i: int| 0 <= i < r.len() && r[i] == e;
                if i > 0 {
                    assert(rt[i - 1] == e);
                    assert(rt.contains(e));
                    if e != (key, value) {
                        assert(t.contains(e));
                        let m = choose|m: int| 0 <= m < t.len() && t[m] == e;
                        assert(d[m + 1] == e);
                    }
                } else {
                    assert(d[0] == e);
                }
            }
            assert forall|i: int| 0 <= i < d.len() && d[i].0 != key implies r.contains(#[trigger] d[i]) by {
                if i == 0 {
                    assert(r[0] == d[0]);
                } else {
                    assert(t[i - 1] == d[i]);
                    assert(rt.contains(t[i - 1]));
                    let m = choose|m: int| 0 <= m < rt.len() && rt[m] == t[i - 1];
                    assert(r[m + 1] == d[i]);
                }
            }
        }
    }
}

/// A key below every key of sorted entries is not among them.
pub proof fn lemma_lookup_below(d: Seq<(Seq<u8>, Bencode)>, key: Seq<u8>)
    requires
        spec_keys_sorted(d),
        d.len() > 0 ==> spec_key_lt(key, d[0].0),
    ensures
        spec_lookup(d, key) == None::<Bencode>,
    decreases d.len(),
{
    if d.len() > 0 {
        lemma_key_lt_irreflexive(key);
        let t = d.drop_first();
        assert(spec_keys_sorted(t)) by {
            assert forall|i: int, j: int| 0 <= i < j < t.len() implies spec_key_lt(#[trigger] t[i].0, #[trigger] t[j].0) by {
                assert(t[i] == d[i + 1] && t[j] == d[j + 1]);
            }
        }
        if t.len() > 0 {
            assert(t[0] == d[1]);
            lemma_key_lt_transitive(key, d[0].0, d[1].0);
        }
        lemma_lookup_below(t, key);
    }
}


/// Skipping an equal prefix does not change how two byte strings compare.
pub proof fn lemma_key_lt_skip(a: Seq<u8>, b: Seq<u8>, i: int)
    requires
        0 <= i <= a.len(),
        i <= b.len(),
        a.subrange(0, i) == b.subrange(0, i),
    ensures
        spec_key_lt(a, b) == spec_key_lt(a.skip(i), b.skip(i)),
    decreases i,
{
    if i > 0 {
        assert(a[0] == a.subrange(0, i)[0]);
        assert(b[0] == b.subrange(0, i)[0]);
        assert(a.drop_first().subrange(0, i - 1) =~= b.drop_first().subrange(0, i - 1)) by {
            assert forall|k: int| 0 <= k < i - 1 implies #[trigger] a.drop_first().subrange(0, i - 1)[k]
                == b.drop_first().subrange(0, i - 1)[k] by {
                assert(a.drop_first().subrange(0, i - 1)[k] == a.subrange(0, i)[k + 1]);
                assert(b.drop_first().subrange(0, i - 1)[k] == b.subrange(0, i)[k + 1]);
            }
        }
        lemma_key_lt_skip(a.drop_first(), b.drop_first(), i - 1);
        assert(a.drop_first().skip(i - 1) =~= a.skip(i));
        assert(b.drop_first().skip(i - 1) =~= b.skip(i));
    } else {
        assert(a.skip(0) =~= a);
        assert(b.skip(0) =~= b);
    }
}

/// Whether byte string `a` comes before `b`, lexicographically.
pub fn key_less(a: &[u8], b: &[u8]) -> (res: bool)
    ensures
        res == spec_key_lt(a@, b@),
{
    let mut i: usize = 0;
    while i < a.len() && i < b.len()
        invariant
            0 <= i <= a@.len(),
            i <= b@.len(),
            a@.subrange(0, i as int) == b@.subrange(0, i as int),
        decreases a@.len() - i,
    {
        if a[i] != b[i] {
            proof {
                lemma_key_lt_skip(a@, b@, i as int);
            }
            return a[i] < b[i];
        }
        i = i + 1;
        assert(a@.subrange(0, i as int) =~= b@.subrange(0, i as int)) by {
            assert forall|k: int| 0 <= k < i implies #[trigger] a@.subrange(0, i as int)[k] == b@.subrange(0, i as int)[k] by {
                if k < i - 1 {
                    assert(a@.subrange(0, i - 1)[k] == b@.subrange(0, i - 1)[k]);
                }
            }
        }
    }
    proof {
        lemma_key_lt_skip(a@, b@, i as int);
    }
    i == a.len() && i < b.len()
}

/// Whether two byte strings are equal.
pub fn bytes_equal(a: &[u8], b: &[u8]) -> (res: bool)
    ensures
        res == (a@ == b@),
{
    proof {
        lemma_key_lt_trichotomy(a@, b@);
        lemma_key_lt_irreflexive(a@);
    }
    !key_less(a, b) && !key_less(b, a)
}

/// Copies a bencoded value.
pub fn clone_value(v: &ValuesBencoding) -> (res: ValuesBencoding)
    ensures
        res@ == v@,
    decreases v,
{
    match v {
        ValuesBencoding::String(s) => ValuesBencoding::String(s.clone()),
        ValuesBencoding::Integer(i) => ValuesBencoding::Integer(*i),
        ValuesBencoding::List(l) => {
            let mut out: Vec<ValuesBencoding> = Vec::new();
            let mut i: usize = 0;
            while i < l.len()
                invariant
                    *v == ValuesBencoding::List(*l),
                    0 <= i <= l@.len(),
                    out@.len() == i,
                    forall|k: int| 0 <= k < i ==> (#[trigger] out@[k])@ == l@[k]@,
                decreases l@.len() - i,
            {
                proof {
                    assert(decreases_to!(*l => l[i as int]));
                    assert(decreases_to!(*v => (*v)->List_0));
                }
                out.push(clone_value(&l[i]));
                i = i + 1;
            }
            let res = ValuesBencoding::List(out);
            proof {
                let m1 = value_model(res);
                let m2 = value_model(*v);
                assert(m1->List_0 =~= m2->List_0);
            }
            res
        },
        ValuesBencoding::Dic(d) => ValuesBencoding::Dic(clone_dic(d)),
    }
}

/// Copies a bencoded dictionary.
pub fn clone_dic(d: &DicValues) -> (res: DicValues)
    ensures
        res@ == d@,
    decreases d,
{
    let mut out: Vec<(Vec<u8>, ValuesBencoding)> = Vec::new();
    let mut i: usize = 0;
    while i < d.entries.len()
        invariant
            0 <= i <= d.entries@.len(),
            out@.len() == i,
            forall|k: int| 0 <= k < i ==> (#[trigger] out@[k]).0@ == d.entries@[k].0@ && out@[k].1@ == d.entries@[k].1@,
        decreases d.entries@.len() - i,
    {
        let key = d.entries[i].0.clone();
        let value = clone_value(&d.entries[i].1);
        out.push((key, value));
        i = i + 1;
    }
    let res = DicValues { entries: out };
    assert(dic_model(res) =~= dic_model(*d));
    res
}

impl DicValues {
    /// An empty dictionary.
    pub fn new() -> (res: DicValues)
        ensures
            res@ == Seq::<(Seq<u8>, Bencode)>::empty(),
    {
        let res = DicValues { entries: Vec::new() };
        assert(dic_model(res) =~= Seq::<(Seq<u8>, Bencode)>::empty());
        res
    }

    /// The number of entries.
    pub fn len(&self) -> (res: usize)
        ensures
            res == self@.len(),
    {
        self.entries.len()
    }

    /// The value stored under `key`.
    pub fn get(&self, key: &[u8]) -> (res: Option<&ValuesBencoding>)
        ensures
            match res {
                Some(v) => spec_lookup(self@, key@) == Some(v@),
                None => spec_lookup(self@, key@) is None,
            },
    {
        let mut i: usize = 0;
        assert(self@.skip(0) =~= self@);
        while i < self.entries.len()
            invariant
                0 <= i <= self.entries@.len(),
                spec_lookup(self@, key@) == spec_lookup(self@.skip(i as int), key@),
            decreases self.entries@.len() - i,
        {
            let ghost rest = self@.skip(i as int);
            assert(rest[0] == self@[i as int]);
            assert(rest.drop_first() =~= self@.skip(i + 1));
            if bytes_equal(self.entries[i].0.as_slice(), key) {
                return Some(&self.entries[i].1);
            }
            i = i + 1;
        }
        None
    }

    /// Stores `value` under `key`, replacing what was stored there; keeps the keys sorted.
    pub fn insert(&mut self, key: Vec<u8>, value: ValuesBencoding)
        requires
            spec_keys_sorted(old(self)@),
        ensures
            final(self)@ == spec_insert(old(self)@, key@, value@),
            spec_keys_sorted(final(self)@),
    {
        let ghost d = self@;
        let n = self.entries.len();
        let mut i: usize = 0;
        while i < n && key_less(self.entries[i].0.as_slice(), key.as_slice())
            invariant
                n == self.entries@.len(),
                self@ == d,
                0 <= i <= n,
                forall|k: int| 0 <= k < i ==> spec_key_lt(#[trigger] d[k].0, key@),
            decreases n - i,
        {
            i = i + 1;
        }
        proof {
            lemma_insert_at(d, key@, value@, i as int);
            lemma_insert_sorted(d, key@, value@);
        }
        if i < n && bytes_equal(self.entries[i].0.as_slice(), key.as_slice()) {
            self.entries.set(i, (key, value));
            assert(self@ =~= d.update(i as int, (key@, value@)));
        } else {
            self.entries.insert(i, (key, value));
            assert(self@ =~= d.insert(i as int, (key@, value@)));
        }
    }
}

/// Where [`spec_insert`] puts a key: at the first entry whose key is not below it.
pub proof fn lemma_insert_at(d: Seq<(Seq<u8>, Bencode)>, key: Seq<u8>, value: Bencode, p: int)
    requires
        0 <= p <= d.len(),
        forall|k: int| 0 <= k < p ==> spec_key_lt(#[trigger] d[k].0, key),
        p < d.len() ==> !spec_key_lt(d[p].0, key),
    ensures
        p < d.len() && d[p].0 == key ==> spec_insert(d, key, value) == d.update(p, (key, value)),
        !(p < d.len() && d[p].0 == key) ==> spec_insert(d, key, value) == d.insert(p, (key, value)),
    decreases p,
{
    if p == 0 {
        if d.len() > 0 {
            lemma_key_lt_trichotomy(key, d[0].0);
            if d[0].0 == key {
                assert(spec_insert(d, key, value) =~= d.update(0, (key, value)));
            } else {
                assert(spec_insert(d, key, value) =~= d.insert(0, (key, value)));
            }
        } else {
            assert(spec_insert(d, key, value) =~= d.insert(0, (key, value)));
        }
    } else {
        let t = d.drop_first();
        assert forall|k: int| 0 <= k < p - 1 implies spec_key_lt(#[trigger] t[k].0, key) by {
            assert(t[k] == d[k + 1]);
        }
        lemma_insert_at(t, key, value, p - 1);
        assert(spec_key_lt(d[0].0, key));
        lemma_key_lt_irreflexive(key);
        lemma_key_lt_trichotomy(key, d[0].0);
        if p < d.len() && d[p].0 == key {
            assert(spec_insert(d, key, value) =~= d.update(p, (key, value)));
        } else {
            assert(spec_insert(d, key, value) =~= d.insert(p, (key, value)));
        }
    }
}

} // verus!
