//! A string-keyed association map with insertion order, used for a request
//! file's variable table and for each request's header map.
//!
//! Keys are unique; inserting an existing key overwrites its value in
//! place, so the latest assignment wins while the first position is kept.

use vstd::prelude::*;

verus! {

/// Value of the first pair in `pairs` whose key is `k`, if any.
pub open spec fn assoc_get(pairs: Seq<(Seq<char>, Seq<char>)>, k: Seq<char>) -> Option<Seq<char>>
    decreases pairs.len(),
{
    if pairs.len() == 0 {
        None
    } else if pairs[0].0 == k {
        Some(pairs[0].1)
    } else {
        assoc_get(pairs.drop_first(), k)
    }
}

/// `pairs` with `k` bound to `v`: overwritten in place if `k` is present,
/// appended at the end otherwise.
pub open spec fn assoc_insert(
    pairs: Seq<(Seq<char>, Seq<char>)>,
    k: Seq<char>,
    v: Seq<char>,
) -> Seq<(Seq<char>, Seq<char>)>
    decreases pairs.len(),
{
    if pairs.len() == 0 {
        seq![(k, v)]
    } else if pairs[0].0 == k {
        seq![(k, v)] + pairs.drop_first()
    } else {
        seq![pairs[0]] + assoc_insert(pairs.drop_first(), k, v)
    }
}

/// No key occurs twice.
pub open spec fn assoc_unique(pairs: Seq<(Seq<char>, Seq<char>)>) -> bool {
    forall|i: int, j: int| 0 <= i < j < pairs.len() ==> pairs[i].0 != pairs[j].0
}

/// After an insert, the inserted key maps to the new value and every other
/// key is untouched; uniqueness and length bounds are preserved.
pub proof fn lemma_assoc_insert(pairs: Seq<(Seq<char>, Seq<char>)>, k: Seq<char>, v: Seq<char>)
    ensures
        assoc_get(assoc_insert(pairs, k, v), k) == Some(v),
        forall|k2: Seq<char>| k2 != k ==> assoc_get(assoc_insert(pairs, k, v), k2) == assoc_get(
            pairs,
            k2,
        ),
        assoc_get(pairs, k) is Some ==> assoc_insert(pairs, k, v).len() == pairs.len(),
        assoc_get(pairs, k) is None ==> assoc_insert(pairs, k, v).len() == pairs.len() + 1,
        assoc_unique(pairs) ==> assoc_unique(assoc_insert(pairs, k, v)),
    decreases pairs.len(),
{
    if pairs.len() == 0 {
        let r = assoc_insert(pairs, k, v);
        assert(r.drop_first() =~= Seq::<(Seq<char>, Seq<char>)>::empty());
        assert forall|k2: Seq<char>| k2 != k implies assoc_get(r, k2) == assoc_get(
            pairs,
            k2,
        ) by {
            assert(assoc_get(r, k2) == assoc_get(r.drop_first(), k2));
            assert(assoc_get(Seq::<(Seq<char>, Seq<char>)>::empty(), k2) is None);
        }
    } else if pairs[0].0 == k {
        let r = assoc_insert(pairs, k, v);
        assert(r.drop_first() =~= pairs.drop_first());
        assert forall|k2: Seq<char>| k2 != k implies assoc_get(r, k2) == assoc_get(
            pairs,
            k2,
        ) by {
            assert(assoc_get(r, k2) == assoc_get(r.drop_first(), k2));
            assert(assoc_get(pairs, k2) == assoc_get(pairs.drop_first(), k2));
        }
    } else {
        let rest = pairs.drop_first();
        lemma_assoc_insert(rest, k, v);
        let r = assoc_insert(pairs, k, v);
        assert(r.drop_first() =~= assoc_insert(rest, k, v));
        assert forall|k2: Seq<char>| k2 != k implies assoc_get(r, k2) == assoc_get(
            pairs,
            k2,
        ) by {
            if r[0].0 == k2 {
                assert(assoc_get(r, k2) == Some(r[0].1));
                assert(assoc_get(pairs, k2) == Some(pairs[0].1));
            } else {
                assert(assoc_get(r, k2) == assoc_get(assoc_insert(rest, k, v), k2));
                assert(assoc_get(pairs, k2) == assoc_get(rest, k2));
            }
        }
        if assoc_unique(pairs) {
            assert(assoc_unique(rest));
            let rr = assoc_insert(rest, k, v);
            assert forall|i: int, j: int| 0 <= i < j < r.len() implies r[i].0 != r[j].0 by {
                if i == 0 {
                    // r[j].0 is a key of rr: either an old key of rest or k
                    lemma_assoc_insert_keys(rest, k, v, j - 1);
                } else {
                    assert(rr[i - 1].0 != rr[j - 1].0);
                }
            }
        }
    }
}

/// Every key of an inserted list is either the inserted key or a key that
/// was already present.
pub proof fn lemma_assoc_insert_keys(
    pairs: Seq<(Seq<char>, Seq<char>)>,
    k: Seq<char>,
    v: Seq<char>,
    j: int,
)
    requires
        0 <= j < assoc_insert(pairs, k, v).len(),
    ensures
        assoc_insert(pairs, k, v)[j].0 == k || exists|i: int|
            0 <= i < pairs.len() && pairs[i].0 == assoc_insert(pairs, k, v)[j].0,
    decreases pairs.len(),
{
    if pairs.len() == 0 {
    } else if pairs[0].0 == k {
    } else {
        if j > 0 {
            lemma_assoc_insert_keys(pairs.drop_first(), k, v, j - 1);
            let key = assoc_insert(pairs, k, v)[j].0;
            if key != k {
                let i = choose|i: int|
                    0 <= i < pairs.drop_first().len() && pairs.drop_first()[i].0 == key;
                assert(pairs[i + 1].0 == key);
            }
        }
    }
}

/// A string-keyed map with unique keys kept in insertion order.
#[derive(Debug)]
pub struct StrMap {
    pairs: Vec<(String, String)>,
}

impl Clone for StrMap {
    /// A clone carries exactly the same bindings.
    fn clone(&self) -> (res: Self)
        ensures
            res@ == self@,
    {
        let n = self.pairs.len();
        let mut pairs: Vec<(String, String)> = Vec::new();
        let mut i: usize = 0;
        while i < n
            invariant
                0 <= i <= n,
                n == self.pairs@.len(),
                pairs@.len() == i,
                forall|j: int|
                    0 <= j < i ==> pairs@[j].0 == self.pairs@[j].0 && pairs@[j].1
                        == self.pairs@[j].1,
            decreases n - i,
        {
            let p = &self.pairs[i];
            pairs.push((p.0.clone(), p.1.clone()));
            i = i + 1;
        }
        let res = StrMap { pairs };
        proof {
            assert(res@ =~= self@);
        }
        res
    }
}

impl View for StrMap {
    type V = Seq<(Seq<char>, Seq<char>)>;

    closed spec fn view(&self) -> Seq<(Seq<char>, Seq<char>)> {
        self.pairs@.map_values(|p: (String, String)| (p.0@, p.1@))
    }
}

impl StrMap {
    /// The unique-keys invariant every value of this type maintains.
    pub open spec fn wf(&self) -> bool {
        assoc_unique(self@)
    }

    /// An empty map.
    pub fn new() -> (r: StrMap)
        ensures
            r@ == Seq::<(Seq<char>, Seq<char>)>::empty(),
            r.wf(),
    {
        let r = StrMap { pairs: Vec::new() };
        proof {
            assert(r@ =~= Seq::<(Seq<char>, Seq<char>)>::empty());
        }
        r
    }

    /// Number of bindings.
    pub fn len(&self) -> (r: usize)
        ensures
            r == self@.len(),
    {
        self.pairs.len()
    }

    /// Whether the map holds no binding.
    pub fn is_empty(&self) -> (r: bool)
        ensures
            r == (self@.len() == 0),
    {
        self.pairs.len() == 0
    }

    /// The key and value of the `i`-th binding, in insertion order.
    pub fn pair_at(&self, i: usize) -> (r: (&String, &String))
        requires
            i < self@.len(),
        ensures
            r.0@ == self@[i as int].0,
            r.1@ == self@[i as int].1,
    {
        let p = &self.pairs[i];
        (&p.0, &p.1)
    }

    /// Binds `key` to `value`; a key already present keeps its position and
    /// takes the new value, so the latest assignment wins.
    pub fn insert(&mut self, key: String, value: String)
        requires
            old(self).wf(),
        ensures
            final(self)@ == assoc_insert(old(self)@, key@, value@),
            final(self).wf(),
    {
        let n = self.pairs.len();
        let mut i: usize = 0;
        while i < n
            invariant
                0 <= i <= n,
                n == self@.len(),
                self@ == old(self)@,
                assoc_unique(self@),
                forall|j: int| 0 <= j < i ==> old(self)@[j].0 != key@,
            decreases n - i,
        {
            if string_eq(&self.pairs[i].0, key.as_str()) {
                let ghost orig = self@;
                proof {
                    assert(orig[i as int].0 == key@);
                }
                self.pairs[i] = (key, value);
                proof {
                    assert(self@ =~= orig.update(i as int, (key@, value@)));
                    lemma_assoc_insert_at(orig, key@, value@, i as int);
                    assert forall|i2: int, j2: int|
                        0 <= i2 < j2 < self@.len() implies self@[i2].0 != self@[j2].0 by {
                        assert(self@[i2].0 == orig[i2].0);
                        assert(self@[j2].0 == orig[j2].0);
                    }
                }
                return ;
            }
            i = i + 1;
        }
        let ghost orig = self@;
        self.pairs.push((key, value));
        proof {
            assert(self@ =~= orig + seq![(key@, value@)]);
            lemma_assoc_insert_absent(orig, key@, value@);
            lemma_assoc_insert(orig, key@, value@);
        }
    }

    /// Looks a key up; `Some` exactly when the key is bound.
    pub fn get<'a>(&'a self, key: &str) -> (r: Option<&'a String>)
        ensures
            match r {
                Some(v) => assoc_get(self@, key@) == Some(v@),
                None => assoc_get(self@, key@) is None,
            },
    {
        let n = self.pairs.len();
        proof {
            assert(self@.skip(0) =~= self@);
        }
        let mut i: usize = 0;
        while i < n
            invariant
                0 <= i <= n,
                n == self@.len(),
                assoc_get(self@, key@) == assoc_get(self@.skip(i as int), key@),
            decreases n - i,
        {
            if string_eq(&self.pairs[i].0, key) {
                proof {
                    assert(self@.skip(i as int)[0] == self@[i as int]);
                }
                return Some(&self.pairs[i].1);
            }
            proof {
                assert(self@.skip(i as int).drop_first() =~= self@.skip(i as int + 1));
            }
            i = i + 1;
        }
        proof {
            assert(self@.skip(n as int) =~= Seq::<(Seq<char>, Seq<char>)>::empty());
        }
        None
    }

    /// Whether a key is bound.
    pub fn contains_key(&self, key: &str) -> (r: bool)
        ensures
            r == (assoc_get(self@, key@) is Some),
    {
        self.get(key).is_some()
    }
}

/// When the key sits at index `i` and keys are unique, overwriting in place
/// is what `assoc_insert` computes.
proof fn lemma_assoc_insert_at(
    pairs: Seq<(Seq<char>, Seq<char>)>,
    k: Seq<char>,
    v: Seq<char>,
    i: int,
)
    requires
        0 <= i < pairs.len(),
        pairs[i].0 == k,
        forall|j: int| 0 <= j < i ==> pairs[j].0 != k,
    ensures
        assoc_insert(pairs, k, v) == pairs.update(i, (k, v)),
    decreases i,
{
    if i == 0 {
        assert(assoc_insert(pairs, k, v) =~= pairs.update(0, (k, v)));
    } else {
        let rest = pairs.drop_first();
        lemma_assoc_insert_at(rest, k, v, i - 1);
        assert(assoc_insert(pairs, k, v) =~= pairs.update(i, (k, v)));
    }
}

/// When the key is absent, inserting appends.
pub proof fn lemma_assoc_insert_absent(pairs: Seq<(Seq<char>, Seq<char>)>, k: Seq<char>, v: Seq<char>)
    requires
        forall|j: int| 0 <= j < pairs.len() ==> pairs[j].0 != k,
    ensures
        assoc_insert(pairs, k, v) == pairs + seq![(k, v)],
    decreases pairs.len(),
{
    if pairs.len() == 0 {
        assert(assoc_insert(pairs, k, v) =~= pairs + seq![(k, v)]);
    } else {
        lemma_assoc_insert_absent(pairs.drop_first(), k, v);
        assert(assoc_insert(pairs, k, v) =~= pairs + seq![(k, v)]);
    }
}

/// Equality of a stored string and a borrowed one, by their characters.
pub fn string_eq(a: &String, b: &str) -> (r: bool)
    ensures
        r == (a@ == b@),
{
    let bs: String = String::from_str(b);
    a.eq(&bs)
}

} // verus!
