use vstd::prelude::*;

use crate::codec::Codec;

verus! {

/// No key occurs twice.
pub open spec fn keys_unique<M>(s: Seq<(u64, M)>) -> bool {
    forall|i: int, j: int| 0 <= i < j < s.len() ==> s[i].0 != s[j].0
}

/// The finite map described by a sequence of key-value pairs; later pairs win.
pub open spec fn pairs_to_map<M>(s: Seq<(u64, M)>) -> Map<u64, M>
    decreases s.len(),
{
    if s.len() == 0 {
        Map::empty()
    } else {
        pairs_to_map(s.drop_last()).insert(s.last().0, s.last().1)
    }
}

pub proof fn lemma_pairs_to_map_contains<M>(s: Seq<(u64, M)>, k: u64)
    ensures
        pairs_to_map(s).contains_key(k) <==> exists|i: int| 0 <= i < s.len() && s[i].0 == k,
    decreases s.len(),
{
    if s.len() > 0 {
        let pre = s.drop_last();
        lemma_pairs_to_map_contains(pre, k);
        if k == s.last().0 {
            assert(s[s.len() - 1].0 == k);
        } else {
            if exists|i: int| 0 <= i < s.len() && s[i].0 == k {
                let i = choose|i: int| 0 <= i < s.len() && s[i].0 == k;
                assert(pre[i].0 == k);
            }
            if exists|i: int| 0 <= i < pre.len() && pre[i].0 == k {
                let i = choose|i: int| 0 <= i < pre.len() && pre[i].0 == k;
                assert(s[i].0 == k);
            }
        }
    }
}

pub proof fn lemma_pairs_to_map_value<M>(s: Seq<(u64, M)>, i: int)
    requires
        keys_unique(s),
        0 <= i < s.len(),
    ensures
        pairs_to_map(s).contains_key(s[i].0),
        pairs_to_map(s)[s[i].0] == s[i].1,
    decreases s.len(),
{
    if i == s.len() - 1 {
    } else {
        let pre = s.drop_last();
        assert(pre[i] == s[i]);
        lemma_pairs_to_map_value(pre, i);
        assert(s[i].0 != s.last().0);
    }
}

pub proof fn lemma_pairs_to_map_remove<M>(s: Seq<(u64, M)>, i: int)
    requires
        keys_unique(s),
        0 <= i < s.len(),
    ensures
        keys_unique(s.remove(i)),
        pairs_to_map(s.remove(i)) == pairs_to_map(s).remove(s[i].0),
    decreases s.len(),
{
    let k = s[i].0;
    if i == s.len() - 1 {
        assert(s.remove(i) =~= s.drop_last());
        lemma_pairs_to_map_contains(s.drop_last(), k);
        assert(forall|j: int| 0 <= j < s.drop_last().len() ==> s.drop_last()[j] == s[j]);
        assert(!pairs_to_map(s.drop_last()).contains_key(k));
        assert(pairs_to_map(s.drop_last()) =~= pairs_to_map(s).remove(k));
    } else {
        let pre = s.drop_last();
        assert(pre[i] == s[i]);
        lemma_pairs_to_map_remove(pre, i);
        assert(s.remove(i).drop_last() =~= pre.remove(i));
        assert(s.remove(i).last() == s.last());
        assert(s.remove(i).len() == s.len() - 1);
        assert(pairs_to_map(s.remove(i)) == pairs_to_map(pre.remove(i)).insert(
            s.last().0,
            s.last().1,
        ));
        assert(k != s.last().0);
        assert(pairs_to_map(pre).remove(k).insert(s.last().0, s.last().1) =~= pairs_to_map(
            pre,
        ).insert(s.last().0, s.last().1).remove(k));
    }
}

/// An association list with unique `u64` keys: the library's map type for
/// persisted documents.  Its view is the finite map it holds.
#[derive(Debug)]
pub struct Assoc<T> {
    entries: Vec<(u64, T)>,
}

impl<T: Codec> Assoc<T> {
    /// Entry sequence at the model level, in storage order.
    pub closed spec fn entries_model(&self) -> Seq<(u64, T::M)> {
        self.entries.model()
    }

    pub closed spec fn inv(&self) -> bool {
        keys_unique(self.entries_model())
    }

    pub closed spec fn all_cinv(&self) -> bool {
        self.entries.cinv()
    }

    /// The view is the map the entry sequence describes.
    pub proof fn lemma_view_def(&self)
        ensures
            self@ == pairs_to_map(self.entries_model()),
            self.cinv() <==> self.all_cinv() && self.inv(),
    {
    }

    /// Well-formedness is exactly key uniqueness of the entries.
    pub proof fn lemma_inv_def(&self)
        ensures
            self.inv() <==> keys_unique(self.entries_model()),
    {
    }

    /// A key is in the view exactly when some entry holds it.
    pub proof fn lemma_contains(&self, k: u64)
        ensures
            self@.contains_key(k) <==> exists|i: int|
                0 <= i < self.entries_model().len() && self.entries_model()[i].0 == k,
    {
        lemma_pairs_to_map_contains(self.entries_model(), k);
    }

    /// With unique keys, each entry gives the view's value at its key.
    pub proof fn lemma_entry_value(&self, i: int)
        requires
            self.inv(),
            0 <= i < self.entries_model().len(),
        ensures
            self@.contains_key(self.entries_model()[i].0),
            self@[self.entries_model()[i].0] == self.entries_model()[i].1,
    {
        lemma_pairs_to_map_value(self.entries_model(), i);
    }

    pub fn new() -> (a: Self)
        ensures
            a.inv(),
            a.all_cinv(),
            a@ == Map::<u64, T::M>::empty(),
            a.entries_model() == Seq::<(u64, T::M)>::empty(),
    {
        let a = Assoc { entries: Vec::new() };
        proof {
            assert(a.entries_model() =~= Seq::<(u64, T::M)>::empty());
        }
        a
    }

    pub fn len(&self) -> (n: usize)
        ensures
            n == self.entries_model().len(),
    {
        self.entries.len()
    }

    pub fn key_at(&self, i: usize) -> (k: u64)
        requires
            i < self.entries_model().len(),
        ensures
            k == self.entries_model()[i as int].0,
    {
        self.entries[i].0
    }

    pub fn val_at(&self, i: usize) -> (v: &T)
        requires
            i < self.entries_model().len(),
        ensures
            v.model() == self.entries_model()[i as int].1,
            self.all_cinv() ==> v.cinv(),
    {
        &self.entries[i].1
    }

    fn index_of(&self, k: u64) -> (r: Option<usize>)
        requires
            self.inv(),
        ensures
            match r {
                Some(i) => i < self.entries_model().len() && self.entries_model()[i as int].0
                    == k && self@.contains_key(k),
                None => !self@.contains_key(k),
            },
    {
        let mut i: usize = 0;
        while i < self.entries.len()
            invariant
                0 <= i <= self.entries_model().len(),
                forall|j: int| 0 <= j < i ==> self.entries_model()[j].0 != k,
            decreases self.entries_model().len() - i,
        {
            if self.entries[i].0 == k {
                proof {
                    lemma_pairs_to_map_contains(self.entries_model(), k);
                }
                return Some(i);
            }
            i = i + 1;
        }
        proof {
            lemma_pairs_to_map_contains(self.entries_model(), k);
        }
        None
    }

    pub fn contains_key(&self, k: u64) -> (r: bool)
        requires
            self.inv(),
        ensures
            r == self@.contains_key(k),
    {
        match self.index_of(k) {
            Some(_) => true,
            None => false,
        }
    }

    pub fn get(&self, k: u64) -> (r: Option<&T>)
        requires
            self.inv(),
        ensures
            match r {
                Some(v) => self@.contains_key(k) && v.model() == self@[k] && (self.all_cinv()
                    ==> v.cinv()),
                None => !self@.contains_key(k),
            },
    {
        match self.index_of(k) {
            Some(i) => {
                proof {
                    lemma_pairs_to_map_value(self.entries_model(), i as int);
                }
                Some(&self.entries[i].1)
            },
            None => None,
        }
    }

    /// Removes the entry for `k`, returning its value if one was present.
    pub fn remove(&mut self, k: u64) -> (r: Option<T>)
        requires
            old(self).inv(),
        ensures
            final(self).inv(),
            final(self)@ == old(self)@.remove(k),
            old(self).all_cinv() ==> final(self).all_cinv(),
            match r {
                Some(v) => old(self)@.contains_key(k) && v.model() == old(self)@[k] && (old(
                    self,
                ).all_cinv() ==> v.cinv()),
                None => !old(self)@.contains_key(k) && final(self)@ == old(self)@,
            },
    {
        match self.index_of(k) {
            Some(i) => {
                proof {
                    lemma_pairs_to_map_value(self.entries_model(), i as int);
                    lemma_pairs_to_map_remove(self.entries_model(), i as int);
                }
                let (_, v) = self.entries.remove(i);
                proof {
                    assert(self.entries_model() =~= old(self).entries_model().remove(i as int));
                }
                Some(v)
            },
            None => {
                proof {
                    assert(old(self)@.remove(k) =~= old(self)@);
                }
                None
            },
        }
    }

    /// Inserts or replaces the value for `k`.
    pub fn insert(&mut self, k: u64, v: T)
        requires
            old(self).inv(),
        ensures
            final(self).inv(),
            final(self)@ == old(self)@.insert(k, v.model()),
            old(self).all_cinv() && v.cinv() ==> final(self).all_cinv(),
    {
        let _ = self.remove(k);
        let ghost mid = self.entries_model();
        self.entries.push((k, v));
        proof {
            assert(self.entries_model() =~= mid.push((k, v.model())));
            assert(self.entries_model().drop_last() =~= mid);
            lemma_pairs_to_map_contains(mid, k);
            assert(forall|i: int, j: int|
                0 <= i < j < self.entries_model().len() ==> self.entries_model()[i].0
                    != self.entries_model()[j].0) by {
                assert(forall|i: int|
                    0 <= i < mid.len() ==> self.entries_model()[i] == mid[i]);
            }
            assert(final(self)@ =~= old(self)@.insert(k, v.model()));
        }
    }
}

impl<T: Codec> View for Assoc<T> {
    type V = Map<u64, T::M>;

    closed spec fn view(&self) -> Map<u64, T::M> {
        pairs_to_map(self.entries_model())
    }
}

impl<T: Codec> Codec for Assoc<T> {
    type M = Map<u64, T::M>;

    open spec fn model(&self) -> Map<u64, T::M> {
        self@
    }

    closed spec fn cinv(&self) -> bool {
        self.entries.cinv() && self.inv()
    }

    closed spec fn enc(&self) -> Seq<u8> {
        self.entries.enc()
    }

    closed spec fn dec(b: Seq<u8>) -> Option<(Map<u64, T::M>, int)> {
        match <Vec<(u64, T)> as Codec>::dec(b) {
            None => None,
            Some((prs, k)) => if keys_unique(prs) {
                Some((pairs_to_map(prs), k))
            } else {
                None
            },
        }
    }

    proof fn lemma_dec_span(b: Seq<u8>) {
        <Vec<(u64, T)> as Codec>::lemma_dec_span(b);
    }

    proof fn lemma_dec_enc(&self, rest: Seq<u8>) {
        self.entries.lemma_dec_enc(rest);
    }

    fn write_bytes(&self, out: &mut Vec<u8>) {
        self.entries.write_bytes(out);
    }

    fn read_bytes(b: &[u8], pos: usize) -> (r: Option<(Self, usize)>) {
        match <Vec<(u64, T)> as Codec>::read_bytes(b, pos) {
            None => None,
            Some((entries, p2)) => {
                // check key uniqueness; duplicate keys mean a malformed record
                let ghost m = entries.model();
                let n = entries.len();
                let mut i: usize = 0;
                while i < n
                    invariant
                        m == entries.model(),
                        n == m.len(),
                        0 <= i <= n,
                        <Vec<(u64, T)> as Codec>::dec(b@.skip(pos as int)) == Some((m, p2 - pos)),
                        forall|a: int, c: int| 0 <= a < i && a < c < n ==> m[a].0 != m[c].0,
                    decreases n - i,
                {
                    let mut j: usize = i + 1;
                    while j < n
                        invariant
                            m == entries.model(),
                            n == m.len(),
                            0 <= i < j <= n,
                            <Vec<(u64, T)> as Codec>::dec(b@.skip(pos as int)) == Some(
                                (m, p2 - pos),
                            ),
                            forall|l: int| i < l < j ==> m[l].0 != m[i as int].0,
                        decreases n - j,
                    {
                        proof {
                            assert(m[i as int].0 == entries@[i as int].0);
                            assert(m[j as int].0 == entries@[j as int].0);
                        }
                        if entries[j].0 == entries[i].0 {
                            proof {
                                assert(m[i as int].0 == m[j as int].0);
                                assert(!keys_unique(m));
                            }
                            return None;
                        }
                        j = j + 1;
                    }
                    i = i + 1;
                }
                proof {
                    assert(keys_unique(m));
                }
                Some((Assoc { entries }, p2))
            },
        }
    }

    fn cclone(&self) -> (c: Self) {
        let c = Assoc { entries: self.entries.cclone() };
        c
    }
}

} // verus!
