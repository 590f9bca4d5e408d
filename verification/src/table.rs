use vstd::prelude::*;

verus! {

/// A row of a table whose primary key is a `u64`.
pub trait KeyedRow: View + Sized {
    /// The primary key of a row, read from its view.
    spec fn key_of(v: Self::V) -> u64;

    fn row_key(&self) -> (k: u64)
        ensures
            k == Self::key_of(self@),
    ;
}

/// No two rows share a primary key.
pub open spec fn keys_unique<T: KeyedRow>(s: Seq<T::V>) -> bool {
    forall|i: int, j: int|
        #![trigger s[i], s[j]]
        0 <= i < s.len() && 0 <= j < s.len() && i != j ==> T::key_of(s[i]) != T::key_of(s[j])
}

/// Some row carries the key `k`.
pub open spec fn has_key<T: KeyedRow>(s: Seq<T::V>, k: u64) -> bool {
    exists|i: int| 0 <= i < s.len() && #[trigger] T::key_of(s[i]) == k
}

/// The rows, seen as a map from primary key to row.
pub open spec fn rows_to_map<T: KeyedRow>(s: Seq<T::V>) -> Map<u64, T::V> {
    Map::new(
        |k: u64| has_key::<T>(s, k),
        |k: u64| s[choose|i: int| 0 <= i < s.len() && #[trigger] T::key_of(s[i]) == k],
    )
}

pub proof fn lemma_rows_lookup<T: KeyedRow>(s: Seq<T::V>, i: int)
    requires
        keys_unique::<T>(s),
        0 <= i < s.len(),
    ensures
        rows_to_map::<T>(s).contains_key(T::key_of(s[i])),
        rows_to_map::<T>(s)[T::key_of(s[i])] == s[i],
{
    let k = T::key_of(s[i]);
    assert(has_key::<T>(s, k));
    let j = choose|j: int| 0 <= j < s.len() && #[trigger] T::key_of(s[j]) == k;
    assert(s[j] == s[i]);
}

pub proof fn lemma_rows_push<T: KeyedRow>(s: Seq<T::V>, v: T::V)
    requires
        keys_unique::<T>(s),
        !rows_to_map::<T>(s).contains_key(T::key_of(v)),
    ensures
        keys_unique::<T>(s.push(v)),
        rows_to_map::<T>(s.push(v)) == rows_to_map::<T>(s).insert(T::key_of(v), v),
{
    let t = s.push(v);
    assert forall|i: int, j: int|
        #![trigger t[i], t[j]]
        0 <= i < t.len() && 0 <= j < t.len() && i != j implies T::key_of(t[i]) != T::key_of(t[j]) by {
        if i < s.len() && j < s.len() {
            assert(t[i] == s[i] && t[j] == s[j]);
        } else if i < s.len() {
            assert(t[i] == s[i]);
            assert(has_key::<T>(s, T::key_of(s[i])));
        } else {
            assert(t[j] == s[j]);
            assert(has_key::<T>(s, T::key_of(s[j])));
        }
    }
    let m = rows_to_map::<T>(s).insert(T::key_of(v), v);
    assert forall|k: u64| rows_to_map::<T>(t).contains_key(k) <==> m.contains_key(k) by {
        if has_key::<T>(t, k) {
            let i = choose|i: int| 0 <= i < t.len() && #[trigger] T::key_of(t[i]) == k;
            if i < s.len() {
                assert(t[i] == s[i]);
                assert(has_key::<T>(s, k));
            }
        }
        if has_key::<T>(s, k) {
            let i = choose|i: int| 0 <= i < s.len() && #[trigger] T::key_of(s[i]) == k;
            assert(t[i] == s[i]);
            assert(has_key::<T>(t, k));
        }
        if k == T::key_of(v) {
            assert(t[s.len() as int] == v);
            assert(has_key::<T>(t, k));
        }
    }
    assert forall|k: u64| #[trigger] rows_to_map::<T>(t).contains_key(k) implies rows_to_map::<T>(
        t,
    )[k] == m[k] by {
        let i = choose|i: int| 0 <= i < t.len() && #[trigger] T::key_of(t[i]) == k;
        lemma_rows_lookup::<T>(t, i);
        if i < s.len() {
            assert(t[i] == s[i]);
            lemma_rows_lookup::<T>(s, i);
        } else {
            assert(t[i] == v);
        }
    }
    assert(rows_to_map::<T>(t) =~= m);
}

pub proof fn lemma_rows_remove<T: KeyedRow>(s: Seq<T::V>, i: int)
    requires
        keys_unique::<T>(s),
        0 <= i < s.len(),
    ensures
        keys_unique::<T>(s.remove(i)),
        rows_to_map::<T>(s.remove(i)) == rows_to_map::<T>(s).remove(T::key_of(s[i])),
{
    let t = s.remove(i);
    let kd = T::key_of(s[i]);
    assert forall|a: int, b: int|
        #![trigger t[a], t[b]]
        0 <= a < t.len() && 0 <= b < t.len() && a != b implies T::key_of(t[a]) != T::key_of(t[b]) by {
        let a2 = if a < i { a } else { a + 1 };
        let b2 = if b < i { b } else { b + 1 };
        assert(t[a] == s[a2] && t[b] == s[b2]);
    }
    let m = rows_to_map::<T>(s).remove(kd);
    assert forall|k: u64| rows_to_map::<T>(t).contains_key(k) <==> m.contains_key(k) by {
        if has_key::<T>(t, k) {
            let a = choose|a: int| 0 <= a < t.len() && #[trigger] T::key_of(t[a]) == k;
            let a2 = if a < i { a } else { a + 1 };
            assert(t[a] == s[a2]);
            assert(has_key::<T>(s, k));
            assert(a2 != i);
        }
        if has_key::<T>(s, k) && k != kd {
            let a = choose|a: int| 0 <= a < s.len() && #[trigger] T::key_of(s[a]) == k;
            assert(a != i);
            let a1 = if a < i { a } else { a - 1 };
            assert(t[a1] == s[a]);
            assert(has_key::<T>(t, k));
        }
    }
    assert forall|k: u64| #[trigger] rows_to_map::<T>(t).contains_key(k) implies rows_to_map::<T>(
        t,
    )[k] == m[k] by {
        let a = choose|a: int| 0 <= a < t.len() && #[trigger] T::key_of(t[a]) == k;
        lemma_rows_lookup::<T>(t, a);
        let a2 = if a < i { a } else { a + 1 };
        assert(t[a] == s[a2]);
        lemma_rows_lookup::<T>(s, a2);
    }
    assert(rows_to_map::<T>(t) =~= m);
}

pub proof fn lemma_rows_update<T: KeyedRow>(s: Seq<T::V>, i: int, v: T::V)
    requires
        keys_unique::<T>(s),
        0 <= i < s.len(),
        T::key_of(v) == T::key_of(s[i]),
    ensures
        keys_unique::<T>(s.update(i, v)),
        rows_to_map::<T>(s.update(i, v)) == rows_to_map::<T>(s).insert(T::key_of(v), v),
{
    let t = s.update(i, v);
    assert forall|a: int, b: int|
        #![trigger t[a], t[b]]
        0 <= a < t.len() && 0 <= b < t.len() && a != b implies T::key_of(t[a]) != T::key_of(t[b]) by {
        assert(T::key_of(t[a]) == T::key_of(s[a]));
        assert(T::key_of(t[b]) == T::key_of(s[b]));
    }
    let m = rows_to_map::<T>(s).insert(T::key_of(v), v);
    assert forall|k: u64| rows_to_map::<T>(t).contains_key(k) <==> m.contains_key(k) by {
        if has_key::<T>(t, k) {
            let a = choose|a: int| 0 <= a < t.len() && #[trigger] T::key_of(t[a]) == k;
            assert(T::key_of(t[a]) == T::key_of(s[a]));
            assert(has_key::<T>(s, k));
        }
        if has_key::<T>(s, k) {
            let a = choose|a: int| 0 <= a < s.len() && #[trigger] T::key_of(s[a]) == k;
            assert(T::key_of(t[a]) == T::key_of(s[a]));
            assert(has_key::<T>(t, k));
        }
        lemma_rows_lookup::<T>(s, i);
    }
    assert forall|k: u64| #[trigger] rows_to_map::<T>(t).contains_key(k) implies rows_to_map::<T>(
        t,
    )[k] == m[k] by {
        let a = choose|a: int| 0 <= a < t.len() && #[trigger] T::key_of(t[a]) == k;
        lemma_rows_lookup::<T>(t, a);
        if a != i {
            assert(t[a] == s[a]);
            lemma_rows_lookup::<T>(s, a);
        }
    }
    assert(rows_to_map::<T>(t) =~= m);
}

/// The row stored under a key carries that key.
pub proof fn lemma_rows_key<T: KeyedRow>(s: Seq<T::V>, k: u64)
    requires
        rows_to_map::<T>(s).contains_key(k),
    ensures
        T::key_of(rows_to_map::<T>(s)[k]) == k,
{
}

/// A table keyed by a unique `u64` column.
pub struct Table<T> {
    rows: Vec<T>,
}

impl<T: KeyedRow> View for Table<T> {
    type V = Map<u64, T::V>;

    open spec fn view(&self) -> Map<u64, T::V> {
        rows_to_map::<T>(self.entries())
    }
}

impl<T: KeyedRow> Table<T> {
    /// The rows in storage order.
    pub closed spec fn entries(&self) -> Seq<T::V> {
        self.rows@.map_values(|r: T| r@)
    }

    /// No two stored rows share a key.
    pub open spec fn wf(&self) -> bool {
        keys_unique::<T>(self.entries())
    }

    pub fn new() -> (t: Self)
        ensures
            t.wf(),
            t@ == Map::<u64, T::V>::empty(),
            t.entries().len() == 0,
    {
        let t = Table { rows: Vec::new() };
        assert(t.entries() =~= Seq::<T::V>::empty());
        assert(t@ =~= Map::<u64, T::V>::empty());
        t
    }

    pub fn len(&self) -> (n: usize)
        ensures
            n == self.entries().len(),
    {
        self.rows.len()
    }

    /// The row stored at position `i`.
    pub fn row_at(&self, i: usize) -> (r: &T)
        requires
            i < self.entries().len(),
        ensures
            r@ == self.entries()[i as int],
    {
        &self.rows[i]
    }

    /// Every stored row is in the map under its own key.
    pub proof fn lemma_entry_in_view(&self, i: int)
        requires
            self.wf(),
            0 <= i < self.entries().len(),
        ensures
            self@.contains_key(T::key_of(self.entries()[i])),
            self@[T::key_of(self.entries()[i])] == self.entries()[i],
    {
        lemma_rows_lookup::<T>(self.entries(), i);
    }

    /// Every key of the map is the key of some stored row.
    pub proof fn lemma_view_key_stored(&self, k: u64)
        requires
            self@.contains_key(k),
        ensures
            exists|i: int| 0 <= i < self.entries().len() && #[trigger] T::key_of(self.entries()[i]) == k,
    {
    }

    fn position(&self, k: u64) -> (r: Option<usize>)
        requires
            self.wf(),
        ensures
            r is Some <==> self@.contains_key(k),
            r matches Some(i) ==> i < self.rows.len() && T::key_of(self.rows@[i as int]@) == k,
    {
        let mut i: usize = 0;
        while i < self.rows.len()
            invariant
                self.wf(),
                i <= self.rows.len(),
                forall|j: int| 0 <= j < i ==> T::key_of(#[trigger] self.entries()[j]) != k,
            decreases self.rows.len() - i,
        {
            if self.rows[i].row_key() == k {
                assert(self.entries()[i as int] == self.rows@[i as int]@);
                return Some(i);
            }
            assert(self.entries()[i as int] == self.rows@[i as int]@);
            i += 1;
        }
        proof {
            if has_key::<T>(self.entries(), k) {
                let j = choose|j: int| 0 <= j < self.entries().len() && #[trigger] T::key_of(self.entries()[j]) == k;
                assert(T::key_of(self.entries()[j]) != k);
            }
        }
        None
    }

    /// The row with key `k`, if any.
    pub fn find(&self, k: u64) -> (r: Option<&T>)
        requires
            self.wf(),
        ensures
            r is Some <==> self@.contains_key(k),
            r matches Some(row) ==> row@ == self@[k],
    {
        match self.position(k) {
            Some(i) => {
                proof {
                    assert(self.entries()[i as int] == self.rows@[i as int]@);
                    lemma_rows_lookup::<T>(self.entries(), i as int);
                }
                Some(&self.rows[i])
            },
            None => None,
        }
    }

    /// Whether a row with key `k` is stored.
    pub fn contains(&self, k: u64) -> (r: bool)
        requires
            self.wf(),
        ensures
            r == self@.contains_key(k),
    {
        self.position(k).is_some()
    }

    /// Stores `row`. A row with the same key must be absent, or identical, in
    /// which case nothing changes.
    pub fn insert(&mut self, row: T)
        requires
            old(self).wf(),
            !old(self)@.contains_key(T::key_of(row@)) || old(self)@[T::key_of(row@)] == row@,
        ensures
            final(self).wf(),
            final(self)@ == old(self)@.insert(T::key_of(row@), row@),
    {
        let k = row.row_key();
        if self.position(k).is_some() {
            assert(self@.insert(k, row@) =~= self@);
            return;
        }
        let ghost s = self.entries();
        self.rows.push(row);
        proof {
            assert(self.entries() =~= s.push(row@));
            lemma_rows_push::<T>(s, row@);
        }
    }

    /// Replaces the row that has the key of `row`, which must be present.
    pub fn update(&mut self, row: T)
        requires
            old(self).wf(),
            old(self)@.contains_key(T::key_of(row@)),
        ensures
            final(self).wf(),
            final(self)@ == old(self)@.insert(T::key_of(row@), row@),
    {
        let k = row.row_key();
        let i = self.position(k).unwrap();
        let ghost s = self.entries();
        self.rows.set(i, row);
        proof {
            assert(self.entries() =~= s.update(i as int, row@));
            lemma_rows_update::<T>(s, i as int, row@);
        }
    }

    /// Removes the row with key `k`, returning it if there was one.
    pub fn take(&mut self, k: u64) -> (r: Option<T>)
        requires
            old(self).wf(),
        ensures
            final(self).wf(),
            r is Some <==> old(self)@.contains_key(k),
            r matches Some(row) ==> row@ == old(self)@[k],
            final(self)@ == old(self)@.remove(k),
    {
        match self.position(k) {
            Some(i) => {
                let ghost s = self.entries();
                proof {
                    assert(s[i as int] == self.rows@[i as int]@);
                    lemma_rows_lookup::<T>(s, i as int);
                }
                let row = self.rows.remove(i);
                proof {
                    assert(self.entries() =~= s.remove(i as int));
                    lemma_rows_remove::<T>(s, i as int);
                }
                Some(row)
            },
            None => {
                assert(self@.remove(k) =~= self@);
                None
            },
        }
    }

    /// Deletes the row with key `k`; tells whether there was one.
    pub fn delete(&mut self, k: u64) -> (r: bool)
        requires
            old(self).wf(),
        ensures
            final(self).wf(),
            r == old(self)@.contains_key(k),
            final(self)@ == old(self)@.remove(k),
    {
        self.take(k).is_some()
    }
}


impl<T: KeyedRow> Table<T> {
    /// The row stored under a key carries that key.
    pub proof fn lemma_key_of_row(&self, k: u64)
        requires
            self@.contains_key(k),
        ensures
            T::key_of(self@[k]) == k,
    {
        lemma_rows_key::<T>(self.entries(), k);
    }

    /// The stored rows, in storage order.
    pub fn as_vec(&self) -> (r: &Vec<T>)
        ensures
            r@.map_values(|x: T| x@) == self.entries(),
    {
        &self.rows
    }

    /// A table holding `rows`, or `None` when two of them share a key.
    pub fn from_vec(rows: Vec<T>) -> (r: Option<Self>)
        ensures
            r is Some <==> keys_unique::<T>(rows@.map_values(|x: T| x@)),
            r matches Some(t) ==> t.wf() && t.entries() == rows@.map_values(|x: T| x@),
    {
        let ghost s = rows@.map_values(|x: T| x@);
        let mut i: usize = 0;
        while i < rows.len()
            invariant
                i <= rows.len(),
                s == rows@.map_values(|x: T| x@),
                forall|a: int, b: int|
                    #![trigger s[a], s[b]]
                    0 <= a < i && 0 <= b < s.len() && a != b ==> T::key_of(s[a]) != T::key_of(s[b]),
            decreases rows.len() - i,
        {
            let ki = rows[i].row_key();
            let mut j: usize = 0;
            while j < rows.len()
                invariant
                    i < rows.len(),
                    j <= rows.len(),
                    s == rows@.map_values(|x: T| x@),
                    ki == T::key_of(s[i as int]),
                    forall|b: int|
                        #![trigger s[b]]
                        0 <= b < j && b != i ==> T::key_of(s[i as int]) != T::key_of(s[b]),
                decreases rows.len() - j,
            {
                if j != i && rows[j].row_key() == ki {
                    assert(!keys_unique::<T>(s)) by {
                        assert(s[i as int] == rows@[i as int]@);
                        assert(s[j as int] == rows@[j as int]@);
                    }
                    return None;
                }
                assert(s[j as int] == rows@[j as int]@);
                j += 1;
            }
            assert(s[i as int] == rows@[i as int]@);
            i += 1;
        }
        let t = Table { rows };
        assert(keys_unique::<T>(s)) by {
            assert forall|a: int, b: int|
                #![trigger s[a], s[b]]
                0 <= a < s.len() && 0 <= b < s.len() && a != b implies T::key_of(s[a])
                != T::key_of(s[b]) by {
            }
        }
        assert(t.entries() == s);
        Some(t)
    }
}

} // verus!
