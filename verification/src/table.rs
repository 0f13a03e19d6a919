//! Association tables and ascending sets of variable numbers.

use vstd::prelude::*;

verus! {

/// The views of the items of a list.
pub open spec fn views<T: View>(s: Seq<T>) -> Seq<T::V> {
    Seq::new(s.len(), |i: int| s[i]@)
}

pub broadcast proof fn lemma_views_push<T: View>(s: Seq<T>, x: T)
    ensures
        #[trigger] views(s.push(x)) == views(s).push(x@),
{
    assert(views(s.push(x)) =~= views(s).push(x@));
}

pub broadcast proof fn lemma_views_empty<T: View>(s: Seq<T>)
    requires
        s.len() == 0,
    ensures
        #[trigger] views(s) == Seq::<T::V>::empty(),
{
    assert(views(s) =~= Seq::<T::V>::empty());
}

pub broadcast proof fn lemma_views_subrange<T: View>(s: Seq<T>, i: int, j: int)
    requires
        0 <= i <= j <= s.len(),
    ensures
        #[trigger] views(s.subrange(i, j)) == views(s).subrange(i, j),
{
    assert(views(s.subrange(i, j)) =~= views(s).subrange(i, j));
}

pub broadcast proof fn lemma_views_add<T: View>(s: Seq<T>, t: Seq<T>)
    ensures
        #[trigger] views(s + t) == views(s) + views(t),
{
    assert(views(s + t) =~= views(s) + views(t));
}

pub broadcast group group_views {
    lemma_views_push,
    lemma_views_empty,
    lemma_views_subrange,
    lemma_views_add,
}

/// A value that can be copied so that the copy has the same view.
pub trait Dup: View + Sized {
    fn dup(&self) -> (r: Self)
        ensures
            r@ == self@,
    ;
}

impl Dup for String {
    fn dup(&self) -> (r: Self) {
        self.clone()
    }
}

impl Dup for u32 {
    fn dup(&self) -> (r: Self) {
        *self
    }
}

impl Dup for usize {
    fn dup(&self) -> (r: Self) {
        *self
    }
}

/// A list with the same views.
pub fn dup_list<T: Dup>(v: &Vec<T>) -> (r: Vec<T>)
    ensures
        views(r@) == views(v@),
        r.len() == v.len(),
{
    let mut out: Vec<T> = Vec::new();
    let mut i: usize = 0;
    while i < v.len()
        invariant
            i <= v.len(),
            out.len() == i,
            forall|j: int| 0 <= j < i ==> (#[trigger] out@[j])@ == v@[j]@,
        decreases v.len() - i,
    {
        out.push(v[i].dup());
        i = i + 1;
    }
    assert(views(out@) =~= views(v@));
    out
}

/// A copy of the items from `from` to the end.
pub fn dup_tail<T: Dup>(v: &Vec<T>, from: usize) -> (r: Vec<T>)
    requires
        from <= v.len(),
    ensures
        views(r@) == views(v@).subrange(from as int, v.len() as int),
{
    let mut out: Vec<T> = Vec::new();
    let mut i: usize = from;
    while i < v.len()
        invariant
            from <= i <= v.len(),
            out.len() == i - from,
            forall|j: int| 0 <= j < i - from ==> (#[trigger] out@[j])@ == v@[from + j]@,
        decreases v.len() - i,
    {
        out.push(v[i].dup());
        i = i + 1;
    }
    assert(views(out@) =~= views(v@).subrange(from as int, v.len() as int));
    out
}

/// Whether the list holds the name.
pub fn holds_name(v: &Vec<String>, name: &String) -> (r: bool)
    ensures
        r == views(v@).contains(name@),
{
    let mut i: usize = 0;
    while i < v.len()
        invariant
            i <= v.len(),
            forall|j: int| 0 <= j < i ==> (#[trigger] v@[j])@ != name@,
        decreases v.len() - i,
    {
        if v[i] == *name {
            assert(views(v@)[i as int] == name@);
            return true;
        }
        i = i + 1;
    }
    false
}

/// A value that can be compared by its view.
pub trait Key: View + Sized {
    fn same_key(&self, other: &Self) -> (r: bool)
        ensures
            r == (self@ == other@),
    ;
}

impl Key for String {
    fn same_key(&self, other: &Self) -> (r: bool) {
        *self == *other
    }
}

impl Key for u32 {
    fn same_key(&self, other: &Self) -> (r: bool) {
        *self == *other
    }
}

impl Key for (String, String) {
    fn same_key(&self, other: &Self) -> (r: bool) {
        self.0 == other.0 && self.1 == other.1
    }
}

impl Dup for (String, String) {
    fn dup(&self) -> (r: Self) {
        (self.0.clone(), self.1.clone())
    }
}

/// What a list of entries maps: a later entry hides an earlier one of the same key.
pub open spec fn entries_map<K: View, V: View>(s: Seq<(K, V)>) -> Map<K::V, V::V>
    decreases s.len(),
{
    if s.len() == 0 {
        Map::empty()
    } else {
        entries_map(s.drop_last()).insert(s.last().0@, s.last().1@)
    }
}

/// An association table.
pub struct Table<K, V> {
    entries: Vec<(K, V)>,
}

impl<K: View, V: View> View for Table<K, V> {
    type V = Map<K::V, V::V>;

    closed spec fn view(&self) -> Map<K::V, V::V> {
        entries_map(self.entries@)
    }
}

impl<K: Key, V: View> Table<K, V> {
    /// A table that maps nothing.
    pub fn new() -> (r: Self)
        ensures
            r@ == Map::<K::V, V::V>::empty(),
    {
        Table { entries: Vec::new() }
    }

    /// Maps `key` to `value`, in place of what it was mapped to.
    pub fn insert(&mut self, key: K, value: V)
        ensures
            final(self)@ == old(self)@.insert(key@, value@),
    {
        self.entries.push((key, value));
        assert(self.entries@.drop_last() =~= old(self).entries@);
    }

    /// What `key` is mapped to.
    pub fn get(&self, key: &K) -> (r: Option<&V>)
        ensures
            match r {
                Some(v) => self@.contains_key(key@) && self@[key@] == v@,
                None => !self@.contains_key(key@),
            },
    {
        let mut i: usize = self.entries.len();
        let ghost all = self.entries@;
        assert(all.subrange(0, all.len() as int) =~= all);
        while i > 0
            invariant
                i <= self.entries.len(),
                all == self.entries@,
                entries_map(all).contains_key(key@) == entries_map(
                    all.subrange(0, i as int),
                ).contains_key(key@),
                entries_map(all).contains_key(key@) ==> entries_map(all)[key@] == entries_map(
                    all.subrange(0, i as int),
                )[key@],
            decreases i,
        {
            let ghost upto = all.subrange(0, i as int);
            assert(upto.drop_last() =~= all.subrange(0, i - 1));
            assert(upto.last() == all[i - 1]);
            if self.entries[i - 1].0.same_key(key) {
                return Some(&self.entries[i - 1].1);
            }
            i = i - 1;
        }
        None
    }

    /// Whether `key` is mapped.
    pub fn has(&self, key: &K) -> (r: bool)
        ensures
            r == self@.contains_key(key@),
    {
        self.get(key).is_some()
    }

    /// Whether nothing is mapped.
    pub fn is_empty(&self) -> (r: bool)
        ensures
            r == (self@ == Map::<K::V, V::V>::empty()),
    {
        proof {
            let s = self.entries@;
            if s.len() > 0 {
                assert(self@.contains_key(s.last().0@));
            }
        }
        self.entries.len() == 0
    }

    /// The number of entries, hidden ones included.
    pub fn rows(&self) -> (r: usize)
        ensures
            r == self.row_count(),
    {
        self.entries.len()
    }

    pub closed spec fn row_count(&self) -> nat {
        self.entries@.len()
    }

    /// The entry that was put in as the `i`th.
    pub closed spec fn row_at(&self, i: int) -> (K, V) {
        self.entries@[i]
    }

    pub fn row(&self, i: usize) -> (r: &(K, V))
        requires
            i < self.row_count(),
        ensures
            *r == self.row_at(i as int),
    {
        &self.entries[i]
    }

    /// What the first `n` entries map.
    pub closed spec fn first_rows(&self, n: int) -> Map<K::V, V::V> {
        entries_map(self.entries@.subrange(0, n))
    }

    pub proof fn lemma_first_rows(&self, n: int)
        requires
            0 <= n <= self.row_count(),
        ensures
            n == 0 ==> self.first_rows(n) == Map::<K::V, V::V>::empty(),
            n > 0 ==> self.first_rows(n) == self.first_rows(n - 1).insert(
                self.row_at(n - 1).0@,
                self.row_at(n - 1).1@,
            ),
            n == self.row_count() ==> self.first_rows(n) == self@,
    {
        if n > 0 {
            assert(self.entries@.subrange(0, n).drop_last() =~= self.entries@.subrange(0, n - 1));
        }
        if n == self.row_count() {
            assert(self.entries@.subrange(0, n) =~= self.entries@);
        }
    }
}

impl<K: Key, V: View> Table<K, V> {
    /// A table maps finitely many keys.
    pub proof fn lemma_finite(&self)
        ensures
            self@.dom().finite(),
    {
        lemma_entries_finite(self.entries@);
    }

    /// The key of every entry is mapped.
    pub proof fn lemma_rows_mapped(&self, i: int)
        requires
            0 <= i < self.row_count(),
        ensures
            self@.contains_key(self.row_at(i).0@),
    {
        lemma_entries_mapped(self.entries@, i);
    }
}

proof fn lemma_entries_finite<K: View, V: View>(s: Seq<(K, V)>)
    ensures
        entries_map(s).dom().finite(),
    decreases s.len(),
{
    if s.len() > 0 {
        lemma_entries_finite(s.drop_last());
    }
}

proof fn lemma_entries_mapped<K: View, V: View>(s: Seq<(K, V)>, i: int)
    requires
        0 <= i < s.len(),
    ensures
        entries_map(s).contains_key(s[i].0@),
    decreases s.len(),
{
    if i < s.len() - 1 {
        lemma_entries_mapped(s.drop_last(), i);
        assert(s.drop_last()[i] == s[i]);
    }
}

impl<K: Key + Dup, V: Dup> Table<K, V> {
    /// Maps `key` to nothing.
    pub fn remove(&mut self, key: &K)
        ensures
            final(self)@ == old(self)@.remove(key@),
    {
        let mut out: Vec<(K, V)> = Vec::new();
        let mut i: usize = 0;
        let ghost all = self.entries@;
        while i < self.entries.len()
            invariant
                i <= self.entries.len(),
                all == self.entries@,
                entries_map(out@) == entries_map(all.subrange(0, i as int)).remove(key@),
            decreases self.entries.len() - i,
        {
            let ghost upto = all.subrange(0, i + 1);
            assert(upto.drop_last() =~= all.subrange(0, i as int));
            assert(upto.last() == all[i as int]);
            if !self.entries[i].0.same_key(key) {
                let ghost before = out@;
                out.push((self.entries[i].0.dup(), self.entries[i].1.dup()));
                assert(out@.drop_last() =~= before);
            }
            assert(entries_map(out@) =~= entries_map(upto).remove(key@));
            i = i + 1;
        }
        assert(all.subrange(0, i as int) =~= all);
        self.entries = out;
    }
}

impl<K: Key + Dup, V: Dup> Dup for Table<K, V> {
    fn dup(&self) -> (r: Self) {
        let mut out: Vec<(K, V)> = Vec::new();
        let mut i: usize = 0;
        let ghost all = self.entries@;
        while i < self.entries.len()
            invariant
                i <= self.entries.len(),
                all == self.entries@,
                entries_map(out@) == entries_map(all.subrange(0, i as int)),
            decreases self.entries.len() - i,
        {
            let ghost upto = all.subrange(0, i + 1);
            assert(upto.drop_last() =~= all.subrange(0, i as int));
            assert(upto.last() == all[i as int]);
            let ghost before = out@;
            out.push((self.entries[i].0.dup(), self.entries[i].1.dup()));
            assert(out@.drop_last() =~= before);
            i = i + 1;
        }
        assert(all.subrange(0, i as int) =~= all);
        Table { entries: out }
    }
}

/// An ascending list of numbers with `v` put in at its place, unless it is there.
pub open spec fn with_number(s: Seq<u32>, v: u32) -> Seq<u32>
    decreases s.len(),
{
    if s.len() == 0 {
        seq![v]
    } else if s.last() == v {
        s
    } else if s.last() < v {
        s.push(v)
    } else {
        with_number(s.drop_last(), v).push(s.last())
    }
}

/// `s` with each number of `t` put in, in order.
pub open spec fn with_numbers(s: Seq<u32>, t: Seq<u32>) -> Seq<u32>
    decreases t.len(),
{
    if t.len() == 0 {
        s
    } else {
        with_number(with_numbers(s, t.drop_last()), t.last())
    }
}

pub open spec fn ascending(s: Seq<u32>) -> bool {
    forall|i: int, j: int| 0 <= i < j < s.len() ==> s[i] < s[j]
}

/// Putting a number in keeps the order, and adds that number and no other.
pub proof fn lemma_with_number(s: Seq<u32>, v: u32)
    ensures
        ascending(s) ==> ascending(with_number(s, v)),
        forall|x: u32| #[trigger] with_number(s, v).contains(x) <==> s.contains(x) || x == v,
        with_number(s, v).len() >= s.len(),
        with_number(s, v).len() > 0,
    decreases s.len(),
{
    let r = with_number(s, v);
    if s.len() == 0 {
        assert(r[0] == v);
        assert forall|x: u32| r.contains(x) <==> s.contains(x) || x == v by {
            if x == v {
                assert(r.contains(r[0]));
            }
        }
    } else if s.last() == v {
        assert(s[s.len() - 1] == v);
    } else if s.last() < v {
        assert forall|x: u32| r.contains(x) <==> s.contains(x) || x == v by {
            if s.contains(x) {
                let i = choose|i: int| 0 <= i < s.len() && s[i] == x;
                assert(r[i] == x);
            }
            if x == v {
                assert(r[s.len() as int] == v);
            }
        }
    } else {
        let inner = with_number(s.drop_last(), v);
        lemma_with_number(s.drop_last(), v);
        assert forall|x: u32| r.contains(x) <==> s.contains(x) || x == v by {
            if s.contains(x) {
                let i = choose|i: int| 0 <= i < s.len() && s[i] == x;
                if i < s.len() - 1 {
                    assert(s.drop_last()[i] == x);
                    assert(inner.contains(x));
                    let k = choose|k: int| 0 <= k < inner.len() && inner[k] == x;
                    assert(r[k] == x);
                } else {
                    assert(r[inner.len() as int] == x);
                }
            }
            if x == v {
                assert(inner.contains(v));
                let k = choose|k: int| 0 <= k < inner.len() && inner[k] == v;
                assert(r[k] == x);
            }
            if r.contains(x) {
                let k = choose|k: int| 0 <= k < r.len() && r[k] == x;
                if k < inner.len() {
                    assert(inner.contains(inner[k]));
                    if x != v {
                        assert(s.drop_last().contains(x));
                        let m = choose|m: int| 0 <= m < s.len() - 1 && s.drop_last()[m] == x;
                        assert(s[m] == x);
                    }
                } else {
                    assert(s[s.len() - 1] == x);
                }
            }
        }
        if ascending(s) {
            assert(ascending(s.drop_last()));
            assert forall|i: int, j: int| 0 <= i < j < r.len() implies r[i] < r[j] by {
                if j == inner.len() {
                    assert(inner.contains(inner[i]));
                    if inner[i] != v {
                        assert(s.drop_last().contains(inner[i]));
                        let m = choose|m: int|
                            0 <= m < s.len() - 1 && s.drop_last()[m] == inner[i];
                        assert(s[m] < s[s.len() - 1]);
                    }
                }
            }
        }
    }
}

/// Putting numbers in keeps the order, and adds those numbers and no others.
pub proof fn lemma_with_numbers(s: Seq<u32>, t: Seq<u32>)
    ensures
        ascending(s) ==> ascending(with_numbers(s, t)),
        forall|x: u32| #[trigger] with_numbers(s, t).contains(x) <==> s.contains(x) || t.contains(x),
    decreases t.len(),
{
    if t.len() > 0 {
        let inner = with_numbers(s, t.drop_last());
        lemma_with_numbers(s, t.drop_last());
        lemma_with_number(inner, t.last());
        assert forall|x: u32| #[trigger]
            with_numbers(s, t).contains(x) <==> s.contains(x) || t.contains(x) by {
            if t.contains(x) {
                let i = choose|i: int| 0 <= i < t.len() && t[i] == x;
                if i < t.len() - 1 {
                    assert(t.drop_last()[i] == x);
                    assert(t.drop_last().contains(x));
                }
            }
            if t.drop_last().contains(x) {
                let i = choose|i: int| 0 <= i < t.len() - 1 && t.drop_last()[i] == x;
                assert(t[i] == x);
            }
            assert(t[t.len() - 1] == t.last());
            assert(with_numbers(s, t).contains(x) <==> inner.contains(x) || x == t.last());
        }
    }
}

/// Puts a number into an ascending list.
pub fn put_number(s: &mut Vec<u32>, v: u32)
    ensures
        final(s)@ == with_number(old(s)@, v),
{
    let mut i: usize = s.len();
    let ghost all = s@;
    assert(all.subrange(0, i as int) =~= all);
    assert(with_number(all, v) =~= with_number(all.subrange(0, i as int), v) + all.subrange(
        i as int,
        all.len() as int,
    ));
    while i > 0 && v < s[i - 1]
        invariant
            i <= s.len(),
            s@ == all,
            with_number(all, v) == with_number(all.subrange(0, i as int), v) + all.subrange(
                i as int,
                all.len() as int,
            ),
        decreases i,
    {
        let ghost upto = all.subrange(0, i as int);
        assert(upto.drop_last() =~= all.subrange(0, i - 1));
        i = i - 1;
        assert(with_number(all, v) =~= with_number(all.subrange(0, i as int), v) + all.subrange(
            i as int,
            all.len() as int,
        ));
    }
    if i > 0 && s[i - 1] == v {
        assert(with_number(all, v) =~= all);
        return;
    }
    assert(with_number(all.subrange(0, i as int), v) =~= all.subrange(0, i as int).push(v));
    s.insert(i, v);
    assert(s@ =~= with_number(all, v));
}

/// Puts each number of `t` into an ascending list.
pub fn put_numbers(s: &mut Vec<u32>, t: &Vec<u32>)
    ensures
        final(s)@ == with_numbers(old(s)@, t@),
{
    let mut i: usize = 0;
    while i < t.len()
        invariant
            i <= t.len(),
            s@ == with_numbers(old(s)@, t@.subrange(0, i as int)),
        decreases t.len() - i,
    {
        put_number(s, t[i]);
        i = i + 1;
        assert(t@.subrange(0, i as int).drop_last() =~= t@.subrange(0, i - 1));
    }
    assert(t@.subrange(0, i as int) =~= t@);
}

/// Whether the list holds the number.
pub fn holds_number(s: &Vec<u32>, v: u32) -> (r: bool)
    ensures
        r == s@.contains(v),
{
    let mut i: usize = 0;
    while i < s.len()
        invariant
            i <= s.len(),
            forall|j: int| 0 <= j < i ==> s@[j] != v,
        decreases s.len() - i,
    {
        if s[i] == v {
            assert(s@[i as int] == v);
            return true;
        }
        i = i + 1;
    }
    false
}

} // verus!
