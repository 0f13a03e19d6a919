//! Lists of named entries that keep the order in which they were noted, and sets
//! of names.

use vstd::prelude::*;

use crate::table::{group_views, holds_name, views, Dup};
use crate::text::{comes_before, text_before};

verus! {

broadcast use group_views;

/// A copy of names.
pub fn dup_names(names: &Vec<String>) -> (r: Vec<String>)
    ensures
        views(r@) == views(names@),
{
    let mut out: Vec<String> = Vec::new();
    let mut i: usize = 0;
    while i < names.len()
        invariant
            i <= names.len(),
            views(out@) == views(names@).take(i as int),
        decreases names.len() - i,
    {
        out.push(names[i].clone());
        i = i + 1;
    }
    assert(views(names@).take(i as int) =~= views(names@));
    out
}

/// A sorted list of names with `x` put in at its place, unless it is there.
pub open spec fn with_name(s: Seq<Seq<char>>, x: Seq<char>) -> Seq<Seq<char>>
    decreases s.len(),
{
    if s.len() == 0 {
        seq![x]
    } else if s.last() == x {
        s
    } else if text_before(s.last(), x) {
        s.push(x)
    } else {
        with_name(s.drop_last(), x).push(s.last())
    }
}

/// Puts a name into a sorted list of names, unless it is there.
pub fn put_name(s: &mut Vec<String>, x: &String)
    ensures
        views(final(s)@) == with_name(views(old(s)@), x@),
{
    let mut i: usize = s.len();
    let ghost all = views(s@);
    assert(all.subrange(0, i as int) =~= all);
    assert(with_name(all, x@) =~= with_name(all.subrange(0, i as int), x@) + all.subrange(
        i as int,
        all.len() as int,
    ));
    while i > 0 && s[i - 1] != *x && !comes_before(s[i - 1].as_str(), x.as_str())
        invariant
            i <= s.len(),
            views(s@) == all,
            with_name(all, x@) == with_name(all.subrange(0, i as int), x@) + all.subrange(
                i as int,
                all.len() as int,
            ),
        decreases i,
    {
        let ghost upto = all.subrange(0, i as int);
        assert(upto.drop_last() =~= all.subrange(0, i - 1));
        assert(upto.last() == s@[i - 1]@);
        i = i - 1;
        assert(with_name(all, x@) =~= with_name(all.subrange(0, i as int), x@) + all.subrange(
            i as int,
            all.len() as int,
        ));
    }
    let ghost upto = all.subrange(0, i as int);
    if i > 0 && s[i - 1] == *x {
        assert(upto.last() == x@);
        assert(with_name(all, x@) =~= all);
        return;
    }
    assert(with_name(upto, x@) =~= upto.push(x@)) by {
        if i > 0 {
            assert(upto.last() == s@[i - 1]@);
        }
    }
    s.insert(i, x.clone());
    assert(views(s@) =~= with_name(all, x@));
}

/// The first entry of the name.
pub open spec fn entry_of<V>(s: Seq<(Seq<char>, V)>, name: Seq<char>) -> Option<V>
    decreases s.len(),
{
    if s.len() == 0 {
        None
    } else if s[0].0 == name {
        Some(s[0].1)
    } else {
        entry_of(s.subrange(1, s.len() as int), name)
    }
}

/// The entries with one more at the end, unless there is one of its name.
pub open spec fn noted<V>(s: Seq<(Seq<char>, V)>, name: Seq<char>, value: V) -> Seq<
    (Seq<char>, V),
> {
    if entry_of(s, name) is Some {
        s
    } else {
        s.push((name, value))
    }
}

/// The place of the first entry of the name, or the number of entries.
pub open spec fn entry_place<V>(s: Seq<(Seq<char>, V)>, name: Seq<char>, from: nat) -> nat
    decreases s.len() - from,
{
    if from >= s.len() {
        s.len()
    } else if s[from as int].0 == name {
        from
    } else {
        entry_place(s, name, from + 1)
    }
}

/// The entries with the value of the first one of the name replaced, or with one
/// more at the end where there is none.
pub open spec fn with_entry<V>(s: Seq<(Seq<char>, V)>, name: Seq<char>, value: V) -> Seq<
    (Seq<char>, V),
> {
    let i = entry_place(s, name, 0);
    if i < s.len() {
        s.update(i as int, (name, value))
    } else {
        s.push((name, value))
    }
}

/// An entry is found if and only if its name is there.
pub proof fn lemma_entry_of<V>(s: Seq<(Seq<char>, V)>, name: Seq<char>)
    ensures
        entry_of(s, name) is Some <==> exists|i: int| 0 <= i < s.len() && (#[trigger] s[i]).0 == name,
        entry_of(s, name) matches Some(v) ==> exists|i: int|
            0 <= i < s.len() && #[trigger] s[i] == (name, v),
    decreases s.len(),
{
    if s.len() > 0 && s[0].0 != name {
        let rest = s.subrange(1, s.len() as int);
        lemma_entry_of(rest, name);
        if exists|i: int| 0 <= i < s.len() && (#[trigger] s[i]).0 == name {
            let i = choose|i: int| 0 <= i < s.len() && (#[trigger] s[i]).0 == name;
            assert(rest[i - 1] == s[i]);
        }
        if exists|i: int| 0 <= i < rest.len() && (#[trigger] rest[i]).0 == name {
            let i = choose|i: int| 0 <= i < rest.len() && (#[trigger] rest[i]).0 == name;
            assert(s[i + 1] == rest[i]);
        }
        if let Some(v) = entry_of(s, name) {
            let i = choose|i: int| 0 <= i < rest.len() && #[trigger] rest[i] == (name, v);
            assert(s[i + 1] == rest[i]);
        }
    }
    if s.len() > 0 && s[0].0 == name {
        assert(s[0] == (name, s[0].1));
    }
}

/// Named entries in the order in which they were noted.
pub struct Listing<V> {
    pub entries: Vec<(String, V)>,
}

impl<V: View> View for Listing<V> {
    type V = Seq<(Seq<char>, V::V)>;

    open spec fn view(&self) -> Seq<(Seq<char>, V::V)> {
        views(self.entries@)
    }
}

impl<V: View> Listing<V> {
    /// A list without entries.
    pub fn new() -> (r: Self)
        ensures
            r@ == Seq::<(Seq<char>, V::V)>::empty(),
    {
        Listing { entries: Vec::new() }
    }

    /// The first entry of the name.
    pub fn find(&self, name: &str) -> (r: Option<&V>)
        ensures
            match r {
                Some(v) => entry_of(self@, name@) == Some(v@),
                None => entry_of(self@, name@) is None,
            },
    {
        let mut i: usize = 0;
        let ghost all = self@;
        assert(all.subrange(0, all.len() as int) =~= all);
        while i < self.entries.len()
            invariant
                i <= self.entries.len(),
                all == self@,
                entry_of(all, name@) == entry_of(all.subrange(i as int, all.len() as int), name@),
            decreases self.entries.len() - i,
        {
            let ghost rest = all.subrange(i as int, all.len() as int);
            assert(rest[0] == self.entries@[i as int]@);
            assert(rest.subrange(1, rest.len() as int) =~= all.subrange(
                i + 1,
                all.len() as int,
            ));
            if crate::text::same(self.entries[i].0.as_str(), name) {
                return Some(&self.entries[i].1);
            }
            i = i + 1;
        }
        None
    }

    /// Whether there is an entry of the name.
    pub fn has(&self, name: &str) -> (r: bool)
        ensures
            r == (entry_of(self@, name@) is Some),
    {
        self.find(name).is_some()
    }

    /// Adds the entry at the end, unless there is one of its name.
    pub fn note(&mut self, name: String, value: V)
        ensures
            final(self)@ == noted(old(self)@, name@, value@),
    {
        if !self.has(name.as_str()) {
            self.entries.push((name, value));
        }
    }

    /// Replaces the value of the first entry of the name, or adds an entry.
    pub fn put(&mut self, name: String, value: V)
        ensures
            final(self)@ == with_entry(old(self)@, name@, value@),
    {
        let mut i: usize = 0;
        let ghost all = self@;
        while i < self.entries.len() && !crate::text::same(
            self.entries[i].0.as_str(),
            name.as_str(),
        )
            invariant
                i <= self.entries.len(),
                all == self@,
                self.entries@ == old(self).entries@,
                entry_place(all, name@, 0) == entry_place(all, name@, i as nat),
            decreases self.entries.len() - i,
        {
            assert(all[i as int].0 == self.entries@[i as int].0@);
            i = i + 1;
        }
        if i < self.entries.len() {
            assert(all[i as int].0 == self.entries@[i as int].0@);
            let ghost pair = (name@, value@);
            self.entries[i] = (name, value);
            assert(self@ =~= all.update(i as int, pair));
        } else {
            self.entries.push((name, value));
        }
    }
}

impl<V: Dup> Listing<V> {
    /// A copy of the list.
    pub fn copy(&self) -> (r: Self)
        ensures
            r@ == self@,
    {
        let mut out: Vec<(String, V)> = Vec::new();
        let mut i: usize = 0;
        while i < self.entries.len()
            invariant
                i <= self.entries.len(),
                views(out@) == self@.subrange(0, i as int),
            decreases self.entries.len() - i,
        {
            out.push((self.entries[i].0.clone(), self.entries[i].1.dup()));
            i = i + 1;
            assert(self@.subrange(0, i as int) =~= self@.subrange(0, i - 1).push(self@[i - 1]));
        }
        assert(self@.subrange(0, i as int) =~= self@);
        Listing { entries: out }
    }
}

/// A set of names, each listed once.
#[derive(Debug)]
pub struct NameSet {
    pub items: Vec<String>,
}

impl View for NameSet {
    type V = Set<Seq<char>>;

    open spec fn view(&self) -> Set<Seq<char>> {
        views(self.items@).to_set()
    }
}

impl NameSet {
    /// The set without names.
    pub fn new() -> (r: Self)
        ensures
            r@ == Set::<Seq<char>>::empty(),
    {
        let r = NameSet { items: Vec::new() };
        assert(r@ =~= Set::<Seq<char>>::empty());
        r
    }

    /// Whether the name is in the set.
    pub fn has_name(&self, name: &String) -> (r: bool)
        ensures
            r == self@.contains(name@),
    {
        holds_name(&self.items, name)
    }

    /// Puts a name in.
    pub fn add_name(&mut self, name: &String)
        ensures
            final(self)@ == old(self)@.insert(name@),
    {
        let ghost before = views(self.items@);
        if !holds_name(&self.items, name) {
            self.items.push(name.clone());
        }
        proof {
            let now = views(self.items@);
            assert forall|x: Seq<char>| #[trigger]
                now.contains(x) <==> before.contains(x) || x == name@ by {
                if before.contains(x) {
                    let k = choose|k: int| 0 <= k < before.len() && before[k] == x;
                    assert(now[k] == x);
                }
                if now.contains(x) {
                    let k = choose|k: int| 0 <= k < now.len() && now[k] == x;
                    if k < before.len() {
                        assert(before[k] == x);
                    }
                }
                if now.len() > before.len() {
                    assert(now[before.len() as int] == name@);
                }
            }
            assert(self@ =~= old(self)@.insert(name@));
        }
    }

    /// Puts the names of another set in.
    pub fn add_names(&mut self, other: &NameSet)
        ensures
            final(self)@ == old(self)@.union(other@),
    {
        let mut i: usize = 0;
        let ghost all = views(other.items@);
        assert(old(self)@.union(all.subrange(0, 0).to_set()) =~= old(self)@);
        while i < other.items.len()
            invariant
                i <= other.items.len(),
                all == views(other.items@),
                self@ == old(self)@.union(all.subrange(0, i as int).to_set()),
            decreases other.items.len() - i,
        {
            self.add_name(&other.items[i]);
            i = i + 1;
            proof {
                let now = all.subrange(0, i as int);
                let then = all.subrange(0, i - 1);
                assert(now =~= then.push(all[i - 1]));
                lemma_push_holds(then, all[i - 1]);
                assert(self@ =~= old(self)@.union(now.to_set()));
            }
        }
        assert(all.subrange(0, i as int) =~= all);
    }

    /// The names that are in the other set too.
    pub fn common(&self, other: &NameSet) -> (r: NameSet)
        ensures
            r@ == self@.intersect(other@),
    {
        let mut out: NameSet = NameSet::new();
        let mut i: usize = 0;
        let ghost all = views(self.items@);
        assert(all.subrange(0, 0).to_set().intersect(other@) =~= out@);
        while i < self.items.len()
            invariant
                i <= self.items.len(),
                all == views(self.items@),
                out@ == all.subrange(0, i as int).to_set().intersect(other@),
            decreases self.items.len() - i,
        {
            if other.has_name(&self.items[i]) {
                out.add_name(&self.items[i]);
            }
            i = i + 1;
            proof {
                let now = all.subrange(0, i as int);
                let then = all.subrange(0, i - 1);
                assert(now =~= then.push(all[i - 1]));
                lemma_push_holds(then, all[i - 1]);
                assert(out@ =~= now.to_set().intersect(other@));
            }
        }
        assert(all.subrange(0, i as int) =~= all);
        out
    }

    /// Whether every name is in the other set.
    pub fn within(&self, other: &NameSet) -> (r: bool)
        ensures
            r == self@.subset_of(other@),
    {
        let mut i: usize = 0;
        let ghost all = views(self.items@);
        while i < self.items.len()
            invariant
                i <= self.items.len(),
                all == views(self.items@),
                forall|k: int| 0 <= k < i ==> other@.contains(#[trigger] all[k]),
            decreases self.items.len() - i,
        {
            if !other.has_name(&self.items[i]) {
                assert(all[i as int] == self.items@[i as int]@);
                assert(self@.contains(all[i as int]));
                return false;
            }
            i = i + 1;
        }
        true
    }

    /// Whether no name is in the other set.
    pub fn disjoint_from(&self, other: &NameSet) -> (r: bool)
        ensures
            r == self@.disjoint(other@),
    {
        let mut i: usize = 0;
        let ghost all = views(self.items@);
        while i < self.items.len()
            invariant
                i <= self.items.len(),
                all == views(self.items@),
                forall|k: int| 0 <= k < i ==> !other@.contains(#[trigger] all[k]),
            decreases self.items.len() - i,
        {
            if other.has_name(&self.items[i]) {
                assert(all[i as int] == self.items@[i as int]@);
                assert(self@.contains(all[i as int]));
                return false;
            }
            i = i + 1;
        }
        true
    }

    /// A copy of the set.
    pub fn copy(&self) -> (r: Self)
        ensures
            r@ == self@,
    {
        NameSet { items: crate::table::dup_list(&self.items) }
    }
}

proof fn lemma_push_holds(s: Seq<Seq<char>>, x: Seq<char>)
    ensures
        forall|y: Seq<char>| #[trigger] s.push(x).contains(y) <==> s.contains(y) || y == x,
{
    let t = s.push(x);
    assert forall|y: Seq<char>| #[trigger] t.contains(y) <==> s.contains(y) || y == x by {
        if t.contains(y) {
            let k = choose|k: int| 0 <= k < t.len() && t[k] == y;
            if k < s.len() {
                assert(s[k] == y);
            }
        }
        if s.contains(y) {
            let k = choose|k: int| 0 <= k < s.len() && s[k] == y;
            assert(t[k] == y);
        }
        assert(t[s.len() as int] == x);
    }
}

} // verus!
