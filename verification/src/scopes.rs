//! Names bound to values, in nested scopes.
use crate::text::same;
use vstd::prelude::*;

verus! {

/// A map from names to values.
pub struct Table<T> {
    pub entries: Vec<(String, T)>,
}

/// A value that can be copied.
pub trait Duplicate: View + Sized {
    fn duplicate(&self) -> (r: Self)
        ensures
            r@ == self@,
    ;
}

/// The map that a list of entries stands for; a later entry hides an earlier one.
pub open spec fn map_of<T: View>(s: Seq<(String, T)>) -> Map<Seq<char>, T::V>
    decreases s.len(),
{
    if s.len() == 0 {
        Map::empty()
    } else {
        map_of(s.drop_last()).insert(s.last().0@, s.last().1@)
    }
}

impl<T: View> View for Table<T> {
    type V = Map<Seq<char>, T::V>;

    open spec fn view(&self) -> Map<Seq<char>, T::V> {
        map_of(self.entries@)
    }
}

proof fn map_of_at<T: View>(s: Seq<(String, T)>, i: int, name: Seq<char>)
    requires
        0 <= i < s.len(),
        s[i].0@ == name,
        forall|j: int| i < j < s.len() ==> (#[trigger] s[j]).0@ != name,
    ensures
        map_of(s).contains_key(name),
        map_of(s)[name] == s[i].1@,
    decreases s.len(),
{
    if i < s.len() - 1 {
        assert(s.last() == s[s.len() - 1]);
        map_of_at(s.drop_last(), i, name);
    }
}

proof fn map_of_absent<T: View>(s: Seq<(String, T)>, name: Seq<char>)
    requires
        forall|j: int| 0 <= j < s.len() ==> (#[trigger] s[j]).0@ != name,
    ensures
        !map_of(s).contains_key(name),
    decreases s.len(),
{
    if s.len() > 0 {
        assert(s.last() == s[s.len() - 1]);
        map_of_absent(s.drop_last(), name);
    }
}

/// A name is bound where some entry has it.
pub(crate) proof fn map_of_keys<T: View>(s: Seq<(String, T)>, name: Seq<char>)
    ensures
        map_of(s).contains_key(name) <==> exists|j: int|
            0 <= j < s.len() && (#[trigger] s[j]).0@ == name,
    decreases s.len(),
{
    if s.len() > 0 {
        let d = s.drop_last();
        map_of_keys(d, name);
        assert(s.last() == s[s.len() - 1]);
        if exists|j: int| 0 <= j < d.len() && (#[trigger] d[j]).0@ == name {
            let j = choose|j: int| 0 <= j < d.len() && (#[trigger] d[j]).0@ == name;
            assert(s[j].0@ == name);
        }
        if exists|j: int| 0 <= j < s.len() && (#[trigger] s[j]).0@ == name {
            let j = choose|j: int| 0 <= j < s.len() && (#[trigger] s[j]).0@ == name;
            if j < d.len() {
                assert(d[j].0@ == name);
            }
        }
    }
}

proof fn map_of_update<T: View>(s: Seq<(String, T)>, i: int, e: (String, T))
    requires
        0 <= i < s.len(),
        s[i].0@ == e.0@,
        forall|j: int| i < j < s.len() ==> (#[trigger] s[j]).0@ != e.0@,
    ensures
        map_of(s.update(i, e)) == map_of(s).insert(e.0@, e.1@),
    decreases s.len(),
{
    let t = s.update(i, e);
    if i == s.len() - 1 {
        assert(t.drop_last() =~= s.drop_last());
        assert(map_of(t) =~= map_of(s).insert(e.0@, e.1@));
    } else {
        assert(s.last() == s[s.len() - 1]);
        assert(t.drop_last() =~= s.drop_last().update(i, e));
        map_of_update(s.drop_last(), i, e);
        assert(map_of(t) =~= map_of(s).insert(e.0@, e.1@));
    }
}

impl<T: View> Table<T> {
    pub fn new() -> (r: Self)
        ensures
            r@ == Map::<Seq<char>, T::V>::empty(),
    {
        Table { entries: Vec::new() }
    }

    /// The place of the entry for `name`, where there is one.
    fn find(&self, name: &str) -> (r: Option<usize>)
        ensures
            match r {
                Some(i) => {
                    &&& i < self.entries@.len()
                    &&& self.entries@[i as int].0@ == name@
                    &&& forall|j: int|
                        i < j < self.entries@.len() ==> (#[trigger] self.entries@[j]).0@ != name@
                },
                None => forall|j: int|
                    0 <= j < self.entries@.len() ==> (#[trigger] self.entries@[j]).0@ != name@,
            },
    {
        let mut i: usize = self.entries.len();
        while i > 0
            invariant
                i <= self.entries@.len(),
                forall|j: int|
                    i <= j < self.entries@.len() ==> (#[trigger] self.entries@[j]).0@ != name@,
            decreases i,
        {
            i = i - 1;
            if same(self.entries[i].0.as_str(), name) {
                return Some(i);
            }
        }
        None
    }

    /// The value that `name` is bound to.
    pub fn get(&self, name: &str) -> (r: Option<&T>)
        ensures
            match r {
                Some(v) => self@.contains_key(name@) && v@ == self@[name@],
                None => !self@.contains_key(name@),
            },
    {
        match self.find(name) {
            Some(i) => {
                proof {
                    map_of_at(self.entries@, i as int, name@);
                }
                Some(&self.entries[i].1)
            }
            None => {
                proof {
                    map_of_absent(self.entries@, name@);
                }
                None
            }
        }
    }

    /// Binds `name` to `value`.
    pub fn insert(&mut self, name: &str, value: T)
        ensures
            final(self)@ == old(self)@.insert(name@, value@),
    {
        let found = self.find(name);
        let key = name.to_owned();
        match found {
            Some(i) => {
                proof {
                    map_of_update(self.entries@, i as int, (key, value));
                }
                self.entries.set(i, (key, value));
            }
            None => {
                let ghost before = self.entries@;
                self.entries.push((key, value));
                proof {
                    assert(self.entries@.drop_last() =~= before);
                }
            }
        }
    }
}

impl<T: Duplicate> Duplicate for Table<T> {
    fn duplicate(&self) -> (r: Self) {
        let mut t: Table<T> = Table::new();
        let mut i: usize = 0;
        while i < self.entries.len()
            invariant
                i <= self.entries@.len(),
                t@ == map_of(self.entries@.take(i as int)),
            decreases self.entries@.len() - i,
        {
            proof {
                assert(self.entries@.take(i + 1).drop_last() =~= self.entries@.take(i as int));
            }
            t.insert(self.entries[i].0.as_str(), self.entries[i].1.duplicate());
            i = i + 1;
        }
        proof {
            assert(self.entries@.take(i as int) =~= self.entries@);
        }
        t
    }
}

/// Scopes, the innermost last.
pub struct Scopes<T> {
    pub frames: Vec<Table<T>>,
}

/// Each scope as a map.
pub open spec fn frames_view<T: View>(s: Seq<Table<T>>) -> Seq<Map<Seq<char>, T::V>> {
    Seq::new(s.len(), |i: int| s[i]@)
}

impl<T: View> View for Scopes<T> {
    type V = Seq<Map<Seq<char>, T::V>>;

    open spec fn view(&self) -> Seq<Map<Seq<char>, T::V>> {
        frames_view(self.frames@)
    }
}

/// What the innermost scope that binds `name` binds it to.
pub open spec fn lookup<V>(s: Seq<Map<Seq<char>, V>>, name: Seq<char>) -> Option<V>
    decreases s.len(),
{
    if s.len() == 0 {
        None
    } else if s.last().contains_key(name) {
        Some(s.last()[name])
    } else {
        lookup(s.drop_last(), name)
    }
}

/// The scopes after `name` is bound in the innermost one.
pub open spec fn defined<V>(s: Seq<Map<Seq<char>, V>>, name: Seq<char>, v: V) -> Seq<
    Map<Seq<char>, V>,
> {
    if s.len() == 0 {
        s
    } else {
        s.drop_last().push(s.last().insert(name, v))
    }
}

/// The scopes without the innermost one.
pub open spec fn closed<V>(s: Seq<Map<Seq<char>, V>>) -> Seq<Map<Seq<char>, V>> {
    if s.len() == 0 {
        s
    } else {
        s.drop_last()
    }
}

/// The scopes after the innermost binding of `name` is given a new value.
pub open spec fn assigned<V>(s: Seq<Map<Seq<char>, V>>, name: Seq<char>, v: V) -> Seq<
    Map<Seq<char>, V>,
>
    decreases s.len(),
{
    if s.len() == 0 {
        s
    } else if s.last().contains_key(name) {
        s.drop_last().push(s.last().insert(name, v))
    } else {
        assigned(s.drop_last(), name, v).push(s.last())
    }
}

/// The scopes with a new, empty innermost one.
pub open spec fn opened<V>(s: Seq<Map<Seq<char>, V>>) -> Seq<Map<Seq<char>, V>> {
    s.push(Map::empty())
}

pub(crate) proof fn lookup_at<V>(s: Seq<Map<Seq<char>, V>>, i: int, name: Seq<char>)
    requires
        0 <= i < s.len(),
        s[i].contains_key(name),
        forall|j: int| i < j < s.len() ==> !(#[trigger] s[j]).contains_key(name),
    ensures
        lookup(s, name) == Some(s[i][name]),
        forall|v: V| #[trigger]
            assigned(s, name, v) == s.update(i, s[i].insert(name, v)),
    decreases s.len(),
{
    if i < s.len() - 1 {
        assert(s.last() == s[s.len() - 1]);
        lookup_at(s.drop_last(), i, name);
        assert forall|v: V| #[trigger]
            assigned(s, name, v) == s.update(i, s[i].insert(name, v)) by {
            assert(assigned(s.drop_last(), name, v).push(s.last()) =~= s.update(
                i,
                s[i].insert(name, v),
            ));
        }
    } else {
        assert forall|v: V| #[trigger]
            assigned(s, name, v) == s.update(i, s[i].insert(name, v)) by {
            assert(s.drop_last().push(s.last().insert(name, v)) =~= s.update(
                i,
                s[i].insert(name, v),
            ));
        }
    }
}

pub(crate) proof fn lookup_absent<V>(s: Seq<Map<Seq<char>, V>>, name: Seq<char>)
    requires
        forall|j: int| 0 <= j < s.len() ==> !(#[trigger] s[j]).contains_key(name),
    ensures
        lookup(s, name) is None,
        forall|v: V| #[trigger] assigned(s, name, v) == s,
    decreases s.len(),
{
    if s.len() > 0 {
        assert(s.last() == s[s.len() - 1]);
        lookup_absent(s.drop_last(), name);
        assert forall|v: V| #[trigger] assigned(s, name, v) == s by {
            assert(assigned(s.drop_last(), name, v) == s.drop_last());
            assert(s.drop_last().push(s.last()) =~= s);
        }
    }
}

impl<T: View> Scopes<T> {
    /// No scope at all.
    pub fn new() -> (r: Self)
        ensures
            r@ == Seq::<Map<Seq<char>, T::V>>::empty(),
    {
        let r = Scopes { frames: Vec::new() };
        proof {
            assert(r@ =~= Seq::<Map<Seq<char>, T::V>>::empty());
        }
        r
    }

    /// How many scopes are open.
    pub fn depth(&self) -> (r: usize)
        ensures
            r == self@.len(),
    {
        self.frames.len()
    }

    /// Opens a scope.
    pub fn push(&mut self)
        ensures
            final(self)@ == opened(old(self)@),
    {
        self.frames.push(Table::new());
        proof {
            assert(self@ =~= opened(old(self)@));
        }
    }

    /// Closes the innermost scope, where there is one.
    pub fn pop(&mut self)
        ensures
            final(self)@ == closed(old(self)@),
    {
        let _ = self.frames.pop();
        proof {
            assert(self@ =~= closed(old(self)@));
        }
    }

    /// Binds `name` in the innermost scope, where there is one.
    pub fn define(&mut self, name: &str, value: T)
        ensures
            final(self)@ == defined(old(self)@, name@, value@),
    {
        let ghost v = value@;
        let ghost before = self@;
        match self.frames.pop() {
            Some(frame) => {
                let mut t = frame;
                proof {
                    assert(t@ == before.last());
                }
                t.insert(name, value);
                self.frames.push(t);
                proof {
                    assert(self@ =~= defined(before, name@, v));
                }
            }
            None => {}
        }
    }

    fn find(&self, name: &str) -> (r: Option<usize>)
        ensures
            match r {
                Some(i) => {
                    &&& i < self@.len()
                    &&& self@[i as int].contains_key(name@)
                    &&& forall|j: int| i < j < self@.len() ==> !(#[trigger] self@[j]).contains_key(name@)
                },
                None => forall|j: int|
                    0 <= j < self@.len() ==> !(#[trigger] self@[j]).contains_key(name@),
            },
    {
        let mut i: usize = self.frames.len();
        while i > 0
            invariant
                i <= self@.len(),
                self@.len() == self.frames@.len(),
                forall|j: int| i <= j < self@.len() ==> !(#[trigger] self@[j]).contains_key(name@),
            decreases i,
        {
            i = i - 1;
            proof {
                assert(self@[i as int] == self.frames@[i as int]@);
            }
            if self.frames[i].get(name).is_some() {
                return Some(i);
            }
        }
        None
    }

    /// What the innermost scope that binds `name` binds it to.
    pub fn get(&self, name: &str) -> (r: Option<&T>)
        ensures
            match r {
                Some(v) => lookup(self@, name@) == Some(v@),
                None => lookup(self@, name@) is None,
            },
    {
        match self.find(name) {
            Some(i) => {
                proof {
                    lookup_at(self@, i as int, name@);
                    assert(self@[i as int] == self.frames@[i as int]@);
                }
                self.frames[i].get(name)
            }
            None => {
                proof {
                    lookup_absent(self@, name@);
                }
                None
            }
        }
    }

    /// Gives the innermost binding of `name` a new value; a name that no scope
    /// binds stays unbound.
    pub fn set(&mut self, name: &str, value: T)
        ensures
            final(self)@ == assigned(old(self)@, name@, value@),
    {
        let ghost before = self@;
        let ghost v = value@;
        match self.find(name) {
            Some(i) => {
                proof {
                    lookup_at(self@, i as int, name@);
                    assert(self@[i as int] == self.frames@[i as int]@);
                }
                self.frames[i].insert(name, value);
                proof {
                    assert(self@ =~= before.update(i as int, before[i as int].insert(name@, v)));
                }
            }
            None => {
                proof {
                    lookup_absent(self@, name@);
                }
            }
        }
    }
}

impl<T: Duplicate> Duplicate for Scopes<T> {
    fn duplicate(&self) -> (r: Self) {
        let mut frames: Vec<Table<T>> = Vec::new();
        let mut i: usize = 0;
        while i < self.frames.len()
            invariant
                i <= self.frames@.len(),
                frames@.len() == i,
                forall|j: int| 0 <= j < i ==> (#[trigger] frames@[j])@ == self.frames@[j]@,
            decreases self.frames@.len() - i,
        {
            frames.push(self.frames[i].duplicate());
            i = i + 1;
        }
        let r = Scopes { frames };
        proof {
            assert(r@ =~= self@);
        }
        r
    }
}

} // verus!
