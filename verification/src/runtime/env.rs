use vstd::prelude::*;

verus! {

// ---------------------------------------------------------------------------
// Tables of named values
// ---------------------------------------------------------------------------
/// No name occurs twice among the entries.
pub open spec fn names_distinct<T>(e: Seq<(String, T)>) -> bool {
    forall|i: int, j: int| 0 <= i < j < e.len() ==> #[trigger] e[i].0@ != #[trigger] e[j].0@
}

/// The map from names to values that the entries stand for.
pub open spec fn entries_map<T>(e: Seq<(String, T)>) -> Map<Seq<char>, T>
    decreases e.len(),
{
    if e.len() == 0 {
        Map::empty()
    } else {
        entries_map(e.drop_last()).insert(e.last().0@, e.last().1)
    }
}

proof fn lemma_entries_absent<T>(e: Seq<(String, T)>, k: Seq<char>)
    requires
        forall|i: int| 0 <= i < e.len() ==> #[trigger] e[i].0@ != k,
    ensures
        !entries_map(e).contains_key(k),
    decreases e.len(),
{
    if e.len() > 0 {
        assert(e.last().0@ != k);
        lemma_entries_absent(e.drop_last(), k);
    }
}

proof fn lemma_entries_present<T>(e: Seq<(String, T)>, i: int)
    requires
        names_distinct(e),
        0 <= i < e.len(),
    ensures
        entries_map(e).contains_key(e[i].0@),
        entries_map(e)[e[i].0@] == e[i].1,
    decreases e.len(),
{
    if i < e.len() - 1 {
        let d = e.drop_last();
        assert(names_distinct(d));
        assert(d[i] == e[i]);
        lemma_entries_present(d, i);
        assert(e[i].0@ != e[e.len() - 1].0@);
    }
}

proof fn lemma_entries_update<T>(e: Seq<(String, T)>, i: int, x: (String, T))
    requires
        names_distinct(e),
        0 <= i < e.len(),
        x.0@ == e[i].0@,
    ensures
        names_distinct(e.update(i, x)),
        entries_map(e.update(i, x)) =~= entries_map(e).insert(x.0@, x.1),
    decreases e.len(),
{
    let u = e.update(i, x);
    assert(names_distinct(u)) by {
        assert forall|a: int, b: int| 0 <= a < b < u.len() implies #[trigger] u[a].0@ != #[trigger] u[b].0@ by {
            assert(e[a].0@ != e[b].0@);
        }
    }
    if i == e.len() - 1 {
        assert(u.drop_last() =~= e.drop_last());
    } else {
        let d = e.drop_last();
        assert(u.drop_last() =~= d.update(i, x));
        lemma_entries_update(d, i, x);
        assert(e[i].0@ != e[e.len() - 1].0@);
    }
}

proof fn lemma_entries_remove<T>(e: Seq<(String, T)>, i: int)
    requires
        names_distinct(e),
        0 <= i < e.len(),
    ensures
        names_distinct(e.remove(i)),
        entries_map(e.remove(i)) =~= entries_map(e).remove(e[i].0@),
    decreases e.len(),
{
    let r = e.remove(i);
    assert(names_distinct(r)) by {
        assert forall|a: int, b: int| 0 <= a < b < r.len() implies #[trigger] r[a].0@ != #[trigger] r[b].0@ by {
            let a2 = if a < i {
                a
            } else {
                a + 1
            };
            let b2 = if b < i {
                b
            } else {
                b + 1
            };
            assert(r[a] == e[a2] && r[b] == e[b2]);
            assert(e[a2].0@ != e[b2].0@);
        }
    }
    let d = e.drop_last();
    assert(names_distinct(d));
    if i == e.len() - 1 {
        assert(r =~= d);
        assert forall|j: int| 0 <= j < d.len() implies #[trigger] d[j].0@ != e[i].0@ by {
            assert(d[j] == e[j]);
        }
        lemma_entries_absent(d, e[i].0@);
    } else {
        assert(r.drop_last() =~= d.remove(i));
        assert(r.last() == e.last());
        lemma_entries_remove(d, i);
        assert(d[i] == e[i]);
        assert(e[i].0@ != e[e.len() - 1].0@);
    }
}

/// Values under distinct names, in the order in which the names were first given.
pub struct NameTable<T> {
    entries: Vec<(String, T)>,
}

impl<T> View for NameTable<T> {
    type V = Map<Seq<char>, T>;

    closed spec fn view(&self) -> Map<Seq<char>, T> {
        entries_map(self.entries@)
    }
}

impl<T> NameTable<T> {
    /// The table's invariant: no name occurs twice.
    pub closed spec fn wf(&self) -> bool {
        names_distinct(self.entries@)
    }

    /// An empty table.
    pub fn new() -> (t: Self)
        ensures
            t.wf(),
            t@ == Map::<Seq<char>, T>::empty(),
    {
        NameTable { entries: Vec::new() }
    }

    fn index_of(&self, name: &String) -> (r: Option<usize>)
        requires
            self.wf(),
        ensures
            r matches Some(i) ==> i < self.entries@.len() && self.entries@[i as int].0@ == name@,
            r is None ==> forall|i: int|
                0 <= i < self.entries@.len() ==> #[trigger] self.entries@[i].0@ != name@,
    {
        for i in 0..self.entries.len()
            invariant
                forall|j: int| 0 <= j < i ==> #[trigger] self.entries@[j].0@ != name@,
        {
            if self.entries[i].0 == *name {
                return Some(i);
            }
        }
        None
    }

    /// The value under `name`, if any.
    pub fn get(&self, name: &str) -> (r: Option<&T>)
        requires
            self.wf(),
        ensures
            r is Some <==> self@.contains_key(name@),
            r matches Some(v) ==> *v == self@[name@],
    {
        let key = name.to_owned();
        match self.index_of(&key) {
            Some(i) => {
                proof {
                    lemma_entries_present(self.entries@, i as int);
                }
                Some(&self.entries[i].1)
            },
            None => {
                proof {
                    lemma_entries_absent(self.entries@, name@);
                }
                None
            },
        }
    }

    /// Whether a value is under `name`.
    pub fn contains(&self, name: &str) -> (r: bool)
        requires
            self.wf(),
        ensures
            r == self@.contains_key(name@),
    {
        self.get(name).is_some()
    }

    /// Puts `value` under `name`, in place of the value that was there.
    pub fn insert(&mut self, name: &str, value: T)
        requires
            old(self).wf(),
        ensures
            final(self).wf(),
            final(self)@ == old(self)@.insert(name@, value),
    {
        let key = name.to_owned();
        match self.index_of(&key) {
            Some(i) => {
                proof {
                    lemma_entries_update(self.entries@, i as int, (key, value));
                }
                self.entries.remove(i);
                self.entries.insert(i, (key, value));
                assert(self.entries@ =~= old(self).entries@.update(i as int, (key, value)));
            },
            None => {
                let ghost e = self.entries@;
                self.entries.push((key, value));
                assert(self.entries@.drop_last() =~= e);
                assert(names_distinct(self.entries@)) by {
                    assert forall|a: int, b: int| 0 <= a < b < self.entries@.len() implies #[trigger] self.entries@[a].0@
                        != #[trigger] self.entries@[b].0@ by {
                        if b < e.len() {
                            assert(e[a].0@ != e[b].0@);
                        } else {
                            assert(e[a].0@ != name@);
                        }
                    }
                }
            },
        }
    }

    /// Takes the value under `name` out of the table.
    pub fn remove(&mut self, name: &str) -> (r: Option<T>)
        requires
            old(self).wf(),
        ensures
            final(self).wf(),
            final(self)@ == old(self)@.remove(name@),
            r == (if old(self)@.contains_key(name@) {
                Some(old(self)@[name@])
            } else {
                None::<T>
            }),
    {
        let key = name.to_owned();
        match self.index_of(&key) {
            Some(i) => {
                proof {
                    lemma_entries_present(self.entries@, i as int);
                    lemma_entries_remove(self.entries@, i as int);
                }
                let (_, v) = self.entries.remove(i);
                Some(v)
            },
            None => {
                proof {
                    lemma_entries_absent(self.entries@, name@);
                    assert(self@.remove(name@) =~= self@);
                }
                None
            },
        }
    }

    /// Some name in the table, if it is not empty.
    pub fn any_name(&self) -> (r: Option<String>)
        requires
            self.wf(),
        ensures
            r is None <==> self@.dom() == Set::<Seq<char>>::empty(),
            r matches Some(n) ==> self@.contains_key(n@),
    {
        if self.entries.len() == 0 {
            assert(self@ =~= Map::<Seq<char>, T>::empty());
            None
        } else {
            proof {
                lemma_entries_present(self.entries@, 0);
            }
            let n = self.entries[0].0.clone();
            assert(!(self@.dom() =~= Set::<Seq<char>>::empty()));
            Some(n)
        }
    }
}

// ---------------------------------------------------------------------------
// Nested scopes
// ---------------------------------------------------------------------------
/// The value of `k` in the innermost of the frames `fs[0..depth]` that holds it.
pub open spec fn lookup<T>(fs: Seq<Map<Seq<char>, T>>, depth: int, k: Seq<char>) -> Option<T>
    decreases depth,
{
    if depth <= 0 {
        None
    } else if fs[depth - 1].contains_key(k) {
        Some(fs[depth - 1][k])
    } else {
        lookup(fs, depth - 1, k)
    }
}

/// The frames after `k` is bound to `v` in the innermost one.
pub open spec fn bind_top<T>(fs: Seq<Map<Seq<char>, T>>, k: Seq<char>, v: T) -> Seq<Map<Seq<char>, T>> {
    fs.update(fs.len() - 1, fs.last().insert(k, v))
}

/// Variables in nested scopes: the root scope at the bottom, one frame for each scope opened
/// inside it (a component's body, a loop's body); a name is looked up from the innermost frame
/// outwards.
pub struct Scope<T> {
    frames: Vec<NameTable<T>>,
}

impl<T> View for Scope<T> {
    type V = Seq<Map<Seq<char>, T>>;

    closed spec fn view(&self) -> Seq<Map<Seq<char>, T>> {
        self.frames@.map_values(|t: NameTable<T>| t@)
    }
}

impl<T> Scope<T> {
    /// The scope's invariant: there is a root frame, and each frame is a valid table.
    pub closed spec fn wf(&self) -> bool {
        &&& self.frames@.len() >= 1
        &&& forall|i: int| 0 <= i < self.frames@.len() ==> (#[trigger] self.frames@[i]).wf()
    }

    /// A root scope with no variables.
    pub fn new() -> (s: Self)
        ensures
            s.wf(),
            s@ == seq![Map::<Seq<char>, T>::empty()],
    {
        let mut frames: Vec<NameTable<T>> = Vec::new();
        frames.push(NameTable::new());
        let s = Scope { frames };
        assert(s@ =~= seq![Map::<Seq<char>, T>::empty()]);
        s
    }

    /// The number of frames, the root included.
    pub fn depth(&self) -> (r: usize)
        requires
            self.wf(),
        ensures
            r == self@.len(),
            r >= 1,
    {
        self.frames.len()
    }

    /// Binds `name` to `value` in the innermost frame.
    pub fn set(&mut self, name: &str, value: T)
        requires
            old(self).wf(),
        ensures
            final(self).wf(),
            final(self)@ == bind_top(old(self)@, name@, value),
    {
        let mut top = self.frames.pop().unwrap();
        top.insert(name, value);
        self.frames.push(top);
        assert(self@ =~= bind_top(old(self)@, name@, value));
    }

    /// Binds `name` to `value` in the root frame.
    pub fn set_root(&mut self, name: &str, value: T)
        requires
            old(self).wf(),
        ensures
            final(self).wf(),
            final(self)@ == old(self)@.update(0, old(self)@[0].insert(name@, value)),
    {
        let mut root = self.frames.remove(0);
        root.insert(name, value);
        self.frames.insert(0, root);
        assert(self@ =~= old(self)@.update(0, old(self)@[0].insert(name@, value)));
    }

    /// The value of `name` in the innermost of the `depth` outermost frames that binds it.
    pub fn get_within(&self, depth: usize, name: &str) -> (r: Option<&T>)
        requires
            self.wf(),
            1 <= depth <= self@.len(),
        ensures
            r matches Some(v) ==> lookup(self@, depth as int, name@) == Some(*v),
            r is None ==> lookup(self@, depth as int, name@) is None,
    {
        let mut d = depth;
        while d > 0
            invariant
                self.wf(),
                d <= depth <= self@.len(),
                lookup(self@, depth as int, name@) == lookup(self@, d as int, name@),
            decreases d,
        {
            let f = &self.frames[d - 1];
            assert(self@[d - 1] == f@);
            match f.get(name) {
                Some(v) => {
                    return Some(v);
                },
                None => {},
            }
            d = d - 1;
        }
        None
    }

    /// The value of `name` in the innermost frame that binds it.
    pub fn get(&self, name: &str) -> (r: Option<&T>)
        requires
            self.wf(),
        ensures
            r matches Some(v) ==> lookup(self@, self@.len() as int, name@) == Some(*v),
            r is None ==> lookup(self@, self@.len() as int, name@) is None,
    {
        self.get_within(self.frames.len(), name)
    }

    /// Opens a scope inside the innermost one, with no variables of its own.
    pub fn new_child(&mut self)
        requires
            old(self).wf(),
        ensures
            final(self).wf(),
            final(self)@ == old(self)@.push(Map::<Seq<char>, T>::empty()),
    {
        self.frames.push(NameTable::new());
        assert(self@ =~= old(self)@.push(Map::<Seq<char>, T>::empty()));
    }

    /// Closes the innermost scope, dropping its variables.
    pub fn close_child(&mut self)
        requires
            old(self).wf(),
            old(self)@.len() >= 2,
        ensures
            final(self).wf(),
            final(self)@ == old(self)@.drop_last(),
    {
        self.frames.pop();
        assert(self@ =~= old(self)@.drop_last());
    }
}

/// A name reads back the value last bound to it in the innermost scope, and binding it leaves
/// every other name as it was.
pub proof fn lemma_scope_read_after_write<T>(fs: Seq<Map<Seq<char>, T>>, k: Seq<char>, v: T, k2: Seq<char>)
    requires
        fs.len() >= 1,
    ensures
        lookup(bind_top(fs, k, v), fs.len() as int, k) == Some(v),
        k2 != k ==> lookup(bind_top(fs, k, v), fs.len() as int, k2) == lookup(fs, fs.len() as int, k2),
{
    let b = bind_top(fs, k, v);
    if k2 != k {
        if !fs.last().contains_key(k2) {
            lemma_lookup_prefix(b, fs, fs.len() - 1, k2);
        }
    }
}

proof fn lemma_lookup_prefix<T>(a: Seq<Map<Seq<char>, T>>, b: Seq<Map<Seq<char>, T>>, d: int, k: Seq<char>)
    requires
        0 <= d <= a.len(),
        d <= b.len(),
        forall|i: int| 0 <= i < d ==> a[i] == b[i],
    ensures
        lookup(a, d, k) == lookup(b, d, k),
    decreases d,
{
    if d > 0 {
        lemma_lookup_prefix(a, b, d - 1, k);
    }
}

/// A scope opened inside another sees the variables of the outer one until it binds its own,
/// which hide the outer ones; closing it brings the outer scope back unchanged.
pub proof fn lemma_scope_nesting<T>(fs: Seq<Map<Seq<char>, T>>, k: Seq<char>, v: T, k2: Seq<char>)
    requires
        fs.len() >= 1,
    ensures
        lookup(fs.push(Map::empty()), fs.len() + 1 as int, k2) == lookup(fs, fs.len() as int, k2),
        lookup(bind_top(fs.push(Map::empty()), k, v), fs.len() + 1 as int, k) == Some(v),
        bind_top(fs.push(Map::empty()), k, v).drop_last() == fs,
{
    let c = fs.push(Map::<Seq<char>, T>::empty());
    lemma_lookup_prefix(c, fs, fs.len() as int, k2);
    assert(bind_top(c, k, v).drop_last() =~= fs);
}

} // verus!
