use vstd::prelude::*;

verus! {

/// Draws a fresh random signal identifier.
///
/// Relies on `uuid::Uuid::new_v4` and `uuid::Uuid::as_u128`: a random version-4 UUID read
/// as one 128-bit integer. Nothing is promised of the value.
#[verifier::external_body]
fn random_signal_id() -> (r: u128) {
    uuid::Uuid::new_v4().as_u128()
}

/// A copy of `v`, element by element.
fn copy_words(v: &Vec<u32>) -> (r: Vec<u32>)
    ensures
        r@ == v@,
{
    let mut r: Vec<u32> = Vec::new();
    let mut i: usize = 0;
    while i < v.len()
        invariant
            i <= v@.len(),
            r@ == v@.subrange(0, i as int),
        decreases v@.len() - i,
    {
        r.push(v[i]);
        i += 1;
        proof {
            assert(r@ =~= v@.subrange(0, i as int));
        }
    }
    proof {
        assert(r@ =~= v@);
    }
    r
}

/// An opaque token that stands for "notify me when any of these shaders change".
///
/// It carries a random identifier, and the position of its entry in the registry that
/// created it, so that looking it up takes constant time.
#[derive(Clone, Copy, Debug, PartialEq, Eq, Structural, Hash)]
pub struct DependencySignal {
    id: u128,
    slot: usize,
}

impl DependencySignal {
    pub closed spec fn spec_id(self) -> u128 {
        self.id
    }

    /// The integer that identifies this signal.
    pub fn id(&self) -> (r: u128)
        ensures
            r == self.spec_id(),
    {
        self.id
    }
}

/// What polling one shader's file watch reported in this tick.
pub struct ShaderPoll {
    /// The shader has content available.
    pub loaded: bool,
    /// The backing file changed since the last poll.
    pub changed: bool,
    /// The last load or reload attempt failed.
    pub failed: bool,
    /// The current bytecode, when it is available.
    pub content: Option<Vec<u32>>,
}

/// A poll that notifies dependents: a change, or a first load, that did not fail.
pub open spec fn poll_fires(seen_loaded: bool, p: ShaderPoll) -> bool {
    (p.changed || (p.loaded && !seen_loaded)) && !p.failed
}

/// A poll that reports a broken load or reload: dependents are left as they were.
pub open spec fn poll_fails(seen_loaded: bool, p: ShaderPoll) -> bool {
    (p.changed || (p.loaded && !seen_loaded)) && p.failed
}

/// Tracks shaders by name and the signals that depend on them.
///
/// Shaders are kept in the order in which they were first registered; a tick takes one poll
/// per shader, in that order. The dependency relation is a set of (signal, shader) index pairs.
pub struct WatchedShaders {
    names: Vec<String>,
    loaded: Vec<bool>,
    contents: Vec<Option<Vec<u32>>>,
    signals: Vec<DependencySignal>,
    dirty: Vec<bool>,
    links: Vec<(usize, usize)>,
}

impl WatchedShaders {
    /// Names of the tracked shaders, in registration order.
    pub closed spec fn shader_names(&self) -> Seq<Seq<char>> {
        self.names@.map_values(|s: String| s@)
    }

    /// Whether a shader of this name is tracked.
    pub open spec fn tracks(&self, name: Seq<char>) -> bool {
        self.shader_names().contains(name)
    }

    /// Whether the shader at position `i` has been seen loaded at some earlier tick.
    pub closed spec fn seen_loaded(&self, i: int) -> bool {
        self.loaded@[i]
    }

    /// The last good bytecode of the shader at position `i`, if it ever loaded.
    pub closed spec fn content(&self, i: int) -> Option<Seq<u32>> {
        match self.contents@[i] {
            Some(v) => Some(v@),
            None => None,
        }
    }

    /// Identifiers of the registered signals, in creation order.
    pub closed spec fn signal_ids(&self) -> Seq<u128> {
        self.signals@.map_values(|s: DependencySignal| s.id)
    }

    /// Whether `s` was created by this registry.
    pub closed spec fn has_signal(&self, s: DependencySignal) -> bool {
        s.slot < self.signals@.len() && self.signals@[s.slot as int] == s
    }

    /// Whether the signal at position `i` depends on the shader at position `j`.
    pub closed spec fn linked(&self, i: int, j: int) -> bool {
        exists|k: int|
            0 <= k < self.links@.len() && self.links@[k].0 as int == i && self.links@[k].1 as int == j
    }

    /// Whether signal `s` depends on the shader called `name`.
    pub closed spec fn depends_on(&self, s: DependencySignal, name: Seq<char>) -> bool {
        self.has_signal(s) && exists|j: int|
            0 <= j < self.names@.len() && self.names@[j]@ == name && #[trigger] self.linked(
                s.slot as int,
                j,
            )
    }

    /// Whether signal `s` belongs to the dirty set of the current tick.
    pub closed spec fn is_dirty(&self, s: DependencySignal) -> bool {
        self.has_signal(s) && self.dirty@[s.slot as int]
    }

    /// Parallel vectors agree in length, names are unique, every signal knows its own
    /// position, and every link is a distinct pair of existing positions.
    pub closed spec fn wf(&self) -> bool {
        &&& self.loaded@.len() == self.names@.len()
        &&& self.contents@.len() == self.names@.len()
        &&& self.dirty@.len() == self.signals@.len()
        &&& forall|a: int, b: int|
            0 <= a < b < self.names@.len() ==> self.names@[a]@ != self.names@[b]@
        &&& forall|i: int| 0 <= i < self.signals@.len() ==> (#[trigger] self.signals@[i]).slot == i
        &&& forall|k: int|
            0 <= k < self.links@.len() ==> (#[trigger] self.links@[k]).0 < self.signals@.len()
                && self.links@[k].1 < self.names@.len()
        &&& forall|a: int, b: int|
            0 <= a < b < self.links@.len() ==> self.links@[a] != self.links@[b]
    }

    /// An empty registry: no shaders, no signals.
    pub fn new() -> (r: Self)
        ensures
            r.wf(),
            r.shader_names().len() == 0,
            r.signal_ids().len() == 0,
            forall|s: DependencySignal| !r.has_signal(s) && !r.is_dirty(s),
            forall|s: DependencySignal, name: Seq<char>| !r.depends_on(s, name),
    {
        WatchedShaders {
            names: Vec::new(),
            loaded: Vec::new(),
            contents: Vec::new(),
            signals: Vec::new(),
            dirty: Vec::new(),
            links: Vec::new(),
        }
    }

    /// Allocates a new signal with an empty dependency set.
    pub fn create_dependency_signal(&mut self) -> (r: DependencySignal)
        requires
            old(self).wf(),
        ensures
            final(self).wf(),
            !old(self).has_signal(r),
            final(self).has_signal(r),
            !final(self).is_dirty(r),
            forall|n: Seq<char>| !final(self).depends_on(r, n),
            forall|t: DependencySignal| #[trigger]
                final(self).has_signal(t) == (old(self).has_signal(t) || t == r),
            final(self).signal_ids() == old(self).signal_ids().push(r.spec_id()),
            final(self).shader_names() == old(self).shader_names(),
            forall|i: int|
                0 <= i < old(self).shader_names().len() ==> final(self).seen_loaded(i) == old(
                    self,
                ).seen_loaded(i) && final(self).content(i) == old(self).content(i),
            forall|t: DependencySignal, name: Seq<char>| #[trigger]
                final(self).depends_on(t, name) == old(self).depends_on(t, name),
            forall|t: DependencySignal| #[trigger] final(self).is_dirty(t) == old(self).is_dirty(t),
    {
        let signal = DependencySignal { id: random_signal_id(), slot: self.signals.len() };
        self.signals.push(signal);
        self.dirty.push(false);
        proof {
            assert(self.signal_ids() =~= old(self).signal_ids().push(signal.id));
            assert(self.shader_names() =~= old(self).shader_names());
            assert forall|t: DependencySignal| #[trigger] self.has_signal(t) == (old(
                self,
            ).has_signal(t) || t == signal) by {
                if t.slot < old(self).signals@.len() {
                    assert(self.signals@[t.slot as int] == old(self).signals@[t.slot as int]);
                }
            }
            assert forall|i: int, j: int| #[trigger] self.linked(i, j) == old(self).linked(i, j) by {}
            assert forall|t: DependencySignal, name: Seq<char>| #[trigger]
                self.depends_on(t, name) == old(self).depends_on(t, name) by {
                if self.depends_on(t, name) {
                    let j = choose|j: int|
                        0 <= j < self.names@.len() && self.names@[j]@ == name && #[trigger] self.linked(
                            t.slot as int,
                            j,
                        );
                    let k = choose|k: int|
                        0 <= k < self.links@.len() && self.links@[k].0 as int == t.slot as int
                            && self.links@[k].1 as int == j;
                    assert(old(self).links@[k].0 < old(self).signals@.len());
                    assert(t != signal);
                    assert(old(self).has_signal(t));
                    assert(old(self).linked(t.slot as int, j));
                }
                if old(self).depends_on(t, name) {
                    let j = choose|j: int|
                        0 <= j < old(self).names@.len() && old(self).names@[j]@ == name
                            && #[trigger] old(self).linked(t.slot as int, j);
                    assert(self.has_signal(t));
                    assert(self.linked(t.slot as int, j));
                }
            }
            assert forall|t: DependencySignal| #[trigger] self.is_dirty(t) == old(self).is_dirty(t) by {
                if t.slot < old(self).signals@.len() {
                    assert(self.dirty@[t.slot as int] == old(self).dirty@[t.slot as int]);
                }
            }
        }
        signal
    }

    /// Whether `s` was created by this registry, in constant time.
    pub fn knows(&self, s: &DependencySignal) -> (r: bool)
        requires
            self.wf(),
        ensures
            r == self.has_signal(*s),
    {
        s.slot < self.signals.len() && self.signals[s.slot] == *s
    }

    /// Position of the shader called `name`, if it is tracked.
    fn shader_index(&self, name: &String) -> (r: Option<usize>)
        requires
            self.wf(),
        ensures
            match r {
                Some(j) => j < self.names@.len() && self.names@[j as int]@ == name@,
                None => !self.tracks(name@),
            },
    {
        let mut j: usize = 0;
        while j < self.names.len()
            invariant
                self.wf(),
                j <= self.names@.len(),
                forall|k: int| 0 <= k < j ==> self.names@[k]@ != name@,
            decreases self.names@.len() - j,
        {
            if self.names[j] == *name {
                return Some(j);
            }
            j += 1;
        }
        proof {
            if self.tracks(name@) {
                let k = choose|k: int| 0 <= k < self.shader_names().len() && self.shader_names()[k] == name@;
                assert(self.names@[k]@ == name@);
            }
        }
        None
    }

    /// Adds the shader called `name` to the dependency set of signal `s`, which must have
    /// been created by this registry.
    ///
    /// A name not tracked before is tracked from now on, unloaded and without content; the
    /// result is then `true`, and the caller starts loading it. Registering a pair twice
    /// changes nothing the second time.
    pub fn load_shader(&mut self, name: &str, s: &DependencySignal) -> (added: bool)
        requires
            old(self).wf(),
            old(self).has_signal(*s),
        ensures
            final(self).wf(),
            added == !old(self).tracks(name@),
            final(self).shader_names() == if added {
                old(self).shader_names().push(name@)
            } else {
                old(self).shader_names()
            },
            added ==> !final(self).seen_loaded(old(self).shader_names().len() as int)
                && final(self).content(old(self).shader_names().len() as int) is None,
            forall|i: int|
                0 <= i < old(self).shader_names().len() ==> final(self).seen_loaded(i)
                    == old(self).seen_loaded(i) && final(self).content(i) == old(self).content(i),
            final(self).signal_ids() == old(self).signal_ids(),
            forall|t: DependencySignal| #[trigger]
                final(self).has_signal(t) == old(self).has_signal(t),
            forall|t: DependencySignal, n: Seq<char>| #[trigger]
                final(self).depends_on(t, n) == (old(self).depends_on(t, n) || (t == *s && n
                    == name@)),
            forall|t: DependencySignal| #[trigger] final(self).is_dirty(t) == old(self).is_dirty(t),
    {
        let i = s.slot;
        let owned = name.to_owned();
        let (j, added) = match self.shader_index(&owned) {
            Some(j) => {
                assert(self.shader_names()[j as int] == name@);
                (j, false)
            },
            None => {
                let j = self.names.len();
                self.names.push(owned);
                self.loaded.push(false);
                self.contents.push(None);
                (j, true)
            },
        };
        let ghost mid = *self;
        assert(self.shader_names() =~= if added {
            old(self).shader_names().push(name@)
        } else {
            old(self).shader_names()
        });
        let mut k: usize = 0;
        let mut present = false;
        while k < self.links.len()
            invariant
                *self == mid,
                k <= self.links@.len(),
                present <==> exists|m: int| 0 <= m < k && self.links@[m] == (i, j),
            decreases self.links@.len() - k,
        {
            if self.links[k].0 == i && self.links[k].1 == j {
                present = true;
            }
            k += 1;
        }
        if !present {
            self.links.push((i, j));
        }
        proof {
            assert(self.signal_ids() =~= old(self).signal_ids());
            assert forall|a: int, b: int| 0 <= a < b < self.names@.len() implies self.names@[a]@
                != self.names@[b]@ by {
                if added && b == self.names@.len() - 1 {
                    assert(old(self).shader_names()[a] == old(self).names@[a]@);
                    assert(old(self).shader_names().contains(old(self).names@[a]@));
                }
            }
            assert forall|x: int, y: int| #[trigger] self.linked(x, y) == (old(self).linked(x, y) || (x
                == i && y == j)) by {
                if self.linked(x, y) && !(x == i && y == j) {
                    let m = choose|m: int|
                        0 <= m < self.links@.len() && self.links@[m].0 as int == x
                            && self.links@[m].1 as int == y;
                    assert(old(self).links@[m] == self.links@[m]);
                }
                if old(self).linked(x, y) {
                    let m = choose|m: int|
                        0 <= m < old(self).links@.len() && old(self).links@[m].0 as int == x
                            && old(self).links@[m].1 as int == y;
                    assert(self.links@[m] == old(self).links@[m]);
                }
                if x == i && y == j && present {
                    let m = choose|m: int| 0 <= m < k && self.links@[m] == (i, j);
                    assert(self.links@[m].0 as int == x);
                }
                if x == i && y == j && !present {
                    assert(self.links@[self.links@.len() - 1] == (i, j));
                }
            }
            assert(self.signals == old(self).signals);
            assert forall|t: DependencySignal| #[trigger] self.has_signal(t) == old(self).has_signal(
                t,
            ) by {}
            assert forall|t: DependencySignal, n: Seq<char>| #[trigger] self.depends_on(t, n) == (
            old(self).depends_on(t, n) || (t == *s && n == name@)) by {
                if self.depends_on(t, n) {
                    let y = choose|y: int|
                        0 <= y < self.names@.len() && self.names@[y]@ == n && #[trigger] self.linked(
                            t.slot as int,
                            y,
                        );
                    if !(t.slot == i && y == j) {
                        let m = choose|m: int|
                            0 <= m < old(self).links@.len() && old(self).links@[m].0 as int
                                == t.slot as int && old(self).links@[m].1 as int == y;
                        assert(y < old(self).names@.len());
                        assert(old(self).names@[y] == self.names@[y]);
                        assert(old(self).linked(t.slot as int, y));
                    } else {
                        assert(t == *s);
                    }
                }
                if old(self).depends_on(t, n) {
                    let y = choose|y: int|
                        0 <= y < old(self).names@.len() && old(self).names@[y]@ == n
                            && #[trigger] old(self).linked(t.slot as int, y);
                    assert(self.names@[y] == old(self).names@[y]);
                    assert(self.linked(t.slot as int, y));
                }
                if t == *s && n == name@ {
                    assert(self.linked(i as int, j as int));
                    assert(self.names@[j as int]@ == name@);
                }
            }
            assert forall|t: DependencySignal| #[trigger] self.is_dirty(t) == old(self).is_dirty(t) by {}
            assert forall|x: int| 0 <= x < old(self).shader_names().len() implies self.seen_loaded(x)
                == old(self).seen_loaded(x) && self.content(x) == old(self).content(x) by {
                assert(self.loaded@[x] == old(self).loaded@[x]);
                assert(self.contents@[x] == old(self).contents@[x]);
            }
            if added {
                let e = old(self).shader_names().len() as int;
                assert(self.loaded@[e] == false);
                assert(self.contents@[e] is None);
            }
        }
        added
    }

    /// Whether some poll of this tick fires for a shader that signal `s` depends on.
    pub open spec fn fires_for(&self, polls: Seq<ShaderPoll>, s: DependencySignal) -> bool {
        exists|j: int|
            0 <= j < polls.len() && poll_fires(self.seen_loaded(j), #[trigger] polls[j])
                && self.depends_on(s, self.shader_names()[j])
    }

    /// Names of the shaders among the first `n` whose poll reports a failure, in order.
    pub open spec fn failed_names(&self, polls: Seq<ShaderPoll>, n: int) -> Seq<Seq<char>>
        decreases n,
    {
        if n <= 0 {
            Seq::empty()
        } else if poll_fails(self.seen_loaded(n - 1), polls[n - 1]) {
            self.failed_names(polls, n - 1).push(self.shader_names()[n - 1])
        } else {
            self.failed_names(polls, n - 1)
        }
    }

    /// `after` is what one tick with `polls` makes of `before`: the same shaders and
    /// dependencies, exactly the signals whose shaders fired are dirty, the shaders that
    /// loaded are marked as seen, and the ones that fired keep their new bytecode.
    pub open spec fn ticked(before: Self, polls: Seq<ShaderPoll>, after: Self) -> bool {
        &&& after.wf()
        &&& after.shader_names() == before.shader_names()
        &&& after.signal_ids() == before.signal_ids()
        &&& forall|t: DependencySignal| #[trigger] after.has_signal(t) == before.has_signal(t)
        &&& forall|t: DependencySignal, n: Seq<char>| #[trigger]
            after.depends_on(t, n) == before.depends_on(t, n)
        &&& forall|t: DependencySignal| #[trigger]
            after.is_dirty(t) == (before.has_signal(t) && before.fires_for(polls, t))
        &&& forall|j: int|
            0 <= j < polls.len() ==> #[trigger] after.seen_loaded(j) == (before.seen_loaded(j)
                || polls[j].loaded)
        &&& forall|j: int|
            0 <= j < polls.len() ==> #[trigger] after.content(j) == if poll_fires(
                before.seen_loaded(j),
                polls[j],
            ) && polls[j].content is Some {
                Some(polls[j].content->Some_0@)
            } else {
                before.content(j)
            }
    }

    /// Number of tracked shaders; a tick takes one poll for each, in registration order.
    pub fn shader_count(&self) -> (r: usize)
        ensures
            r == self.shader_names().len(),
    {
        self.names.len()
    }

    /// Runs one tick: rebuilds the dirty set from this tick's polls.
    ///
    /// The dirty set is cleared, then every signal that depends on a shader whose poll fires
    /// (a change, or a first load, without failure) joins it. A failed poll marks nothing
    /// dirty; the names of such shaders are returned, in order, so they can be reported.
    pub fn update_system(&mut self, polls: Vec<ShaderPoll>) -> (r: Vec<String>)
        requires
            old(self).wf(),
            polls@.len() == old(self).shader_names().len(),
        ensures
            Self::ticked(*old(self), polls@, *final(self)),
            r@.map_values(|s: String| s@) == old(self).failed_names(polls@, polls@.len() as int),
    {
        let n = self.names.len();
        let ghost ps = polls@;
        let mut failures: Vec<String> = Vec::new();
        let mut j: usize = 0;
        while j < n
            invariant
                *self == *old(self),
                self.wf(),
                n == self.names@.len(),
                ps == polls@,
                ps.len() == n,
                j <= n,
                failures@.map_values(|s: String| s@) == self.failed_names(ps, j as int),
            decreases n - j,
        {
            let p = &polls[j];
            let first_load = p.loaded && !self.loaded[j];
            if (p.changed || first_load) && p.failed {
                failures.push(self.names[j].clone());
            }
            proof {
                assert(failures@.map_values(|s: String| s@) =~= self.failed_names(ps, j + 1));
            }
            j += 1;
        }
        let mut c: usize = 0;
        while c < self.dirty.len()
            invariant
                self.wf(),
                self.names == old(self).names,
                self.loaded == old(self).loaded,
                self.contents == old(self).contents,
                self.signals == old(self).signals,
                self.links == old(self).links,
                c <= self.dirty@.len(),
                forall|i: int| 0 <= i < c ==> !self.dirty@[i],
            decreases self.dirty@.len() - c,
        {
            self.dirty.set(c, false);
            c += 1;
        }
        let mut polls = polls;
        let mut j: usize = n;
        while j > 0
            invariant
                self.wf(),
                old(self).wf(),
                self.names == old(self).names,
                self.signals == old(self).signals,
                self.links == old(self).links,
                n == self.names@.len(),
                j <= n,
                ps.len() == n,
                polls@ == ps.subrange(0, j as int),
                forall|y: int| 0 <= y < j ==> self.loaded@[y] == old(self).loaded@[y] && self.contents@[y] == old(self).contents@[y],
                forall|y: int| j <= y < n ==> #[trigger] self.loaded@[y] == (old(self).loaded@[y] || ps[y].loaded),
                forall|y: int|
                    j <= y < n ==> #[trigger] self.contents@[y] == if poll_fires(
                        old(self).loaded@[y],
                        ps[y],
                    ) && ps[y].content is Some {
                        ps[y].content
                    } else {
                        old(self).contents@[y]
                    },
                forall|i: int|
                    0 <= i < self.dirty@.len() ==> (#[trigger] self.dirty@[i] <==> exists|y: int|
                        j <= y < n && poll_fires(old(self).seen_loaded(y), ps[y]) && #[trigger] old(self).linked(i, y)),
            decreases j,
        {
            j -= 1;
            let p = polls.pop().unwrap();
            assert(p == ps[j as int]);
            let seen = self.loaded[j];
            let fires = (p.changed || (p.loaded && !seen)) && !p.failed;
            if p.loaded && !seen {
                self.loaded.set(j, true);
            }
            if fires {
                match p.content {
                    Some(v) => {
                        self.contents.set(j, Some(v));
                    },
                    None => {},
                }
                let ghost before = self.dirty@;
                let ghost lo = self.loaded;
                let ghost co = self.contents;
                let mut k: usize = 0;
                while k < self.links.len()
                    invariant
                        self.wf(),
                        self.loaded == lo,
                        self.contents == co,
                        self.names == old(self).names,
                        self.signals == old(self).signals,
                        self.links == old(self).links,
                        j < n,
                        n == self.names@.len(),
                        k <= self.links@.len(),
                        self.dirty@.len() == before.len(),
                        forall|i: int|
                            0 <= i < before.len() ==> (#[trigger] self.dirty@[i] <==> (before[i]
                                || exists|m: int|
                                0 <= m < k && self.links@[m].0 as int == i && self.links@[m].1 == j)),
                    decreases self.links@.len() - k,
                {
                    let (a, b) = self.links[k];
                    if b == j {
                        self.dirty.set(a, true);
                    }
                    k += 1;
                }
                proof {
                    assert forall|i: int| 0 <= i < self.dirty@.len() implies (#[trigger] self.dirty@[i]
                        <==> exists|y: int|
                        j <= y < n && poll_fires(old(self).seen_loaded(y), ps[y])
                            && #[trigger] old(self).linked(i, y)) by {
                        if self.dirty@[i] && !before[i] {
                            let m = choose|m: int|
                                0 <= m < self.links@.len() && self.links@[m].0 as int == i
                                    && self.links@[m].1 == j;
                            assert(old(self).linked(i, j as int));
                        }
                        if before[i] {
                            let y = choose|y: int|
                                j + 1 <= y < n && poll_fires(old(self).seen_loaded(y), ps[y])
                                    && #[trigger] old(self).linked(i, y);
                        }
                        if exists|y: int|
                            j <= y < n && poll_fires(old(self).seen_loaded(y), ps[y])
                                && #[trigger] old(self).linked(i, y) {
                            let y = choose|y: int|
                                j <= y < n && poll_fires(old(self).seen_loaded(y), ps[y])
                                    && #[trigger] old(self).linked(i, y);
                            if y == j {
                                let m = choose|m: int|
                                    0 <= m < self.links@.len() && self.links@[m].0 as int == i
                                        && self.links@[m].1 as int == y;
                                assert(self.dirty@[i]);
                            } else {
                                assert(before[i]);
                            }
                        }
                    }
                }
            } else {
                proof {
                    assert forall|i: int| 0 <= i < self.dirty@.len() implies (#[trigger] self.dirty@[i]
                        <==> exists|y: int|
                        j <= y < n && poll_fires(old(self).seen_loaded(y), ps[y])
                            && #[trigger] old(self).linked(i, y)) by {
                        if exists|y: int|
                            j <= y < n && poll_fires(old(self).seen_loaded(y), ps[y])
                                && #[trigger] old(self).linked(i, y) {
                            let y = choose|y: int|
                                j <= y < n && poll_fires(old(self).seen_loaded(y), ps[y])
                                    && #[trigger] old(self).linked(i, y);
                            assert(y != j);
                        }
                    }
                }
            }
            proof {
                assert(polls@ =~= ps.subrange(0, j as int));
            }
        }
        proof {
            assert(self.loaded@.len() == n);
            assert forall|y: int| 0 <= y < n implies #[trigger] self.content(y) == if poll_fires(
                old(self).seen_loaded(y),
                ps[y],
            ) && ps[y].content is Some {
                Some(ps[y].content->Some_0@)
            } else {
                old(self).content(y)
            } by {
                assert(self.contents@[y] == if poll_fires(old(self).loaded@[y], ps[y])
                    && ps[y].content is Some {
                    ps[y].content
                } else {
                    old(self).contents@[y]
                });
            }
            assert(self.shader_names() =~= old(self).shader_names());
            assert(self.signal_ids() =~= old(self).signal_ids());
            assert forall|x: int, y: int| #[trigger] self.linked(x, y) == old(self).linked(x, y) by {}
            assert forall|t: DependencySignal| #[trigger] self.has_signal(t) == old(self).has_signal(
                t,
            ) by {}
            assert forall|t: DependencySignal, nm: Seq<char>| #[trigger] self.depends_on(t, nm)
                == old(self).depends_on(t, nm) by {
                if self.depends_on(t, nm) {
                    let y = choose|y: int|
                        0 <= y < self.names@.len() && self.names@[y]@ == nm && #[trigger] self.linked(
                            t.slot as int,
                            y,
                        );
                    assert(old(self).linked(t.slot as int, y));
                }
                if old(self).depends_on(t, nm) {
                    let y = choose|y: int|
                        0 <= y < old(self).names@.len() && old(self).names@[y]@ == nm
                            && #[trigger] old(self).linked(t.slot as int, y);
                    assert(self.linked(t.slot as int, y));
                }
            }
            assert forall|t: DependencySignal| #[trigger] self.is_dirty(t) == (old(self).has_signal(t)
                && old(self).fires_for(ps, t)) by {
                if self.is_dirty(t) {
                    let i = t.slot as int;
                    assert(self.dirty@[i]);
                    let y = choose|y: int|
                        0 <= y < n && poll_fires(old(self).seen_loaded(y), ps[y])
                            && #[trigger] old(self).linked(i, y);
                    assert(old(self).shader_names()[y] == old(self).names@[y]@);
                    assert(old(self).depends_on(t, old(self).shader_names()[y]));
                    assert(poll_fires(old(self).seen_loaded(y), ps[y]));
                }
                if old(self).has_signal(t) && old(self).fires_for(ps, t) {
                    let y = choose|y: int|
                        0 <= y < ps.len() && poll_fires(old(self).seen_loaded(y), #[trigger] ps[y])
                            && old(self).depends_on(t, old(self).shader_names()[y]);
                    let y2 = choose|y2: int|
                        0 <= y2 < old(self).names@.len() && old(self).names@[y2]@
                            == old(self).shader_names()[y] && #[trigger] old(self).linked(
                            t.slot as int,
                            y2,
                        );
                    assert(old(self).names@[y2]@ == old(self).names@[y]@);
                    assert(y2 == y);
                    assert(self.dirty@[t.slot as int]);
                }
            }
        }
        failures
    }

    /// Whether the shader called `name`, if tracked, has loaded at least once.
    pub open spec fn has_content(&self, name: Seq<char>) -> bool {
        forall|j: int|
            0 <= j < self.shader_names().len() && self.shader_names()[j] == name ==> (
            #[trigger] self.content(j)) is Some
    }

    /// Whether `get_shader(name)` may be called: the shader is untracked, or it has loaded.
    pub fn has_shader_content(&self, name: &str) -> (r: bool)
        requires
            self.wf(),
        ensures
            r == self.has_content(name@),
    {
        let owned = name.to_owned();
        match self.shader_index(&owned) {
            None => {
                proof {
                    assert forall|x: int|
                        0 <= x < self.shader_names().len() && self.shader_names()[x] == name@ implies (
                        #[trigger] self.content(x)) is Some by {
                        assert(self.tracks(name@));
                    }
                }
                true
            },
            Some(j) => {
                proof {
                    assert(self.shader_names()[j as int] == name@);
                    assert forall|x: int|
                        0 <= x < self.shader_names().len() && self.shader_names()[x] == name@ implies x
                        == j by {
                        assert(self.shader_names()[x] == self.names@[x]@);
                    }
                    assert((self.content(j as int) is Some) == (self.contents@[j as int] is Some));
                }
                self.contents[j].is_some()
            },
        }
    }

    /// The last good bytecode of the shader called `name`, or `None` when it is untracked.
    /// A tracked shader must have loaded at least once.
    pub fn get_shader(&self, name: &str) -> (r: Option<Vec<u32>>)
        requires
            self.wf(),
            self.has_content(name@),
        ensures
            r is None <==> !self.tracks(name@),
            forall|j: int|
                0 <= j < self.shader_names().len() && self.shader_names()[j] == name@ ==> (r matches Some(
                    v,
                ) && self.content(j) == Some(v@)),
    {
        let owned = name.to_owned();
        match self.shader_index(&owned) {
            None => None,
            Some(j) => {
                proof {
                    assert(self.shader_names()[j as int] == name@);
                    assert forall|x: int|
                        0 <= x < self.shader_names().len() && self.shader_names()[x] == name@ implies x
                        == j by {
                        assert(self.shader_names()[x] == self.names@[x]@);
                    }
                    assert(self.content(j as int) is Some);
                }
                match &self.contents[j] {
                    None => None,
                    Some(v) => Some(copy_words(v)),
                }
            },
        }
    }

    /// Whether signal `s` is dirty in the current tick.
    pub fn is_dependency_signaled(&self, s: &DependencySignal) -> (r: bool)
        requires
            self.wf(),
        ensures
            r == self.is_dirty(*s),
    {
        self.knows(s) && self.dirty[s.slot]
    }
}

/// A change reaches every dependent: when the poll of one shader fires in a tick, every
/// signal that depends on that shader is dirty after the tick, however many signals share it.
pub proof fn lemma_change_dirties_every_dependent(
    before: WatchedShaders,
    polls: Seq<ShaderPoll>,
    after: WatchedShaders,
    j: int,
    s1: DependencySignal,
    s2: DependencySignal,
)
    requires
        before.wf(),
        polls.len() == before.shader_names().len(),
        WatchedShaders::ticked(before, polls, after),
        0 <= j < polls.len(),
        poll_fires(before.seen_loaded(j), polls[j]),
        before.has_signal(s1),
        before.has_signal(s2),
        before.depends_on(s1, before.shader_names()[j]),
        before.depends_on(s2, before.shader_names()[j]),
    ensures
        after.is_dirty(s1),
        after.is_dirty(s2),
{
    assert(before.fires_for(polls, s1));
    assert(before.fires_for(polls, s2));
}

/// A signal none of whose shaders fired in a tick is not dirty after it.
pub proof fn lemma_untouched_signal_stays_clean(
    before: WatchedShaders,
    polls: Seq<ShaderPoll>,
    after: WatchedShaders,
    s: DependencySignal,
)
    requires
        before.wf(),
        polls.len() == before.shader_names().len(),
        WatchedShaders::ticked(before, polls, after),
        forall|j: int|
            0 <= j < polls.len() && poll_fires(before.seen_loaded(j), #[trigger] polls[j])
                ==> !before.depends_on(s, before.shader_names()[j]),
    ensures
        !after.is_dirty(s),
{
}

/// Dirtiness does not outlive its tick: after any tick, a following tick in which no file
/// changed and no shader's load state differs leaves every signal clean.
pub proof fn lemma_quiet_tick_clears_all(
    first: WatchedShaders,
    polls1: Seq<ShaderPoll>,
    second: WatchedShaders,
    polls2: Seq<ShaderPoll>,
    third: WatchedShaders,
    s: DependencySignal,
)
    requires
        first.wf(),
        polls1.len() == first.shader_names().len(),
        WatchedShaders::ticked(first, polls1, second),
        polls2.len() == polls1.len(),
        WatchedShaders::ticked(second, polls2, third),
        forall|j: int|
            0 <= j < polls2.len() ==> !(#[trigger] polls2[j]).changed && polls2[j].loaded
                == polls1[j].loaded,
    ensures
        !third.is_dirty(s),
{
    assert forall|j: int| 0 <= j < polls2.len() implies !poll_fires(
        second.seen_loaded(j),
        #[trigger] polls2[j],
    ) by {
        assert(second.seen_loaded(j) == (first.seen_loaded(j) || polls1[j].loaded));
    }
}

/// Changes collapse per signal: when several shaders of one signal fire in the same tick,
/// the signal is simply dirty, one flag for the whole tick, so its owner sees a single
/// reason to rebuild rather than one per changed shader.
pub proof fn lemma_simultaneous_changes_collapse(
    before: WatchedShaders,
    polls: Seq<ShaderPoll>,
    after: WatchedShaders,
    s: DependencySignal,
    j1: int,
    j2: int,
    j3: int,
)
    requires
        before.wf(),
        polls.len() == before.shader_names().len(),
        WatchedShaders::ticked(before, polls, after),
        before.has_signal(s),
        0 <= j1 < polls.len(),
        0 <= j2 < polls.len(),
        0 <= j3 < polls.len(),
        poll_fires(before.seen_loaded(j1), polls[j1]),
        poll_fires(before.seen_loaded(j2), polls[j2]),
        poll_fires(before.seen_loaded(j3), polls[j3]),
        before.depends_on(s, before.shader_names()[j1]),
        before.depends_on(s, before.shader_names()[j2]),
        before.depends_on(s, before.shader_names()[j3]),
    ensures
        after.is_dirty(s),
        after.is_dirty(s) == (before.has_signal(s) && before.fires_for(polls, s)),
{
    assert(before.fires_for(polls, s));
}

} // verus!
