use vstd::prelude::*;
use vstd::string::StringExecFns;

verus! {

/// The bindings of one frame: the first binding of a name wins.
pub open spec fn items_map<V>(s: Seq<(String, V)>) -> Map<Seq<char>, V>
    decreases s.len(),
{
    if s.len() == 0 {
        Map::empty()
    } else {
        items_map(s.drop_first()).insert(s[0].0@, s[0].1)
    }
}

/// The position of the first binding of `k`, or the length of `s`.
pub open spec fn first_index<V>(s: Seq<(String, V)>, k: Seq<char>) -> int
    decreases s.len(),
{
    if s.len() == 0 {
        0
    } else if s[0].0@ == k {
        0
    } else {
        1 + first_index(s.drop_first(), k)
    }
}

/// The value of `name` in the first frame that binds it.
pub open spec fn chain_lookup<V>(frames: Seq<Map<Seq<char>, V>>, name: Seq<char>) -> Option<V>
    decreases frames.len(),
{
    if frames.len() == 0 {
        None
    } else if frames[0].contains_key(name) {
        Some(frames[0][name])
    } else {
        chain_lookup(frames.drop_first(), name)
    }
}

/// The index of the first frame that binds `name`.
pub open spec fn defining_frame<V>(frames: Seq<Map<Seq<char>, V>>, name: Seq<char>) -> Option<int>
    decreases frames.len(),
{
    if frames.len() == 0 {
        None
    } else if frames[0].contains_key(name) {
        Some(0)
    } else {
        match defining_frame(frames.drop_first(), name) {
            Some(k) => Some(k + 1),
            None => None,
        }
    }
}

pub proof fn lemma_defining_frame<V>(frames: Seq<Map<Seq<char>, V>>, name: Seq<char>)
    ensures
        match defining_frame(frames, name) {
            Some(k) => {
                &&& 0 <= k < frames.len()
                &&& frames[k].contains_key(name)
                &&& chain_lookup(frames, name) == Some(frames[k][name])
                &&& forall|j: int| 0 <= j < k ==> !(#[trigger] frames[j]).contains_key(name)
            },
            None => {
                &&& chain_lookup(frames, name) is None
                &&& forall|j: int| 0 <= j < frames.len() ==> !(#[trigger] frames[j]).contains_key(name)
            },
        },
    decreases frames.len(),
{
    if frames.len() > 0 {
        lemma_defining_frame(frames.drop_first(), name);
        assert forall|j: int| 1 <= j < frames.len() implies #[trigger] frames[j] == frames.drop_first()[j - 1] by {}
    }
}

/// The frames after binding `name` to `value` in frame `k`.
pub open spec fn bind_in<V>(frames: Seq<Map<Seq<char>, V>>, k: int, name: Seq<char>, value: V) -> Seq<
    Map<Seq<char>, V>,
> {
    frames.update(k, frames[k].insert(name, value))
}

/// The frames after an assignment to `name`: the innermost frame that
/// binds it is rebound, or the first frame when none binds it.
pub open spec fn assign_frames<V>(frames: Seq<Map<Seq<char>, V>>, name: Seq<char>, value: V) -> Seq<
    Map<Seq<char>, V>,
> {
    match defining_frame(frames, name) {
        Some(k) => bind_in(frames, k, name, value),
        None => bind_in(frames, 0, name, value),
    }
}

/// `after` is the frame `before` with `name` bound to `value`: the first
/// item that binds `name` gets the new value in place, or a new item is
/// added at the end when none does; every other item stays as it was.
pub open spec fn item_rebound<V>(before: Seq<(String, V)>, after: Seq<(String, V)>, name: Seq<char>, value: V) -> bool {
    let i = first_index(before, name);
    &&& after.len() == before.len() + (if i < before.len() { 0int } else { 1int })
    &&& after[i].0@ == name
    &&& after[i].1 == value
    &&& forall|j: int| 0 <= j < after.len() && j != i ==> #[trigger] after[j] == before[j]
}

/// `after` is the scope chain `before` with `name` rebound to `value` in
/// the innermost frame that binds it (as `item_rebound` says), every other
/// frame left as it was; `before` must bind `name` somewhere.
pub open spec fn chain_rebound<V>(before: PyEnv<V>, after: PyEnv<V>, name: Seq<char>, value: V) -> bool
    decreases before,
{
    if first_index(before.items@, name) < before.items@.len() {
        after.parent == before.parent && item_rebound(before.items@, after.items@, name, value)
    } else {
        &&& after.items@ == before.items@
        &&& match (before.parent, after.parent) {
            (Some(p), Some(q)) => chain_rebound(*p, *q, name, value),
            _ => false,
        }
    }
}

pub proof fn lemma_first_index<V>(s: Seq<(String, V)>, k: Seq<char>)
    ensures
        0 <= first_index(s, k) <= s.len(),
        items_map(s).contains_key(k) == (first_index(s, k) < s.len()),
        first_index(s, k) < s.len() ==> s[first_index(s, k)].0@ == k && items_map(s)[k]
            == s[first_index(s, k)].1,
        forall|j: int| 0 <= j < first_index(s, k) ==> #[trigger] s[j].0@ != k,
    decreases s.len(),
{
    if s.len() > 0 {
        lemma_first_index(s.drop_first(), k);
        assert forall|j: int| 0 <= j < first_index(s, k) implies #[trigger] s[j].0@ != k by {
            if j > 0 {
                assert(s[j] == s.drop_first()[j - 1]);
            }
        }
    }
}

/// Rebinding the first binding of a name rebinds the name in the frame.
pub proof fn lemma_items_map_update<V>(s: Seq<(String, V)>, i: int, n: String, v: V)
    requires
        0 <= i < s.len(),
        i == first_index(s, n@),
    ensures
        items_map(s.update(i, (n, v))) == items_map(s).insert(n@, v),
    decreases s.len(),
{
    lemma_first_index(s, n@);
    if i == 0 {
        assert(s.update(i, (n, v)).drop_first() =~= s.drop_first());
        assert(items_map(s.update(i, (n, v))) =~= items_map(s).insert(n@, v));
    } else {
        lemma_items_map_update(s.drop_first(), i - 1, n, v);
        assert(s.update(i, (n, v)).drop_first() =~= s.drop_first().update(i - 1, (n, v)));
        assert(s[0].0@ != n@);
        assert(items_map(s.update(i, (n, v))) =~= items_map(s).insert(n@, v));
    }
}

/// A new binding at the end of a frame binds a name the frame lacked.
pub proof fn lemma_items_map_push<V>(s: Seq<(String, V)>, n: String, v: V)
    requires
        !items_map(s).contains_key(n@),
    ensures
        items_map(s.push((n, v))) == items_map(s).insert(n@, v),
    decreases s.len(),
{
    if s.len() == 0 {
        assert(s.push((n, v)).drop_first() =~= s);
        assert(items_map(s.push((n, v))) =~= items_map(s).insert(n@, v));
    } else {
        assert(s.push((n, v)).drop_first() =~= s.drop_first().push((n, v)));
        lemma_items_map_push(s.drop_first(), n, v);
        assert(items_map(s.push((n, v))) =~= items_map(s).insert(n@, v));
    }
}


/// The bindings of a call's parameters to its arguments, bound one after
/// the other (a later parameter of the same name wins).
pub open spec fn param_frame<V>(params: Seq<Seq<char>>, args: Seq<V>) -> Map<Seq<char>, V>
    decreases params.len(),
{
    if params.len() == 0 || args.len() == 0 {
        Map::empty()
    } else {
        param_frame(params.drop_last(), args.drop_last()).insert(params.last(), args.last())
    }
}

/// Why a call cannot bind its arguments.
#[derive(Clone, Copy, PartialEq, Eq, Structural, Debug)]
pub struct ArityError {
    /// The number of parameters.
    pub expected: usize,
    /// The number of arguments.
    pub got: usize,
}

/// A scope: its own bindings and the scope it is nested in.
pub struct PyEnv<V> {
    pub parent: Option<Box<PyEnv<V>>>,
    pub items: Vec<(String, V)>,
}

impl<V> PyEnv<V> {
    /// The frames of the scope chain, innermost first.
    pub open spec fn frames(&self) -> Seq<Map<Seq<char>, V>>
        decreases self,
    {
        let here = items_map(self.items@);
        match self.parent {
            Some(p) => seq![here] + p.frames(),
            None => seq![here],
        }
    }

    pub proof fn lemma_frames(&self)
        ensures
            self.frames().len() >= 1,
            self.frames()[0] == items_map(self.items@),
            match self.parent {
                Some(p) => self.frames().drop_first() == p.frames(),
                None => self.frames().len() == 1,
            },
    {
        match self.parent {
            Some(p) => {
                assert(self.frames().drop_first() =~= p.frames());
            },
            None => {},
        }
    }

    /// An empty scope nested in `parent`.
    pub fn new(parent: Option<PyEnv<V>>) -> (e: Self)
        ensures
            e.frames() == seq![Map::<Seq<char>, V>::empty()] + match parent {
                Some(p) => p.frames(),
                None => Seq::empty(),
            },
    {
        let e = PyEnv {
            parent: match parent {
                Some(p) => Some(Box::new(p)),
                None => None,
            },
            items: Vec::new(),
        };
        assert(items_map(e.items@) =~= Map::<Seq<char>, V>::empty());
        proof {
            if e.parent is None {
                assert(e.frames() =~= seq![Map::<Seq<char>, V>::empty()] + Seq::empty());
            }
        }
        e
    }

    /// An empty scope nested in `parent` (same as `new`).
    pub fn env_new(parent: Option<PyEnv<V>>) -> (e: Self)
        ensures
            e.frames() == seq![Map::<Seq<char>, V>::empty()] + match parent {
                Some(p) => p.frames(),
                None => Seq::empty(),
            },
    {
        PyEnv::new(parent)
    }

    /// The position of the first binding of `key` in this frame.
    fn find(&self, key: &String) -> (r: Option<usize>)
        ensures
            match r {
                Some(i) => i == first_index(self.items@, key@) && i < self.items@.len(),
                None => first_index(self.items@, key@) == self.items@.len(),
            },
    {
        proof {
            lemma_first_index(self.items@, key@);
        }
        let mut i: usize = 0;
        while i < self.items.len()
            invariant
                0 <= i <= self.items@.len(),
                i <= first_index(self.items@, key@),
                forall|j: int| 0 <= j < i ==> #[trigger] self.items@[j].0@ != key@,
            decreases self.items.len() - i,
        {
            proof {
                lemma_first_index(self.items@, key@);
            }
            if self.items[i].0 == *key {
                return Some(i);
            }
            i += 1;
        }
        None
    }

    /// Binds `name` to `value` in this frame: the first binding of `name`
    /// there is replaced, or a new one is added.
    pub fn set(&mut self, name: &str, value: V)
        ensures
            final(self).parent == old(self).parent,
            item_rebound(old(self).items@, final(self).items@, name@, value),
            items_map(final(self).items@) == items_map(old(self).items@).insert(name@, value),
            final(self).frames() == bind_in(old(self).frames(), 0, name@, value),
    {
        let key = String::from_str(name);
        proof {
            lemma_first_index(self.items@, key@);
            self.lemma_frames();
        }
        match self.find(&key) {
            Some(i) => {
                proof {
                    lemma_items_map_update(self.items@, i as int, key, value);
                }
                self.items.set(i, (key, value));
            },
            None => {
                proof {
                    lemma_items_map_push(self.items@, key, value);
                }
                self.items.push((key, value));
            },
        }
        proof {
            self.lemma_frames();
            assert(self.frames() =~= bind_in(old(self).frames(), 0, name@, value));
        }
    }

    /// Binds `name` to `value` in this frame (same as `set`).
    pub fn env_set(&mut self, name: &str, value: V)
        ensures
            final(self).parent == old(self).parent,
            item_rebound(old(self).items@, final(self).items@, name@, value),
            items_map(final(self).items@) == items_map(old(self).items@).insert(name@, value),
            final(self).frames() == bind_in(old(self).frames(), 0, name@, value),
    {
        PyEnv::set(self, name, value);
    }


    /// The scope of a call: a fresh frame nested in `parent` that binds each
    /// parameter to the argument at its position. Fails when the numbers of
    /// parameters and arguments differ.
    pub fn bind_params(parent: PyEnv<V>, params: &Vec<String>, args: Vec<V>) -> (r: Result<
        PyEnv<V>,
        ArityError,
    >)
        ensures
            params@.len() != args@.len() ==> r == Err::<PyEnv<V>, ArityError>(
                ArityError { expected: params@.len() as usize, got: args@.len() as usize },
            ),
            params@.len() == args@.len() ==> (r matches Ok(e) && e.frames() == seq![
                param_frame(params@.map_values(|p: String| p@), args@),
            ] + parent.frames()),
    {
        if params.len() != args.len() {
            return Err(ArityError { expected: params.len(), got: args.len() });
        }
        let ghost pf = parent.frames();
        let ghost names = params@.map_values(|p: String| p@);
        let mut e = PyEnv::new(Some(parent));
        let mut rest = args;
        proof {
            e.lemma_frames();
            assert(names.subrange(0, 0) =~= Seq::<Seq<char>>::empty());
        }
        let ghost all = rest@;
        let mut i: usize = 0;
        while i < params.len()
            invariant
                params@.len() == all.len(),
                i <= params@.len(),
                rest@ == all.skip(i as int),
                names == params@.map_values(|p: String| p@),
                e.frames() == seq![param_frame(names.subrange(0, i as int), all.subrange(0, i as int))] + pf,
            decreases params@.len() - i,
        {
            let v = rest.remove(0);
            proof {
                assert(v == all[i as int]);
                assert(rest@ =~= all.skip(i + 1));
            }
            e.set(params[i].as_str(), v);
            proof {
                let n2 = names.subrange(0, i + 1);
                let a2 = all.subrange(0, i + 1);
                assert(n2.drop_last() =~= names.subrange(0, i as int));
                assert(a2.drop_last() =~= all.subrange(0, i as int));
                assert(n2.last() == params@[i as int]@);
                assert(e.frames() =~= seq![param_frame(n2, a2)] + pf);
            }
            i += 1;
        }
        proof {
            assert(names.subrange(0, i as int) =~= names);
            assert(all.subrange(0, i as int) =~= all);
        }
        Ok(e)
    }

    /// Rebinds `key` in the first frame of the chain that binds it; hands
    /// the value back when no frame does.
    fn assign_existing(&mut self, key: &String, value: V) -> (r: Option<V>)
        ensures
            match defining_frame(old(self).frames(), key@) {
                Some(k) => r is None && final(self).frames() == bind_in(old(self).frames(), k, key@, value)
                    && chain_rebound(*old(self), *final(self), key@, value),
                None => r == Some(value) && *final(self) == *old(self),
            },
        decreases old(self).frames().len(),
    {
        proof {
            lemma_first_index(self.items@, key@);
            self.lemma_frames();
        }
        match self.find(key) {
            Some(i) => {
                proof {
                    lemma_items_map_update(self.items@, i as int, *key, value);
                }
                let n = key.clone();
                self.items.set(i, (n, value));
                proof {
                    self.lemma_frames();
                    assert(self.frames() =~= bind_in(old(self).frames(), 0, key@, value));
                }
                None
            },
            None => match self.parent.take() {
                Some(mut p) => {
                    let ghost here = items_map(self.items@);
                    let ghost pf = p.frames();
                    proof {
                        p.lemma_frames();
                        assert(old(self).frames() =~= seq![here] + pf);
                    }
                    let r = p.assign_existing(key, value);
                    let ghost pf2 = p.frames();
                    self.parent = Some(p);
                    proof {
                        self.lemma_frames();
                        assert(self.frames() =~= seq![here] + pf2);
                        assert(!here.contains_key(key@));
                        assert(old(self).frames().drop_first() =~= pf);
                        lemma_defining_frame(pf, key@);
                        match defining_frame(pf, key@) {
                            Some(k) => {
                                assert(self.frames() =~= bind_in(old(self).frames(), k + 1, key@, value));
                            },
                            None => {
                                assert(self.frames() =~= old(self).frames());
                            },
                        }
                    }
                    r
                },
                None => {
                    proof {
                        assert(old(self).frames().drop_first().len() == 0);
                        assert(defining_frame(old(self).frames().drop_first(), key@) is None);
                    }
                    Some(value)
                },
            },
        }
    }

    /// Rebinds `name` where it is visible: in the innermost frame that
    /// binds it, or, when none does, in this frame.
    pub fn env_assign(&mut self, name: &str, value: V)
        ensures
            final(self).frames() == assign_frames(old(self).frames(), name@, value),
            defining_frame(old(self).frames(), name@) is Some ==> chain_rebound(
                *old(self),
                *final(self),
                name@,
                value,
            ),
            defining_frame(old(self).frames(), name@) is None ==> final(self).parent == old(self).parent
                && item_rebound(old(self).items@, final(self).items@, name@, value),
    {
        let key = String::from_str(name);
        match self.assign_existing(&key, value) {
            None => {},
            Some(v) => {
                self.set(name, v);
            },
        }
    }

    /// The value `name` has in the innermost frame that binds it.
    pub fn env_get(&self, name: &str) -> (r: Option<&V>)
        ensures
            r == match chain_lookup(self.frames(), name@) {
                Some(v) => Some(&v),
                None => None::<&V>,
            },
        decreases self.frames().len(),
    {
        let key = String::from_str(name);
        proof {
            lemma_first_index(self.items@, key@);
            self.lemma_frames();
        }
        match self.find(&key) {
            Some(i) => Some(&self.items[i].1),
            None => match &self.parent {
                Some(p) => {
                    proof {
                        p.lemma_frames();
                        assert(self.frames().drop_first() =~= p.frames());
                    }
                    p.env_get(name)
                },
                None => {
                    proof {
                        assert(self.frames().drop_first().len() == 0);
                        assert(chain_lookup(self.frames().drop_first(), name@) is None);
                    }
                    None
                },
            },
        }
    }
}


// ---------------------------------------------------------------------
// Laws of scopes
// ---------------------------------------------------------------------

/// A name bound in the innermost frame is found there: after `set`, a
/// lookup of the name gives the value just bound.
pub proof fn law_get_after_set<V>(frames: Seq<Map<Seq<char>, V>>, name: Seq<char>, value: V)
    requires
        frames.len() >= 1,
    ensures
        chain_lookup(bind_in(frames, 0, name, value), name) == Some(value),
{
}

/// Binding one name in the innermost frame leaves the lookup of every
/// other name unchanged.
pub proof fn law_set_keeps_other_names<V>(
    frames: Seq<Map<Seq<char>, V>>,
    name: Seq<char>,
    other: Seq<char>,
    value: V,
)
    requires
        frames.len() >= 1,
        other != name,
    ensures
        chain_lookup(bind_in(frames, 0, name, value), other) == chain_lookup(frames, other),
{
    let f2 = bind_in(frames, 0, name, value);
    assert(f2.drop_first() =~= frames.drop_first());
}

proof fn lemma_lookup_bind<V>(frames: Seq<Map<Seq<char>, V>>, k: int, name: Seq<char>, other: Seq<char>, value: V)
    requires
        0 <= k < frames.len(),
        forall|j: int| 0 <= j < k ==> !(#[trigger] frames[j]).contains_key(name),
    ensures
        chain_lookup(bind_in(frames, k, name, value), name) == Some(value),
        other != name ==> chain_lookup(bind_in(frames, k, name, value), other) == chain_lookup(frames, other),
    decreases k,
{
    let f2 = bind_in(frames, k, name, value);
    if k > 0 {
        assert(f2.drop_first() =~= bind_in(frames.drop_first(), k - 1, name, value));
        assert forall|j: int| 0 <= j < k - 1 implies !(#[trigger] frames.drop_first()[j]).contains_key(name) by {
            assert(frames.drop_first()[j] == frames[j + 1]);
        }
        lemma_lookup_bind(frames.drop_first(), k - 1, name, other, value);
        assert(!frames[0].contains_key(name));
        assert(f2[0] == frames[0]);
    } else {
        assert(f2.drop_first() =~= frames.drop_first());
    }
}

/// After an assignment to a name, looking the name up gives the assigned
/// value, whichever frame took it.
pub proof fn law_get_after_assign<V>(frames: Seq<Map<Seq<char>, V>>, name: Seq<char>, value: V)
    requires
        frames.len() >= 1,
    ensures
        chain_lookup(assign_frames(frames, name, value), name) == Some(value),
{
    lemma_defining_frame(frames, name);
    match defining_frame(frames, name) {
        Some(k) => lemma_lookup_bind(frames, k, name, name, value),
        None => lemma_lookup_bind(frames, 0, name, name, value),
    }
}

/// An assignment to one name leaves the lookup of every other name
/// unchanged.
pub proof fn law_assign_keeps_other_names<V>(
    frames: Seq<Map<Seq<char>, V>>,
    name: Seq<char>,
    other: Seq<char>,
    value: V,
)
    requires
        frames.len() >= 1,
        other != name,
    ensures
        chain_lookup(assign_frames(frames, name, value), other) == chain_lookup(frames, other),
{
    lemma_defining_frame(frames, name);
    match defining_frame(frames, name) {
        Some(k) => lemma_lookup_bind(frames, k, name, other, value),
        None => lemma_lookup_bind(frames, 0, name, other, value),
    }
}

/// Assigning to a name that an outer frame binds updates that frame and
/// does not shadow it: the innermost frame is left as it was, and so is
/// the number of frames.
pub proof fn law_assign_updates_outer<V>(frames: Seq<Map<Seq<char>, V>>, name: Seq<char>, value: V)
    requires
        frames.len() >= 1,
        !frames[0].contains_key(name),
        chain_lookup(frames, name) is Some,
    ensures
        assign_frames(frames, name, value).len() == frames.len(),
        assign_frames(frames, name, value)[0] == frames[0],
{
    lemma_defining_frame(frames, name);
}

/// A fresh scope nested in another sees exactly the bindings of the outer
/// one.
pub proof fn law_new_scope_sees_parent<V>(parent: Seq<Map<Seq<char>, V>>, name: Seq<char>)
    ensures
        chain_lookup(seq![Map::<Seq<char>, V>::empty()] + parent, name) == chain_lookup(parent, name),
{
    let f = seq![Map::<Seq<char>, V>::empty()] + parent;
    assert(f.drop_first() =~= parent);
}


// ---------------------------------------------------------------------
// Scope chains seen through a map of their values
// ---------------------------------------------------------------------

/// The frames with `g` applied to every bound value.
pub open spec fn map_frames<V, W>(frames: Seq<Map<Seq<char>, V>>, g: spec_fn(V) -> W) -> Seq<
    Map<Seq<char>, W>,
> {
    frames.map_values(|m: Map<Seq<char>, V>| m.map_values(g))
}

pub proof fn lemma_map_frames_lookup<V, W>(frames: Seq<Map<Seq<char>, V>>, g: spec_fn(V) -> W, name: Seq<char>)
    ensures
        chain_lookup(map_frames(frames, g), name) == match chain_lookup(frames, name) {
            Some(v) => Some(g(v)),
            None => None,
        },
        defining_frame(map_frames(frames, g), name) == defining_frame(frames, name),
    decreases frames.len(),
{
    if frames.len() > 0 {
        assert(map_frames(frames, g).drop_first() =~= map_frames(frames.drop_first(), g));
        lemma_map_frames_lookup(frames.drop_first(), g, name);
    }
}

pub proof fn lemma_map_frames_bind<V, W>(
    frames: Seq<Map<Seq<char>, V>>,
    g: spec_fn(V) -> W,
    k: int,
    name: Seq<char>,
    value: V,
)
    requires
        0 <= k < frames.len(),
    ensures
        map_frames(bind_in(frames, k, name, value), g) == bind_in(map_frames(frames, g), k, name, g(value)),
{
    let a = map_frames(bind_in(frames, k, name, value), g);
    let b = bind_in(map_frames(frames, g), k, name, g(value));
    assert(a[k] =~= b[k]);
    assert(a =~= b);
}

pub proof fn lemma_map_frames_assign<V, W>(frames: Seq<Map<Seq<char>, V>>, g: spec_fn(V) -> W, name: Seq<char>, value: V)
    requires
        frames.len() >= 1,
    ensures
        map_frames(assign_frames(frames, name, value), g) == assign_frames(map_frames(frames, g), name, g(value)),
{
    lemma_map_frames_lookup(frames, g, name);
    lemma_defining_frame(frames, name);
    match defining_frame(frames, name) {
        Some(k) => lemma_map_frames_bind(frames, g, k, name, value),
        None => lemma_map_frames_bind(frames, g, 0, name, value),
    }
}

} // verus!
