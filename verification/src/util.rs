use vstd::prelude::*;
use vstd::string::StringExecFns;
use vstd::std_specs::iter::IteratorSpec;

verus! {

/// Returns an owned copy of `s`.
pub fn xstrdup(s: &str) -> (r: String)
    ensures
        r@ == s@,
{
    s.to_string()
}

/// The characters of `s`, in order.
pub fn chars_of(s: &str) -> (v: Vec<char>)
    ensures
        v@ == s@,
{
    broadcast use vstd::string::group_string_axioms;
    let mut chars: Vec<char> = Vec::new();
    for c in it: s.chars()
        invariant
            chars@ == it.seq().take(it.index() as int),
    {
        chars.push(c);
    }
    assert(chars@ =~= s@);
    chars
}

/// A growable sequence of items.
#[derive(Clone)]
pub struct PtrVec<T> {
    pub items: Vec<T>,
}

impl<T> View for PtrVec<T> {
    type V = Seq<T>;

    open spec fn view(&self) -> Seq<T> {
        self.items@
    }
}

impl<T> PtrVec<T> {
    /// An empty sequence.
    pub fn new() -> (v: Self)
        ensures
            v@ == Seq::<T>::empty(),
    {
        PtrVec { items: Vec::new() }
    }

    /// An empty sequence; `capacity` is only a hint for allocation.
    pub fn with_capacity(capacity: usize) -> (v: Self)
        ensures
            v@ == Seq::<T>::empty(),
    {
        PtrVec { items: Vec::with_capacity(capacity) }
    }

    /// Appends `item` at the end.
    pub fn push(&mut self, item: T)
        ensures
            final(self)@ == old(self)@.push(item),
    {
        self.items.push(item);
    }

    /// Removes and returns the last item, if any.
    pub fn pop(&mut self) -> (r: Option<T>)
        ensures
            old(self)@.len() == 0 ==> r is None && final(self)@ == old(self)@,
            old(self)@.len() > 0 ==> r == Some(old(self)@.last()) && final(self)@
                == old(self)@.drop_last(),
    {
        self.items.pop()
    }

    /// Number of items.
    pub fn len(&self) -> (n: usize)
        ensures
            n == self@.len(),
    {
        self.items.len()
    }

    /// Number of items (same as `len`).
    pub fn count(&self) -> (n: usize)
        ensures
            n == self@.len(),
    {
        self.items.len()
    }

    /// The item at index `i`, if `i` is in range.
    pub fn get(&self, i: usize) -> (r: Option<&T>)
        ensures
            i < self@.len() ==> r == Some(&self@[i as int]),
            i >= self@.len() ==> r is None,
    {
        if i < self.items.len() {
            Some(&self.items[i])
        } else {
            None
        }
    }

    /// A mutable reference to the item at index `i`, if `i` is in range.
    pub fn get_mut(&mut self, i: usize) -> (r: Option<&mut T>)
        ensures
            i >= old(self)@.len() ==> r is None && final(self)@ == old(self)@,
            i < old(self)@.len() ==> r is Some && *r.unwrap() == old(self)@[i as int]
                && final(self)@ == old(self)@.update(i as int, *final(r.unwrap())),
    {
        if i < self.items.len() {
            let s = self.items.as_mut_slice();
            let (_, tail) = s.split_at_mut(i);
            tail.first_mut()
        } else {
            None
        }
    }

    /// The items as a slice.
    pub fn as_slice(&self) -> (s: &[T])
        ensures
            s@ == self@,
    {
        self.items.as_slice()
    }

    /// The items as a mutable slice.
    pub fn as_mut_slice(&mut self) -> (s: &mut [T])
        ensures
            s@ == old(self)@,
            final(s)@ == final(self)@,
    {
        self.items.as_mut_slice()
    }

    /// An iterator over the items, front to back.
    pub fn iter(&self) -> (it: std::slice::Iter<'_, T>)
        ensures
            IteratorSpec::remaining(&it).unref() == self@,
    {
        broadcast use vstd::std_specs::slice::axiom_spec_slice_iter;
        let it = self.items.iter();
        assert(IteratorSpec::remaining(&it).unref() =~= self@);
        it
    }
}

impl<T> Default for PtrVec<T> {
    fn default() -> (v: Self)
        ensures
            v@ == Seq::<T>::empty(),
    {
        Self::new()
    }
}

/// A string accumulator.
pub struct StrBuf {
    buf: String,
}

impl View for StrBuf {
    type V = Seq<char>;

    closed spec fn view(&self) -> Seq<char> {
        self.buf@
    }
}

impl StrBuf {
    /// An empty buffer.
    pub fn new() -> (b: Self)
        ensures
            b@ == Seq::<char>::empty(),
    {
        StrBuf { buf: String::new() }
    }

    /// Appends `s` to the buffer.
    pub fn append_str(&mut self, s: &str)
        ensures
            final(self)@ == old(self)@ + s@,
    {
        self.buf.append(s);
    }

    /// Returns the accumulated text and leaves the buffer empty.
    pub fn take(&mut self) -> (r: String)
        ensures
            r@ == old(self)@,
            final(self)@ == Seq::<char>::empty(),
    {
        let mut out = String::new();
        std::mem::swap(&mut out, &mut self.buf);
        out
    }

    /// The accumulated text, leaving the buffer as it is.
    pub fn to_string(&self) -> (r: String)
        ensures
            r@ == self@,
    {
        self.buf.clone()
    }
}

impl Default for StrBuf {
    fn default() -> (b: Self)
        ensures
            b@ == Seq::<char>::empty(),
    {
        Self::new()
    }
}


/// Popping right after pushing hands back the pushed item and leaves the
/// sequence as it was before the push.
pub proof fn law_pop_undoes_push<T>(items: Seq<T>, item: T)
    ensures
        items.push(item).len() > 0,
        items.push(item).last() == item,
        items.push(item).drop_last() == items,
{
    assert(items.push(item).drop_last() =~= items);
}


} // verus!
