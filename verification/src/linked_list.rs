//! A generic, ordered, singly-linked container.
//!
//! Each node owns its successor, so the chain is acyclic and every node has
//! exactly one owner. The container keeps a cached element count; the
//! well-formedness predicate [`LinkedList::wf`] says that the count equals
//! the number of reachable nodes. Every operation is specified against the
//! abstract view of the chain as a `Seq<T>`.

use vstd::pervasive::unreached;
use vstd::prelude::*;
use vstd::std_specs::cmp::PartialEqSpec;

verus! {

/// One link of the chain: an element value and ownership of the next node.
#[derive(Debug)]
pub struct Node<T> {
    pub value: T,
    next: Option<Box<Node<T>>>,
}

/// The error returned when a positional insert names a position beyond the
/// end of the chain. The chain is left untouched: clamping the position
/// would hide a caller's bookkeeping error.
#[derive(Clone, Copy, PartialEq, Eq, Structural, Debug)]
pub enum InsertError {
    PositionOutOfBounds,
}

/// The ordered chain: an optional first node and a cached element count.
#[derive(Debug)]
pub struct LinkedList<T> {
    head: Option<Box<Node<T>>>,
    len: usize,
}

/// The sequence of element values reachable from an optional node.
pub closed spec fn chain_seq<T>(link: Option<Box<Node<T>>>) -> Seq<T>
    decreases link,
{
    match link {
        None => Seq::empty(),
        Some(node) => seq![node.value] + chain_seq(node.next),
    }
}

impl<T> Node<T> {
    /// The sequence of values from this node to the end of its chain.
    pub closed spec fn subchain(self) -> Seq<T>
        decreases self,
    {
        seq![self.value] + chain_seq(self.next)
    }

    /// A fresh node holding `value`, linked to nothing.
    pub fn new(value: T) -> (node: Self)
        ensures
            node.subchain() == seq![value],
    {
        let node = Self { value, next: None };
        proof {
            assert(node.subchain() =~= seq![value]);
        }
        node
    }
}

impl<T> LinkedList<T> {
    /// The abstract contents of the chain, in order.
    pub closed spec fn as_seq(self) -> Seq<T> {
        chain_seq(self.head)
    }

    /// The cached count agrees with the number of reachable nodes.
    pub closed spec fn wf(self) -> bool {
        self.len == self.as_seq().len()
    }

    /// An empty chain.
    pub fn new() -> (list: Self)
        ensures
            list.wf(),
            list@ == Seq::<T>::empty(),
    {
        Self { head: None, len: 0 }
    }

    /// The exact number of elements currently in the chain.
    pub fn len(&self) -> (n: usize)
        requires
            self.wf(),
        ensures
            n == self@.len(),
    {
        self.len
    }

    /// Whether the chain holds no elements.
    pub fn is_empty(&self) -> (empty: bool)
        requires
            self.wf(),
        ensures
            empty == (self@.len() == 0),
    {
        self.len == 0
    }

    /// Links `value` in as element 0; every prior element shifts up by one.
    pub fn push_front(&mut self, value: T)
        requires
            old(self).wf(),
            old(self)@.len() < usize::MAX,
        ensures
            final(self).wf(),
            final(self)@ == seq![value] + old(self)@,
    {
        let old_head = self.head.take();
        let mut new_head = Node::new(value);
        new_head.next = old_head;
        self.head = Some(Box::new(new_head));
        self.len = self.len + 1;
    }

    /// Unlinks and returns element 0, or `None` on an empty chain.
    pub fn pop_front(&mut self) -> (popped: Option<T>)
        requires
            old(self).wf(),
        ensures
            final(self).wf(),
            old(self)@.len() == 0 ==> popped is None && final(self)@ == old(self)@,
            old(self)@.len() > 0 ==> popped == Some(old(self)@[0]) && final(self)@ == old(
                self,
            )@.drop_first(),
    {
        match self.head.take() {
            None => None,
            Some(out) => {
                let node = *out;
                self.head = node.next;
                self.len = self.len - 1;
                proof {
                    assert(self@ =~= old(self)@.drop_first());
                }
                Some(node.value)
            },
        }
    }

    /// Walks `link` to its end and attaches a fresh node holding `value`.
    fn push_back_link(link: &mut Option<Box<Node<T>>>, value: T)
        ensures
            chain_seq(*final(link)) == chain_seq(*old(link)).push(value),
        decreases *old(link),
    {
        match link.take() {
            None => {
                *link = Some(Box::new(Node::new(value)));
                proof {
                    assert(chain_seq(*link) =~= chain_seq(None::<Box<Node<T>>>).push(value));
                }
            },
            Some(mut boxed) => {
                Self::push_back_link(&mut boxed.next, value);
                *link = Some(boxed);
                proof {
                    assert(chain_seq(*link) =~= chain_seq(*old(link)).push(value));
                }
            },
        }
    }

    /// Appends `value` as the new last element.
    pub fn push_back(&mut self, value: T)
        requires
            old(self).wf(),
            old(self)@.len() < usize::MAX,
        ensures
            final(self).wf(),
            final(self)@ == old(self)@.push(value),
    {
        Self::push_back_link(&mut self.head, value);
        self.len = self.len + 1;
    }

    /// Detaches the last node of the non-empty chain under `link` and
    /// returns its value.
    fn pop_back_link(link: &mut Option<Box<Node<T>>>) -> (popped: T)
        requires
            chain_seq(*old(link)).len() >= 1,
        ensures
            popped == chain_seq(*old(link)).last(),
            chain_seq(*final(link)) == chain_seq(*old(link)).drop_last(),
        decreases *old(link),
    {
        let mut boxed = link.take().unwrap();
        if boxed.next.is_none() {
            proof {
                assert(chain_seq(*link) =~= chain_seq(*old(link)).drop_last());
            }
            let node = *boxed;
            node.value
        } else {
            let popped = Self::pop_back_link(&mut boxed.next);
            *link = Some(boxed);
            proof {
                assert(chain_seq(*link) =~= chain_seq(*old(link)).drop_last());
            }
            popped
        }
    }

    /// Unlinks and returns the last element, or `None` on an empty chain.
    pub fn pop_back(&mut self) -> (popped: Option<T>)
        requires
            old(self).wf(),
        ensures
            final(self).wf(),
            old(self)@.len() == 0 ==> popped is None && final(self)@ == old(self)@,
            old(self)@.len() > 0 ==> popped == Some(old(self)@.last()) && final(self)@ == old(
                self,
            )@.drop_last(),
    {
        if self.len == 0 {
            return None;
        }
        let popped = Self::pop_back_link(&mut self.head);
        self.len = self.len - 1;
        Some(popped)
    }

    /// A reference to element `n` of the chain under `link`, if it exists.
    fn get_link<'a>(link: &'a Option<Box<Node<T>>>, n: usize) -> (r: Option<&'a T>)
        ensures
            n < chain_seq(*link).len() ==> r is Some && *r.unwrap() == chain_seq(*link)[n as int],
            n >= chain_seq(*link).len() ==> r is None,
        decreases *link,
    {
        match link {
            None => None,
            Some(boxed) => {
                if n == 0 {
                    Some(&boxed.value)
                } else {
                    Self::get_link(&boxed.next, n - 1)
                }
            },
        }
    }

    /// A reference to element `n`, or `None` when `n` is out of range.
    pub fn get(&self, n: usize) -> (r: Option<&T>)
        ensures
            n < self@.len() ==> r is Some && *r.unwrap() == self@[n as int],
            n >= self@.len() ==> r is None,
    {
        Self::get_link(&self.head, n)
    }

    /// A reference to element 0, or `None` on an empty chain.
    pub fn head(&self) -> (r: Option<&T>)
        ensures
            self@.len() > 0 ==> r is Some && *r.unwrap() == self@[0],
            self@.len() == 0 ==> r is None,
    {
        self.get(0)
    }

    /// A reference to the last element, or `None` on an empty chain.
    pub fn tail(&self) -> (r: Option<&T>)
        requires
            self.wf(),
        ensures
            self@.len() > 0 ==> r is Some && *r.unwrap() == self@.last(),
            self@.len() == 0 ==> r is None,
    {
        if self.len == 0 {
            return None;
        }
        self.get(self.len - 1)
    }

    /// A mutable reference to element `n` of the non-empty chain under
    /// `link`.
    fn get_mut_link<'a>(link: &'a mut Option<Box<Node<T>>>, n: usize) -> (r: &'a mut T)
        requires
            n < chain_seq(*old(link)).len(),
        ensures
            *r == chain_seq(*old(link))[n as int],
            chain_seq(*final(link)) == chain_seq(*old(link)).update(n as int, *final(r)),
        decreases *old(link),
    {
        match link {
            Some(boxed) => {
                if n == 0 {
                    &mut boxed.value
                } else {
                    Self::get_mut_link(&mut boxed.next, n - 1)
                }
            },
            None => unreached(),
        }
    }

    /// A mutable reference to element `n`, or `None` when `n` is out of
    /// range. The caller may overwrite the referenced element; no other
    /// part of the chain changes.
    pub fn get_mut(&mut self, n: usize) -> (r: Option<&mut T>)
        requires
            old(self).wf(),
        ensures
            n >= old(self)@.len() ==> r is None && *final(self) == *old(self) && final(self).wf(),
            n < old(self)@.len() ==> (r matches Some(m) && *m == old(self)@[n as int]
                && final(self).wf() && final(self)@ == old(self)@.update(n as int, *final(m))),
    {
        if n >= self.len {
            return None;
        }
        Some(Self::get_mut_link(&mut self.head, n))
    }

    /// A mutable reference to the last element, or `None` on an empty
    /// chain. The caller may overwrite the referenced element; no other
    /// part of the chain changes.
    pub fn tail_mut(&mut self) -> (r: Option<&mut T>)
        requires
            old(self).wf(),
        ensures
            old(self)@.len() == 0 ==> r is None && *final(self) == *old(self) && final(self).wf(),
            old(self)@.len() > 0 ==> (r matches Some(m) && *m == old(self)@.last()
                && final(self).wf() && final(self)@ == old(self)@.update(
                old(self)@.len() - 1,
                *final(m),
            )),
    {
        if self.len == 0 {
            return None;
        }
        let idx = self.len - 1;
        Some(Self::get_mut_link(&mut self.head, idx))
    }

    /// Splices a fresh node holding `value` into the chain under `link` so
    /// that it becomes element `n` of that chain.
    fn insert_link(link: &mut Option<Box<Node<T>>>, value: T, n: usize)
        requires
            n <= chain_seq(*old(link)).len(),
        ensures
            chain_seq(*final(link)) == chain_seq(*old(link)).insert(n as int, value),
        decreases *old(link),
    {
        if n == 0 {
            let new_node = Box::new(Node { value, next: link.take() });
            *link = Some(new_node);
            proof {
                assert(chain_seq(*link) =~= chain_seq(*old(link)).insert(0, value));
            }
        } else {
            let mut boxed = link.take().unwrap();
            Self::insert_link(&mut boxed.next, value, n - 1);
            *link = Some(boxed);
            proof {
                assert(chain_seq(*link) =~= chain_seq(*old(link)).insert(n as int, value));
            }
        }
    }

    /// Makes `value` element `n`, shifting the elements at positions `n`
    /// and above up by one. A position beyond the current length is a
    /// contract violation: the chain is left unchanged and the error says
    /// so.
    pub fn insert(&mut self, value: T, n: usize) -> (result: Result<(), InsertError>)
        requires
            old(self).wf(),
            n <= old(self)@.len() ==> old(self)@.len() < usize::MAX,
        ensures
            final(self).wf(),
            n <= old(self)@.len() ==> result is Ok && final(self)@ == old(self)@.insert(
                n as int,
                value,
            ),
            n > old(self)@.len() ==> result == Err::<(), InsertError>(
                InsertError::PositionOutOfBounds,
            ) && final(self)@ == old(self)@ && *final(self) == *old(self),
    {
        if n > self.len {
            return Err(InsertError::PositionOutOfBounds);
        }
        Self::insert_link(&mut self.head, value, n);
        self.len = self.len + 1;
        Ok(())
    }

    /// Reverses the element order in place by detaching nodes from the
    /// front one at a time and re-linking each at the front of a fresh
    /// chain. Iterative, so arbitrarily long chains cannot exhaust the
    /// call stack.
    pub fn reverse(&mut self)
        requires
            old(self).wf(),
        ensures
            final(self).wf(),
            final(self)@ == old(self)@.reverse(),
    {
        let ghost orig = self@;
        let mut reversed = Self::new();
        proof {
            assert(orig.skip(0) =~= orig);
            assert(orig.take(0).reverse() =~= Seq::<T>::empty());
        }
        loop
            invariant
                self.wf(),
                reversed.wf(),
                orig.len() <= usize::MAX,
                reversed@.len() + self@.len() == orig.len(),
                self@ == orig.skip(reversed@.len() as int),
                reversed@ == orig.take(reversed@.len() as int).reverse(),
            ensures
                reversed.wf(),
                reversed@.len() == orig.len(),
                reversed@ == orig.take(reversed@.len() as int).reverse(),
            decreases self@.len(),
        {
            let ghost k = reversed@.len() as int;
            match self.pop_front() {
                None => {
                    break ;
                },
                Some(value) => {
                    reversed.push_front(value);
                    proof {
                        assert(orig[k] == value);
                        assert(reversed@ =~= orig.take(k + 1).reverse());
                        assert(self@ =~= orig.skip(k + 1));
                    }
                },
            }
        }
        proof {
            assert(orig.take(orig.len() as int) =~= orig);
        }
        *self = reversed;
    }

    /// A borrowing cursor positioned at the front of the chain. The chain
    /// itself is neither consumed nor changed, and a fresh cursor is
    /// independent of any earlier one.
    pub fn iter<'a>(&'a self) -> (it: Iter<'a, T>)
        ensures
            it@ == self@,
    {
        let it = Iter {
            node: match &self.head {
                None => None,
                Some(boxed) => Some(&**boxed),
            },
        };
        proof {
            assert(it@ =~= self@);
        }
        it
    }

    /// A consuming cursor that owns the chain and yields its elements
    /// from the front; draining it leaves nothing of the chain behind.
    pub fn into_iter(self) -> (it: IntoIter<T>)
        requires
            self.wf(),
        ensures
            it.wf(),
            it@ == self@,
    {
        IntoIter { list: self }
    }

    /// Builds a chain holding the elements of `elems` in the same order.
    pub fn from_vec(elems: Vec<T>) -> (list: Self)
        ensures
            list.wf(),
            list@ == elems@,
    {
        let ghost full = elems@;
        let mut elems = elems;
        let mut list = Self::new();
        // An exec call to `len` puts the fact that the input length fits in
        // usize in scope for the loop below.
        let n_elems: usize = elems.len();
        proof {
            assert(full.len() == n_elems);
            assert(full.take(full.len() as int) =~= full);
            assert(full.skip(full.len() as int) =~= Seq::<T>::empty());
        }
        loop
            invariant
                list.wf(),
                full.len() <= usize::MAX,
                elems@.len() <= full.len(),
                elems@ == full.take(elems@.len() as int),
                list@ == full.skip(elems@.len() as int),
            ensures
                list.wf(),
                list@ == full.skip(0),
            decreases elems@.len(),
        {
            let ghost k = elems@.len() as int;
            match elems.pop() {
                None => {
                    break ;
                },
                Some(value) => {
                    list.push_front(value);
                    proof {
                        assert(full[k - 1] == value);
                        assert(elems@ =~= full.take(k - 1));
                        assert(list@ =~= full.skip(k - 1));
                    }
                },
            }
        }
        proof {
            assert(full.skip(0) =~= full);
        }
        list
    }
}

impl<T> View for LinkedList<T> {
    type V = Seq<T>;

    open spec fn view(&self) -> Seq<T> {
        self.as_seq()
    }
}

impl<T> Default for LinkedList<T> {
    /// The empty chain.
    fn default() -> (list: Self)
        ensures
            list.wf(),
            list@ == Seq::<T>::empty(),
    {
        Self::new()
    }
}

/// A borrowing cursor over a chain: a lazy, forward-only walk that neither
/// consumes nor mutates the chain it was created from.
pub struct Iter<'a, T> {
    node: Option<&'a Node<T>>,
}

impl<'a, T> Iter<'a, T> {
    /// The elements this cursor has yet to yield, in order.
    pub closed spec fn remaining(self) -> Seq<T> {
        match self.node {
            None => Seq::empty(),
            Some(node) => node.subchain(),
        }
    }

    /// Yields a reference to the next element, or `None` once the walk is
    /// exhausted.
    pub fn next(&mut self) -> (item: Option<&'a T>)
        ensures
            old(self)@.len() == 0 ==> item is None && final(self)@ == old(self)@,
            old(self)@.len() > 0 ==> item is Some && *item.unwrap() == old(self)@[0]
                && final(self)@ == old(self)@.drop_first(),
    {
        match self.node {
            None => None,
            Some(node) => {
                self.node = match &node.next {
                    None => None,
                    Some(boxed) => Some(&**boxed),
                };
                proof {
                    assert(self@ =~= old(self)@.drop_first());
                }
                Some(&node.value)
            },
        }
    }
}

impl<'a, T> View for Iter<'a, T> {
    type V = Seq<T>;

    open spec fn view(&self) -> Seq<T> {
        self.remaining()
    }
}

/// A consuming cursor over a chain: it owns the chain and detaches the
/// front node on every step, so draining it leaves nothing behind.
pub struct IntoIter<T> {
    list: LinkedList<T>,
}

impl<T> IntoIter<T> {
    /// The owned chain behind the cursor is well formed.
    pub closed spec fn wf(self) -> bool {
        self.list.wf()
    }

    /// Detaches and returns the front element, or `None` once the chain is
    /// empty.
    pub fn next(&mut self) -> (item: Option<T>)
        requires
            old(self).wf(),
        ensures
            final(self).wf(),
            old(self)@.len() == 0 ==> item is None && final(self)@ == old(self)@,
            old(self)@.len() > 0 ==> item == Some(old(self)@[0])
                && final(self)@ == old(self)@.drop_first(),
    {
        self.list.pop_front()
    }
}

impl<T> View for IntoIter<T> {
    type V = Seq<T>;

    closed spec fn view(&self) -> Seq<T> {
        self.list@
    }
}

/// Pairwise equality of two sequences under the element type's own `==`
/// specification: equal lengths and `eq_spec`-equal elements at every
/// position.
pub open spec fn seqs_eq_spec<T: PartialEq>(a: Seq<T>, b: Seq<T>) -> bool
    decreases a.len(),
{
    if a.len() != b.len() {
        false
    } else if a.len() == 0 {
        true
    } else {
        a[0].eq_spec(&b[0]) && seqs_eq_spec(a.drop_first(), b.drop_first())
    }
}

impl<T: PartialEq> LinkedList<T> {
    /// Walks two chains in step, comparing elements with the element
    /// type's `==`.
    fn chain_eq(a: &Option<Box<Node<T>>>, b: &Option<Box<Node<T>>>) -> (r: bool)
        ensures
            T::obeys_eq_spec() ==> r == seqs_eq_spec(chain_seq(*a), chain_seq(*b)),
        decreases *a,
    {
        match (a, b) {
            (None, None) => true,
            (Some(x), Some(y)) => {
                let values_eq = x.value == y.value;
                if values_eq {
                    let rest_eq = Self::chain_eq(&x.next, &y.next);
                    proof {
                        assert(chain_seq(*a).drop_first() =~= chain_seq(x.next));
                        assert(chain_seq(*b).drop_first() =~= chain_seq(y.next));
                    }
                    rest_eq
                } else {
                    false
                }
            },
            _ => false,
        }
    }
}

impl<T: PartialEq> PartialEq for LinkedList<T> {
    /// True exactly when the two chains have the same length and pairwise
    /// equal elements in order.
    fn eq(&self, other: &Self) -> (r: bool) {
        Self::chain_eq(&self.head, &other.head)
    }
}

impl<T: PartialEq> vstd::std_specs::cmp::PartialEqSpecImpl for LinkedList<T> {
    open spec fn obeys_eq_spec() -> bool {
        T::obeys_eq_spec()
    }

    open spec fn eq_spec(&self, other: &Self) -> bool {
        seqs_eq_spec(self@, other@)
    }
}

/// Law: pushing a value on the front and then popping the front yields
/// that same value back and restores the chain exactly, so the length is
/// unchanged from before the push.
pub proof fn lemma_push_front_then_pop_front<T>(s: Seq<T>, v: T)
    ensures
        (seq![v] + s).len() > 0,
        (seq![v] + s)[0] == v,
        (seq![v] + s).drop_first() == s,
{
    assert((seq![v] + s).drop_first() =~= s);
}

/// Law: reversing a chain never changes its length, and reversing twice
/// restores the original element order.
pub proof fn lemma_reverse_twice<T>(s: Seq<T>)
    ensures
        s.reverse().len() == s.len(),
        s.reverse().reverse() == s,
{
    assert(s.reverse().reverse() =~= s);
}

/// Law: inserting `v` at a valid position `n` makes `v` element `n` and
/// grows the length by exactly one.
pub proof fn lemma_insert_then_get<T>(s: Seq<T>, v: T, n: int)
    requires
        0 <= n <= s.len(),
    ensures
        s.insert(n, v).len() == s.len() + 1,
        s.insert(n, v)[n] == v,
{
    s.insert_ensures(n, v);
}

/// Under a reflexive element equality, every sequence compares equal to
/// itself pairwise.
proof fn lemma_seqs_eq_spec_reflexive<T: PartialEq>(s: Seq<T>)
    requires
        forall|x: T| #[trigger] x.eq_spec(&x),
    ensures
        seqs_eq_spec(s, s),
    decreases s.len(),
{
    if s.len() > 0 {
        lemma_seqs_eq_spec_reflexive::<T>(s.drop_first());
    }
}

/// Law: two chains holding equal sequences of elements compare equal,
/// provided the element type's own equality is reflexive.
pub proof fn lemma_eq_of_equal_views<T: PartialEq>(a: LinkedList<T>, b: LinkedList<T>)
    requires
        a@ == b@,
        forall|x: T| #[trigger] x.eq_spec(&x),
    ensures
        a.eq_spec(&b),
{
    lemma_seqs_eq_spec_reflexive::<T>(a@);
}

/// Law: two chains of different lengths never compare equal.
pub proof fn lemma_neq_of_unequal_lengths<T: PartialEq>(a: LinkedList<T>, b: LinkedList<T>)
    requires
        a@.len() != b@.len(),
    ensures
        !a.eq_spec(&b),
{
}

} // verus!
