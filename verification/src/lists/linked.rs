use vstd::prelude::*;

verus! {

/// One cell of a singly linked list: a value and the rest of the list.
#[derive(Debug, Eq, PartialEq)]
pub struct Node<V> {
    value: V,
    next: Option<Box<Node<V>>>,
}

/// The values stored from `n` on, front first.
pub closed spec fn node_seq<V>(n: Node<V>) -> Seq<V>
    decreases n,
{
    seq![n.value] + opt_seq(n.next)
}

/// The values stored from an optional node on, front first.
pub closed spec fn opt_seq<V>(n: Option<Box<Node<V>>>) -> Seq<V>
    decreases n,
{
    match n {
        None => Seq::empty(),
        Some(b) => node_seq(*b),
    }
}

impl<V> Node<V> {
    /// A node holding `val` with nothing after it.
    pub fn new(val: V) -> (r: Self)
        ensures
            node_seq(r) == seq![val],
    {
        let r = Node { value: val, next: None };
        proof {
            assert(node_seq(r) =~= seq![val]);
        }
        r
    }
}

/// A singly linked list that owns its nodes and counts its elements.
pub struct LinkedList<T> {
    head: Option<Box<Node<T>>>,
    size: usize,
}

impl<T> View for LinkedList<T> {
    type V = Seq<T>;

    /// The stored values, front first.
    closed spec fn view(&self) -> Seq<T> {
        opt_seq(self.head)
    }
}

impl<T> LinkedList<T> {
    /// The element count kept by the list matches its contents.
    pub closed spec fn wf(&self) -> bool {
        self.size == opt_seq(self.head).len()
    }

    /// An empty list.
    pub fn new() -> (r: Self)
        ensures
            r.wf(),
            r@ == Seq::<T>::empty(),
    {
        LinkedList { head: None, size: 0 }
    }

    /// Puts `ele` before every present element.
    pub fn push_front(&mut self, ele: T)
        requires
            old(self).wf(),
            old(self)@.len() < usize::MAX,
        ensures
            final(self).wf(),
            final(self)@ == seq![ele] + old(self)@,
    {
        let next = self.head.take();
        self.head = Some(Box::new(Node { value: ele, next }));
        self.size = self.size + 1;
        proof {
            assert(final(self)@ =~= seq![ele] + old(self)@);
        }
    }

    /// Puts `ele` after every present element.
    pub fn push_back(&mut self, ele: T)
        requires
            old(self).wf(),
            old(self)@.len() < usize::MAX,
        ensures
            final(self).wf(),
            final(self)@ == old(self)@.push(ele),
    {
        let rest = self.head.take();
        self.head = Some(push_back_rec(rest, ele));
        self.size = self.size + 1;
    }

    /// Removal is not provided: every call returns `None` and leaves the
    /// list unchanged.
    pub fn pop(&mut self) -> (r: Option<T>)
        ensures
            r is None,
            *final(self) == *old(self),
    {
        None
    }
}

impl<T: Copy> LinkedList<T> {
    /// The stored values in order, copied into a fresh vector, so that the
    /// contents can be inspected without consuming the list.
    pub fn to_vec(&self) -> (r: Vec<T>)
        ensures
            r@ == self@,
    {
        let mut out: Vec<T> = Vec::new();
        let mut cur: &Option<Box<Node<T>>> = &self.head;
        proof {
            assert(self@ =~= out@ + opt_seq(*cur));
        }
        while cur.is_some()
            invariant
                self@ == out@ + opt_seq(*cur),
            decreases opt_seq(*cur).len(),
        {
            match cur {
                None => {
                    proof {
                        assert(false);
                    }
                },
                Some(b) => {
                    out.push(b.value);
                    proof {
                        assert(self@ =~= out@ + opt_seq(b.next));
                    }
                    cur = &b.next;
                },
            }
        }
        proof {
            assert(self@ =~= out@);
        }
        out
    }
}

/// Rebuilds the chain `n` with `ele` attached after its last node.
fn push_back_rec<T>(n: Option<Box<Node<T>>>, ele: T) -> (r: Box<Node<T>>)
    ensures
        node_seq(*r) == opt_seq(n).push(ele),
    decreases n,
{
    let ghost n0 = n;
    match n {
        None => {
            let r = Box::new(Node { value: ele, next: None });
            proof {
                assert(node_seq(*r) =~= opt_seq(n0).push(ele));
            }
            r
        },
        Some(b) => {
            let node = *b;
            let tail = push_back_rec(node.next, ele);
            let r = Box::new(Node { value: node.value, next: Some(tail) });
            proof {
                assert(node_seq(*r) =~= opt_seq(n0).push(ele));
            }
            r
        },
    }
}

} // verus!
