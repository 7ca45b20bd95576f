//! A singly linked stack of `i32` values.

use vstd::prelude::*;

verus! {

/// A stack of `i32` values kept as a singly linked list; the most recently
/// pushed element is at the head.
pub struct List {
    head: Link,
}

enum Link {
    Empty,
    More(Box<Node>),
}

struct Node {
    elem: i32,
    next: Link,
}

/// The elements a link chain holds, oldest first: the head of the chain is
/// the last element of the sequence.
spec fn link_view(link: Link) -> Seq<i32>
    decreases link,
{
    match link {
        Link::Empty => Seq::empty(),
        Link::More(node) => link_view(node.next).push(node.elem),
    }
}

impl View for List {
    type V = Seq<i32>;

    /// The stack as a sequence in push order: the top is the last element.
    closed spec fn view(&self) -> Seq<i32> {
        link_view(self.head)
    }
}

/// What `push` makes of a stack.
pub open spec fn pushed(s: Seq<i32>, e: i32) -> Seq<i32> {
    s.push(e)
}

/// What `pop` returns and leaves behind for a stack.
pub open spec fn popped(s: Seq<i32>) -> (Option<i32>, Seq<i32>) {
    if s.len() == 0 {
        (None, s)
    } else {
        (Some(s.last()), s.drop_last())
    }
}

impl List {
    /// An empty stack.
    pub fn new() -> (list: Self)
        ensures
            list@ == Seq::<i32>::empty(),
    {
        List { head: Link::Empty }
    }

    /// Puts `e` on top of the stack.
    pub fn push(&mut self, e: i32)
        ensures
            final(self)@ == pushed(old(self)@, e),
    {
        let mut next = Link::Empty;
        std::mem::swap(&mut next, &mut self.head);
        let node = Node { elem: e, next };
        self.head = Link::More(Box::new(node));
    }

    /// Takes the top element off the stack, or returns `None` when it is empty.
    pub fn pop(&mut self) -> (result: Option<i32>)
        ensures
            (result, final(self)@) == popped(old(self)@),
    {
        let mut head = Link::Empty;
        std::mem::swap(&mut head, &mut self.head);
        match head {
            Link::Empty => None,
            Link::More(node) => {
                let node = *node;
                self.head = node.next;
                Some(node.elem)
            },
        }
    }
}

impl Drop for List {
    /// Frees the nodes one at a time, so that a long list is not dropped by
    /// a deep chain of recursive destructors.
    fn drop(&mut self)
        opens_invariants none
        no_unwind
    {
        let mut head = Link::Empty;
        std::mem::swap(&mut head, &mut self.head);
        loop
            decreases link_view(head).len(),
        {
            match head {
                Link::Empty => break,
                Link::More(node) => {
                    head = node.next;
                },
            }
        }
    }
}

/// Pushing `e` and then popping gives `e` back and leaves the stack as it was.
pub proof fn lemma_pop_undoes_push(s: Seq<i32>, e: i32)
    ensures
        popped(pushed(s, e)) == (Some(e), s),
{
    assert(pushed(s, e).drop_last() =~= s);
}

/// Popping an empty stack returns nothing and leaves it empty.
pub proof fn lemma_pop_empty()
    ensures
        popped(Seq::<i32>::empty()) == (None::<i32>, Seq::<i32>::empty()),
{
}

/// The stack after pushing each element of `xs`, first to last, onto `s`.
pub open spec fn pushed_all(s: Seq<i32>, xs: Seq<i32>) -> Seq<i32>
    decreases xs.len(),
{
    if xs.len() == 0 {
        s
    } else {
        pushed_all(pushed(s, xs[0]), xs.drop_first())
    }
}

/// What `count` pops in a row return, in order, and the stack they leave.
pub open spec fn popped_n(s: Seq<i32>, count: nat) -> (Seq<Option<i32>>, Seq<i32>)
    decreases count,
{
    if count == 0 {
        (Seq::empty(), s)
    } else {
        let (first, rest) = popped(s);
        let (later, left) = popped_n(rest, (count - 1) as nat);
        (seq![first] + later, left)
    }
}

proof fn lemma_pushed_all_appends(s: Seq<i32>, xs: Seq<i32>)
    ensures
        pushed_all(s, xs) == s + xs,
    decreases xs.len(),
{
    if xs.len() > 0 {
        lemma_pushed_all_appends(pushed(s, xs[0]), xs.drop_first());
        assert(pushed(s, xs[0]) + xs.drop_first() =~= s + xs);
    } else {
        assert(s + xs =~= s);
    }
}

proof fn lemma_popped_n(s: Seq<i32>, count: nat)
    ensures
        popped_n(s, count).0 == Seq::new(
            count,
            |i: int|
                if i < s.len() {
                    Some(s[s.len() - 1 - i])
                } else {
                    None
                },
        ),
        popped_n(s, count).1 == (if count <= s.len() {
            s.take(s.len() - count)
        } else {
            Seq::<i32>::empty()
        }),
    decreases count,
{
    let expected = Seq::new(
        count,
        |i: int|
            if i < s.len() {
                Some(s[s.len() - 1 - i])
            } else {
                None
            },
    );
    if count == 0 {
        assert(popped_n(s, count).0 =~= expected);
        assert(s.take(s.len() as int) =~= s);
    } else {
        let rest = popped(s).1;
        lemma_popped_n(rest, (count - 1) as nat);
        assert(popped_n(s, count).0 =~= expected);
        if s.len() > 0 {
            if count <= s.len() {
                assert(rest.take(rest.len() - (count - 1)) =~= s.take(s.len() - count));
            }
        }
    }
}

/// Popping a stack that was built by pushing `xs` onto an empty stack gives
/// the elements of `xs` back last first, then `None` on every later pop, and
/// leaves the stack empty.
pub proof fn lemma_pops_reverse_pushes(xs: Seq<i32>, extra: nat)
    ensures
        popped_n(pushed_all(Seq::empty(), xs), xs.len() + extra) == (
            Seq::new(
                xs.len() + extra,
                |i: int|
                    if i < xs.len() {
                        Some(xs[xs.len() - 1 - i])
                    } else {
                        None
                    },
            ),
            Seq::<i32>::empty(),
        ),
{
    lemma_pushed_all_appends(Seq::empty(), xs);
    assert(Seq::<i32>::empty() + xs =~= xs);
    lemma_popped_n(xs, xs.len() + extra);
    assert(xs.take(0) =~= Seq::<i32>::empty());
}

} // verus!
