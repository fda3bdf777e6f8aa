//! A persistent singly-linked list: prepending shares the old list as the tail.
use std::rc::Rc;
use vstd::prelude::*;

verus! {

#[derive(Debug, PartialEq)]
struct Node<T> {
    elem: T,
    next: Option<Rc<Node<T>>>,
}

/// An immutable list; `prepend` makes one new node that points at the old head,
/// so the tail is shared rather than copied.
#[derive(Clone, Debug, PartialEq)]
pub struct List<T> {
    head: Option<Rc<Node<T>>>,
}

spec fn link_view<T>(link: Option<Rc<Node<T>>>) -> Seq<T>
    decreases link,
{
    match link {
        None => Seq::empty(),
        Some(node) => seq![node.elem].add(link_view(node.next)),
    }
}

spec fn next_of<T>(node: Rc<Node<T>>) -> Option<Rc<Node<T>>> {
    node.next
}

proof fn lemma_link_view_injective<T>(a: Option<Rc<Node<T>>>, b: Option<Rc<Node<T>>>)
    requires
        link_view(a) == link_view(b),
    ensures
        a == b,
    decreases a,
{
    match (a, b) {
        (Some(x), Some(y)) => {
            assert(link_view(x.next) =~= link_view(a).drop_first());
            assert(link_view(y.next) =~= link_view(b).drop_first());
            lemma_link_view_injective(next_of(x), next_of(y));
            assert(x.elem == link_view(a)[0]);
            assert(y.elem == link_view(b)[0]);
        },
        (Some(x), None) => {
            assert(link_view(a).len() > 0);
        },
        (None, Some(y)) => {
            assert(link_view(b).len() > 0);
        },
        (None, None) => {},
    }
}

proof fn lemma_link_elements_decrease<T>(link: Option<Rc<Node<T>>>, i: int)
    requires
        0 <= i < link_view(link).len(),
    ensures
        decreases_to!(link => link_view(link)[i]),
    decreases link,
{
    match link {
        Some(node) => {
            assert(decreases_to!(link => node));
            assert(decreases_to!(node => node.elem));
            if i > 0 {
                assert(link_view(link)[i] == link_view(next_of(node))[i - 1]);
                lemma_link_elements_decrease(next_of(node), i - 1);
                assert(decreases_to!(node => node.next));
            }
        },
        None => {},
    }
}

/// Each element of a list is smaller than the list, for termination proofs.
pub proof fn lemma_elements_decrease<T>(l: List<T>, i: int)
    requires
        0 <= i < l@.len(),
    ensures
        decreases_to!(l => l@[i]),
{
    lemma_link_elements_decrease(l.head, i);
    assert(decreases_to!(l => l.head));
}

/// A list is determined by its elements.
pub proof fn lemma_list_ext<T>(a: List<T>, b: List<T>)
    requires
        a@ == b@,
    ensures
        a == b,
{
    lemma_link_view_injective(a.head, b.head);
}

/// The list that holds exactly the elements `s`.
pub open spec fn list_of<T>(s: Seq<T>) -> List<T> {
    choose|l: List<T>| l@ == s
}

/// Each list is the list of its own elements.
pub proof fn lemma_list_of_view<T>(l: List<T>)
    ensures
        list_of(l@) == l,
{
    let c = list_of(l@);
    assert(c@ == l@);
    lemma_list_ext(c, l);
}

impl<T> View for List<T> {
    type V = Seq<T>;

    /// The elements, from the head to the end.
    closed spec fn view(&self) -> Seq<T> {
        link_view(self.head)
    }
}

impl<T> List<T> {
    pub fn new() -> (l: Self)
        ensures
            l@ == Seq::<T>::empty(),
    {
        List { head: None }
    }

    pub fn prepend(&self, elem: T) -> (l: List<T>)
        ensures
            l@ == seq![elem].add(self@),
    {
        let next = match &self.head {
            None => None,
            Some(node) => Some(Rc::clone(node)),
        };
        List { head: Some(Rc::new(Node { elem: elem, next: next })) }
    }

    /// Another handle on the same nodes.
    pub fn share(&self) -> (l: List<T>)
        ensures
            l@ == self@,
    {
        let head = match &self.head {
            None => None,
            Some(node) => Some(Rc::clone(node)),
        };
        List { head }
    }

    /// The list without its first element; the empty list is its own tail.
    pub fn tail(&self) -> (l: List<T>)
        ensures
            self@.len() == 0 ==> l@ == self@,
            self@.len() > 0 ==> l@ == self@.drop_first(),
    {
        match &self.head {
            None => List { head: None },
            Some(node) => {
                let next = match &node.next {
                    None => None,
                    Some(n) => Some(Rc::clone(n)),
                };
                List { head: next }
            },
        }
    }

    pub fn head(&self) -> (r: Option<&T>)
        ensures
            self@.len() == 0 ==> r is None,
            self@.len() > 0 ==> r == Some(&self@[0]),
    {
        match &self.head {
            None => None,
            Some(node) => Some(&node.elem),
        }
    }
}

} // verus!
