//! Doubly linked lists through nodes that live in one table.
//!
//! A node is known by its place in the table. It is in at most one list at a time, and it leaves that
//! list without a search.

use vstd::prelude::*;

verus! {

/// The neighbours of a node.
#[derive(Copy, Clone, Debug, PartialEq, Eq, Structural)]
pub struct Link {
    pub next: Option<usize>,
    pub prev: Option<usize>,
}

impl Default for Link {
    fn default() -> (link: Self)
        ensures
            link == (Link { next: None, prev: None }),
    {
        Link { next: None, prev: None }
    }
}

/// Where a node is.
pub enum Home {
    /// In no list.
    Out,
    /// In the [List].
    Listed,
    /// In the [GuardedList] of this guard.
    Ringed(usize),
    /// It guards a [GuardedList].
    Guard,
}

/// The table of all nodes.
pub struct Links {
    pub cells: Vec<Link>,
    /// Where each node is.
    pub homes: Ghost<Seq<Home>>,
    /// The nodes of each [GuardedList] from front to back, by its guard.
    pub rings: Ghost<Map<usize, Seq<usize>>>,
}

/// The `i`-th node of a list knows its neighbours, and an end of the list knows that it is one.
pub open spec fn chained(cells: Seq<Link>, nodes: Seq<usize>, i: int) -> bool {
    &&& nodes[i] < cells.len()
    &&& cells[nodes[i] as int] == Link {
        next: if i + 1 < nodes.len() {
            Some(nodes[i + 1])
        } else {
            None
        },
        prev: if i > 0 {
            Some(nodes[i - 1])
        } else {
            None
        },
    }
}

/// The `i`-th node of a ring knows its neighbours. The guard comes first, and follows the last node.
pub open spec fn ringed(cells: Seq<Link>, ring: Seq<usize>, i: int) -> bool {
    &&& ring[i] < cells.len()
    &&& cells[ring[i] as int] == Link {
        next: Some(
            if i + 1 < ring.len() {
                ring[i + 1]
            } else {
                ring[0]
            },
        ),
        prev: Some(
            if i > 0 {
                ring[i - 1]
            } else {
                ring[ring.len() - 1]
            },
        ),
    }
}

/// What is left of `nodes` without `node`.
pub open spec fn without(nodes: Seq<usize>, node: usize) -> Seq<usize> {
    if nodes.contains(node) {
        nodes.remove(nodes.index_of(node))
    } else {
        nodes
    }
}

impl Links {
    /// The ring of `guard`: the guard and its nodes from front to back.
    pub open spec fn ring(&self, guard: usize) -> Seq<usize> {
        seq![guard] + self.rings@[guard]
    }

    pub open spec fn home(&self, node: usize) -> Home {
        self.homes@[node as int]
    }

    /// The `i`-th node of the ring of `guard` is at home there.
    pub open spec fn settled(&self, guard: usize, i: int) -> bool {
        &&& self.rings@[guard][i] < self.cells@.len()
        &&& self.home(self.rings@[guard][i]) == Home::Ringed(guard)
    }

    /// The ring of `guard` holds together, and its nodes are nowhere else.
    pub open spec fn ring_wf(&self, guard: usize) -> bool {
        &&& guard < self.cells@.len()
        &&& self.home(guard) is Guard
        &&& self.rings@[guard].no_duplicates()
        &&& forall|i: int| 0 <= i < self.rings@[guard].len() ==> #[trigger] self.settled(guard, i)
        &&& forall|i: int|
            0 <= i < self.ring(guard).len() ==> #[trigger] ringed(self.cells@, self.ring(guard), i)
    }

    /// Each node is where its home says, and a node in no list has no next node.
    pub open spec fn home_wf(&self, node: usize) -> bool {
        match self.home(node) {
            Home::Out => self.cells@[node as int].next is None,
            Home::Listed => true,
            Home::Ringed(guard) => {
                self.rings@.dom().contains(guard) && self.rings@[guard].contains(node)
            },
            Home::Guard => self.rings@.dom().contains(node),
        }
    }

    pub open spec fn wf(&self) -> bool {
        &&& self.homes@.len() == self.cells@.len()
        &&& forall|guard: usize| #[trigger]
            self.rings@.dom().contains(guard) ==> self.ring_wf(guard)
        &&& forall|node: usize| node < self.cells@.len() ==> #[trigger] self.home_wf(node)
    }

    /// A table without nodes.
    pub fn new() -> (links: Self)
        ensures
            links.wf(),
            links.cells@.len() == 0,
            links.rings@ == Map::<usize, Seq<usize>>::empty(),
    {
        Links { cells: Vec::new(), homes: Ghost(Seq::empty()), rings: Ghost(Map::empty()) }
    }

    /// Adds a node.
    pub fn add(&mut self) -> (node: usize)
        requires
            old(self).wf(),
        ensures
            final(self).wf(),
            node == old(self).cells@.len(),
            final(self).cells@ == old(self).cells@.push(Link { next: None, prev: None }),
            final(self).homes@ == old(self).homes@.push(Home::Out),
            final(self).rings@ == old(self).rings@,
            forall|list: List| #[trigger] list.wf(*old(self)) ==> list.wf(*final(self)),
    {
        let node: usize = self.cells.len();
        self.cells.push(Link::default());
        proof {
            self.homes@ = self.homes@.push(Home::Out);
            assert forall|guard: usize| #[trigger]
                self.rings@.dom().contains(guard) implies self.ring_wf(guard) by {
                lemma_ring_kept(*old(self), *self, guard);
            }
            assert forall|other: usize| other < self.cells@.len() implies #[trigger] self.home_wf(
                other,
            ) by {
                if other != node {
                    assert(old(self).home_wf(other));
                }
            }
            assert forall|list: List| #[trigger] list.wf(*old(self)) implies list.wf(*self) by {
                lemma_list_kept(list, *old(self), *self);
            }
        }
        node
    }
}

/// A ring whose nodes were left alone holds together still.
proof fn lemma_ring_kept(before: Links, after: Links, guard: usize)
    requires
        before.ring_wf(guard),
        after.rings@[guard] == before.rings@[guard],
        before.cells@.len() <= after.cells@.len(),
        after.cells@[guard as int] == before.cells@[guard as int],
        after.home(guard) == before.home(guard),
        forall|node: usize|
            node < before.cells@.len() && #[trigger] before.home(node) == Home::Ringed(guard) ==> {
                &&& after.cells@[node as int] == before.cells@[node as int]
                &&& after.home(node) == before.home(node)
            },
    ensures
        after.ring_wf(guard),
{
    assert forall|i: int| 0 <= i < after.rings@[guard].len() implies #[trigger] after.settled(
        guard,
        i,
    ) by {
        assert(before.settled(guard, i));
    }
    assert forall|i: int| 0 <= i < after.ring(guard).len() implies #[trigger] ringed(
        after.cells@,
        after.ring(guard),
        i,
    ) by {
        assert(ringed(before.cells@, before.ring(guard), i));
        if i > 0 {
            assert(before.settled(guard, i - 1));
        }
    }
}

/// A list whose nodes were left alone holds together still.
proof fn lemma_list_kept(list: List, before: Links, after: Links)
    requires
        list.wf(before),
        before.cells@.len() <= after.cells@.len(),
        forall|node: usize|
            node < before.cells@.len() && #[trigger] before.home(node) is Listed ==> {
                &&& after.cells@[node as int] == before.cells@[node as int]
                &&& after.home(node) is Listed
            },
        forall|node: usize|
            node < after.cells@.len() && #[trigger] after.home(node) is Listed ==> {
                &&& node < before.cells@.len()
                &&& before.home(node) is Listed
            },
    ensures
        list.wf(after),
{
    assert forall|i: int| 0 <= i < list.order@.len() implies #[trigger] list.settled(after, i) by {
        assert(list.settled(before, i));
    }
}

/// A list of nodes of a table.
pub struct List {
    pub head: Option<usize>,
    pub tail: Option<usize>,
    /// The nodes from front to back.
    pub order: Ghost<Seq<usize>>,
}

impl Default for List {
    fn default() -> (list: Self)
        ensures
            list.head is None,
            list.tail is None,
            list.order@ == Seq::<usize>::empty(),
    {
        List { head: None, tail: None, order: Ghost(Seq::empty()) }
    }
}

impl List {
    /// The `i`-th node of the list is at home there and knows its neighbours.
    pub open spec fn settled(&self, links: Links, i: int) -> bool {
        &&& chained(links.cells@, self.order@, i)
        &&& links.home(self.order@[i]) is Listed
    }

    /// The list knows its ends.
    pub open spec fn ends(&self) -> bool {
        &&& self.head == (if self.order@.len() > 0 {
            Some(self.order@[0])
        } else {
            None
        })
        &&& self.tail == (if self.order@.len() > 0 {
            Some(self.order@[self.order@.len() - 1])
        } else {
            None
        })
    }

    /// The list holds together, and is where all listed nodes of the table are.
    pub open spec fn wf(&self, links: Links) -> bool {
        &&& self.ends()
        &&& self.order@.no_duplicates()
        &&& forall|i: int| 0 <= i < self.order@.len() ==> #[trigger] self.settled(links, i)
        &&& forall|node: usize|
            node < links.cells@.len() && #[trigger] links.home(node) is Listed
                ==> self.order@.contains(node)
    }

    pub fn is_empty(&self) -> (empty: bool)
        requires
            self.ends(),
        ensures
            empty == (self.order@.len() == 0),
    {
        self.head.is_none()
    }

    /// Puts a node in front.
    pub fn push_front(&mut self, links: &mut Links, node: usize)
        requires
            old(links).wf(),
            old(self).wf(*old(links)),
            node < old(links).cells@.len(),
            old(links).home(node) is Out,
        ensures
            final(links).wf(),
            final(self).wf(*final(links)),
            final(self).order@ == seq![node] + old(self).order@,
            final(links).cells@.len() == old(links).cells@.len(),
            final(links).homes@ == old(links).homes@.update(node as int, Home::Listed),
            final(links).rings@ == old(links).rings@,
    {
        proof {
            if self.order@.len() > 0 {
                assert(self.settled(*links, 0));
            }
        }
        if let Some(head) = self.head {
            links.cells[head].prev = Some(node);
        }
        links.cells[node] = Link { next: self.head, prev: None };
        self.head = Some(node);
        if self.tail.is_none() {
            self.tail = self.head;
        }
        proof {
            let before = *old(links);
            let order = self.order@;
            self.order@ = seq![node] + order;
            links.homes@ = links.homes@.update(node as int, Home::Listed);
            assert forall|guard: usize| #[trigger]
                links.rings@.dom().contains(guard) implies links.ring_wf(guard) by {
                assert(before.ring_wf(guard));
                lemma_ring_kept(before, *links, guard);
            }
            assert forall|other: usize| other < links.cells@.len() implies #[trigger] links.home_wf(
                other,
            ) by {
                assert(before.home_wf(other));
            }
            assert forall|i: int| 0 <= i < self.order@.len() implies #[trigger] self.settled(
                *links,
                i,
            ) by {
                if i > 0 {
                    assert(old(self).settled(before, i - 1));
                }
            }
            assert forall|i: int, j: int|
                0 <= i < self.order@.len() && 0 <= j < self.order@.len() && i
                    != j implies self.order@[i] != self.order@[j] by {
                if i > 0 {
                    assert(old(self).settled(before, i - 1));
                }
                if j > 0 {
                    assert(old(self).settled(before, j - 1));
                }
            }
            assert forall|other: usize|
                other < links.cells@.len() && #[trigger] links.home(
                    other,
                ) is Listed implies self.order@.contains(other) by {
                if other == node {
                    assert(self.order@[0] == node);
                } else {
                    assert(before.home(other) is Listed);
                    let i = order.index_of(other);
                    assert(self.order@[i + 1] == other);
                }
            }
        }
    }

    /// Takes the node at the back.
    pub fn pop_back(&mut self, links: &mut Links) -> (popped: Option<usize>)
        requires
            old(links).wf(),
            old(self).wf(*old(links)),
        ensures
            final(links).wf(),
            final(self).wf(*final(links)),
            final(links).cells@.len() == old(links).cells@.len(),
            final(links).rings@ == old(links).rings@,
            match popped {
                None => {
                    &&& old(self).order@.len() == 0
                    &&& *final(self) == *old(self)
                    &&& *final(links) == *old(links)
                },
                Some(node) => {
                    &&& old(self).order@.len() > 0
                    &&& node == old(self).order@.last()
                    &&& node < old(links).cells@.len()
                    &&& final(self).order@ == old(self).order@.drop_last()
                    &&& final(links).homes@ == old(links).homes@.update(node as int, Home::Out)
                    &&& final(links).cells@[node as int] == old(links).cells@[node as int]
                },
            },
    {
        let node = match self.tail {
            None => return None,
            Some(node) => node,
        };
        proof {
            let last = self.order@.len() - 1;
            assert(self.settled(*links, last));
            if last > 0 {
                assert(self.settled(*links, last - 1));
            }
        }
        self.tail = links.cells[node].prev;
        match self.tail {
            None => self.head = None,
            Some(prev) => links.cells[prev].next = None,
        }
        proof {
            let before = *old(links);
            let order = self.order@;
            self.order@ = order.drop_last();
            links.homes@ = links.homes@.update(node as int, Home::Out);
            assert forall|guard: usize| #[trigger]
                links.rings@.dom().contains(guard) implies links.ring_wf(guard) by {
                assert(before.ring_wf(guard));
                lemma_ring_kept(before, *links, guard);
            }
            assert forall|other: usize| other < links.cells@.len() implies #[trigger] links.home_wf(
                other,
            ) by {
                assert(before.home_wf(other));
            }
            assert forall|i: int| 0 <= i < self.order@.len() implies #[trigger] self.settled(
                *links,
                i,
            ) by {
                assert(old(self).settled(before, i));
            }
            assert forall|other: usize|
                other < links.cells@.len() && #[trigger] links.home(
                    other,
                ) is Listed implies self.order@.contains(other) by {
                assert(before.home(other) is Listed);
                let i = order.index_of(other);
                assert(self.order@[i] == other);
            }
        }
        Some(node)
    }

    /// Takes a node out of the list or the ring that it is in. Tells whether it was in any.
    pub fn unlink(&mut self, links: &mut Links, node: usize) -> (linked: bool)
        requires
            old(links).wf(),
            old(self).wf(*old(links)),
            node < old(links).cells@.len(),
            !(old(links).home(node) is Guard),
        ensures
            final(links).wf(),
            final(self).wf(*final(links)),
            final(links).cells@.len() == old(links).cells@.len(),
            final(links).homes@ == old(links).homes@.update(node as int, Home::Out),
            linked == !(old(links).home(node) is Out),
            final(self).order@ == without(old(self).order@, node),
            final(links).rings@ == match old(links).home(node) {
                Home::Ringed(guard) => old(links).rings@.insert(
                    guard,
                    without(old(links).rings@[guard], node),
                ),
                _ => old(links).rings@,
            },
            if linked {
                final(links).cells@[node as int] == (Link { next: None, prev: None })
            } else {
                &&& final(links).cells@ == old(links).cells@
                &&& final(self).head == old(self).head
                &&& final(self).tail == old(self).tail
            },
    {
        proof {
            lemma_neighbours(*self, *links, node);
        }
        let link = links.cells[node];
        match link.next {
            Some(next) => links.cells[next].prev = link.prev,
            None => if self.tail == Some(node) {
                self.tail = link.prev;
            } else {
                proof {
                    assert(links.homes@ =~= old(links).homes@.update(node as int, Home::Out));
                }
                return false;
            },
        }
        match link.prev {
            Some(prev) => links.cells[prev].next = link.next,
            None => if self.head == Some(node) {
                self.head = link.next;
            } else {
                return false;
            },
        }
        links.cells[node] = Link::default();
        proof {
            let before = *old(links);
            links.homes@ = links.homes@.update(node as int, Home::Out);
            match before.home(node) {
                Home::Listed => {
                    self.order@ = without(self.order@, node);
                    lemma_unlisted(*old(self), before, *self, *links, node);
                },
                Home::Ringed(guard) => {
                    links.rings@ =
                    links.rings@.insert(guard, without(before.rings@[guard], node));
                    lemma_ring_left(before, *links, node, guard);
                },
                _ => {},
            }
        }
        true
    }
}

/// What a node that is in no ring guard's place knows of its neighbours.
proof fn lemma_neighbours(list: List, links: Links, node: usize)
    requires
        links.wf(),
        list.wf(links),
        node < links.cells@.len(),
        !(links.home(node) is Guard),
    ensures
        links.home_wf(node),
        links.home(node) is Out ==> !list.order@.contains(node) && list.tail != Some(node),
        links.home(node) is Ringed ==> !list.order@.contains(node),
        links.home(node) is Listed ==> {
            let i = list.order@.index_of(node);
            &&& 0 <= i < list.order@.len()
            &&& list.order@[i] == node
            &&& list.settled(links, i)
            &&& i > 0 ==> list.settled(links, i - 1)
            &&& i + 1 < list.order@.len() ==> list.settled(links, i + 1)
        },
        links.home(node) matches Home::Ringed(guard) ==> {
            let i = links.rings@[guard].index_of(node);
            &&& links.ring_wf(guard)
            &&& 0 <= i < links.rings@[guard].len()
            &&& links.rings@[guard][i] == node
            &&& ringed(links.cells@, links.ring(guard), i)
            &&& ringed(links.cells@, links.ring(guard), i + 1)
            &&& i + 2 < links.ring(guard).len() ==> ringed(links.cells@, links.ring(guard), i + 2)
            &&& ringed(links.cells@, links.ring(guard), 0)
        },
{
    assert(links.home_wf(node));
    if list.order@.contains(node) {
        let i = list.order@.index_of(node);
        assert(list.settled(links, i));
    }
    if list.order@.len() > 0 {
        assert(list.settled(links, list.order@.len() - 1));
    }
    match links.home(node) {
        Home::Listed => {
            let i = list.order@.index_of(node);
            if i > 0 {
                assert(list.settled(links, i - 1));
            }
            if i + 1 < list.order@.len() {
                assert(list.settled(links, i + 1));
            }
        },
        Home::Ringed(guard) => {
            let i = links.rings@[guard].index_of(node);
            assert(links.ring_wf(guard));
            assert(ringed(links.cells@, links.ring(guard), i + 1));
            assert(ringed(links.cells@, links.ring(guard), i));
            assert(ringed(links.cells@, links.ring(guard), 0));
        },
        _ => {},
    }
}

/// A listed node has left its list.
proof fn lemma_unlisted(before: List, links: Links, after: List, left: Links, node: usize)
    requires
        links.wf(),
        before.wf(links),
        node < links.cells@.len(),
        links.home(node) is Listed,
        left.rings@ == links.rings@,
        left.homes@ == links.homes@.update(node as int, Home::Out),
        after.order@ == without(before.order@, node),
        ({
            let link = links.cells@[node as int];
            let cells = match link.next {
                Some(next) => links.cells@.update(
                    next as int,
                    Link { prev: link.prev, ..links.cells@[next as int] },
                ),
                None => links.cells@,
            };
            let cells = match link.prev {
                Some(prev) => cells.update(
                    prev as int,
                    Link { next: link.next, ..cells[prev as int] },
                ),
                None => cells,
            };
            &&& left.cells@ == cells.update(node as int, Link { next: None, prev: None })
            &&& after.head == (if link.prev is None {
                link.next
            } else {
                before.head
            })
            &&& after.tail == (if link.next is None {
                link.prev
            } else {
                before.tail
            })
        }),
    ensures
        left.wf(),
        after.wf(left),
{
    lemma_neighbours(before, links, node);
    let at = before.order@.index_of(node);
    let order = before.order@;
    assert(after.order@ =~= order.remove(at));
    assert forall|guard: usize| #[trigger] left.rings@.dom().contains(guard) implies left.ring_wf(
        guard,
    ) by {
        assert(links.ring_wf(guard));
        lemma_ring_kept(links, left, guard);
    }
    assert forall|other: usize| other < left.cells@.len() implies #[trigger] left.home_wf(
        other,
    ) by {
        assert(links.home_wf(other));
    }
    assert forall|i: int| 0 <= i < after.order@.len() implies #[trigger] after.settled(left, i) by {
        let from = if i < at {
            i
        } else {
            i + 1
        };
        assert(before.settled(links, from));
        assert(after.order@[i] == order[from]);
        assert(order[from] != node);
        assert(from != at - 1 && at > 0 ==> order[from] != order[at - 1]);
        assert(from != at + 1 && at + 1 < order.len() ==> order[from] != order[at + 1]);
    }
    assert forall|other: usize|
        other < left.cells@.len() && #[trigger] left.home(
            other,
        ) is Listed implies after.order@.contains(other) by {
        assert(links.home(other) is Listed);
        let i = order.index_of(other);
        if i < at {
            assert(after.order@[i] == other);
        } else {
            assert(after.order@[i - 1] == other);
        }
    }
}

/// What became of the table when the node between `prev` and `next` left its ring.
pub open spec fn bridged(cells: Seq<Link>, prev: usize, node: usize, next: usize) -> Seq<Link> {
    let cells = cells.update(next as int, Link { prev: Some(prev), ..cells[next as int] });
    let cells = cells.update(prev as int, Link { next: Some(next), ..cells[prev as int] });
    cells.update(node as int, Link { next: None, prev: None })
}

/// A ring whose `at`-th node was bridged holds together without it.
proof fn lemma_bridged(cells: Seq<Link>, ring: Seq<usize>, at: int, left: Seq<Link>)
    requires
        ring.no_duplicates(),
        1 <= at < ring.len(),
        forall|i: int| 0 <= i < ring.len() ==> #[trigger] ringed(cells, ring, i),
        left == bridged(
            cells,
            cells[ring[at] as int].prev->Some_0,
            ring[at],
            cells[ring[at] as int].next->Some_0,
        ),
    ensures
        forall|i: int|
            0 <= i < ring.remove(at).len() ==> #[trigger] ringed(left, ring.remove(at), i),
{
    let next_at = if at + 1 < ring.len() {
        at + 1
    } else {
        0
    };
    let next = ring[next_at];
    let rest = ring.remove(at);
    assert(ringed(cells, ring, at - 1));
    assert(ringed(cells, ring, at));
    assert(ringed(cells, ring, next_at));
    assert forall|i: int| 0 <= i < rest.len() implies #[trigger] ringed(left, rest, i) by {
        let from = if i < at {
            i
        } else {
            i + 1
        };
        assert(ringed(cells, ring, from));
        assert(rest[i] == ring[from]);
        assert(ring[from] != ring[at]);
        assert(from != at - 1 ==> ring[from] != ring[at - 1]);
        assert(from != next_at ==> ring[from] != next);
    }
}

/// A node has left its ring.
proof fn lemma_ring_left(links: Links, left: Links, node: usize, guard: usize)
    requires
        links.wf(),
        node < links.cells@.len(),
        links.home(node) == Home::Ringed(guard),
        left.rings@ == links.rings@.insert(guard, without(links.rings@[guard], node)),
        left.homes@ == links.homes@.update(node as int, Home::Out),
        left.cells@ == bridged(
            links.cells@,
            links.cells@[node as int].prev->Some_0,
            node,
            links.cells@[node as int].next->Some_0,
        ),
    ensures
        left.wf(),
        forall|list: List| #[trigger] list.wf(links) ==> list.wf(left) && !list.order@.contains(node),
{
    assert(links.home_wf(node));
    assert(links.ring_wf(guard));
    let nodes = links.rings@[guard];
    let at = nodes.index_of(node);
    let ring = links.ring(guard);
    let prev = links.cells@[node as int].prev->Some_0;
    let next = links.cells@[node as int].next->Some_0;
    assert(ring[at + 1] == node);
    assert(ringed(links.cells@, ring, 0));
    assert(ringed(links.cells@, ring, at));
    assert(ringed(links.cells@, ring, at + 1));
    if at + 2 < ring.len() {
        assert(ringed(links.cells@, ring, at + 2));
    }
    assert forall|i: int, j: int|
        0 <= i < ring.len() && 0 <= j < ring.len() && i != j implies ring[i] != ring[j] by {
        if i > 0 {
            assert(links.settled(guard, i - 1));
        }
        if j > 0 {
            assert(links.settled(guard, j - 1));
        }
    }
    assert(prev == guard || links.home(prev) == Home::Ringed(guard)) by {
        if at > 0 {
            assert(links.settled(guard, at - 1));
        }
    }
    assert(next == guard || links.home(next) == Home::Ringed(guard)) by {
        if at + 2 < ring.len() {
            assert(links.settled(guard, at + 1));
        }
    }
    lemma_bridged(links.cells@, ring, at + 1, left.cells@);
    assert(left.ring(guard) =~= ring.remove(at + 1));
    assert forall|other: usize| #[trigger] left.rings@.dom().contains(other) implies left.ring_wf(
        other,
    ) by {
        assert(links.ring_wf(other));
        if other != guard {
            lemma_ring_kept(links, left, other);
        } else {
            assert forall|i: int| 0 <= i < left.rings@[guard].len() implies #[trigger] left.settled(
                guard,
                i,
            ) by {
                if i < at {
                    assert(links.settled(guard, i));
                } else {
                    assert(links.settled(guard, i + 1));
                }
            }
            assert(left.rings@[guard].no_duplicates());
            assert forall|i: int| 0 <= i < left.ring(guard).len() implies #[trigger] ringed(
                left.cells@,
                left.ring(guard),
                i,
            ) by {
                assert(ringed(left.cells@, ring.remove(at + 1), i));
            }
        }
    }
    assert forall|other: usize| other < left.cells@.len() implies #[trigger] left.home_wf(
        other,
    ) by {
        assert(links.home_wf(other));
        if other != node && links.home(other) == Home::Ringed(guard) {
            let i = nodes.index_of(other);
            if i < at {
                assert(left.rings@[guard][i] == other);
            } else {
                assert(left.rings@[guard][i - 1] == other);
            }
        }
    }
    assert forall|list: List| #[trigger] list.wf(links) implies list.wf(left)
        && !list.order@.contains(node) by {
        lemma_list_kept(list, links, left);
        if list.order@.contains(node) {
            assert(list.settled(links, list.order@.index_of(node)));
        }
    }
}

/// A list that was cut off from a [List] and is closed to a ring by its guard.
///
/// Its nodes can leave it as those of a [List] can, while nobody can join it.
pub struct GuardedList {
    empty: bool,
    guard: usize,
}

impl GuardedList {
    pub closed spec fn guard(&self) -> usize {
        self.guard
    }

    /// Whether the list was found empty.
    pub closed spec fn drained(&self) -> bool {
        self.empty
    }

    /// The nodes from front to back.
    pub open spec fn nodes(&self, links: Links) -> Seq<usize> {
        links.rings@[self.guard()]
    }

    pub open spec fn wf(&self, links: Links) -> bool {
        &&& links.rings@.dom().contains(self.guard())
        &&& self.drained() ==> self.nodes(links).len() == 0
    }

    /// Where the nodes are once those that were listed are in the ring of `guard`.
    pub open spec fn homes(links: Links, guard: usize) -> Seq<Home> {
        Seq::new(
            links.homes@.len(),
            |k: int|
                if k == guard {
                    Home::Guard
                } else if links.homes@[k] is Listed {
                    Home::Ringed(guard)
                } else {
                    links.homes@[k]
                },
        )
    }

    /// Cuts the nodes of `list` off. The table is left without listed nodes.
    pub fn new(list: List, links: &mut Links, guard: usize) -> (guarded: Self)
        requires
            old(links).wf(),
            list.wf(*old(links)),
            guard < old(links).cells@.len(),
            old(links).home(guard) is Out,
        ensures
            final(links).wf(),
            guarded.wf(*final(links)),
            guarded.guard() == guard,
            !guarded.drained(),
            final(links).cells@.len() == old(links).cells@.len(),
            final(links).rings@ == old(links).rings@.insert(guard, list.order@),
            final(links).homes@ == GuardedList::homes(*old(links), guard),
            forall|rest: List|
                rest.ends() && rest.order@.len() == 0 ==> #[trigger] rest.wf(*final(links)),
    {
        proof {
            if list.order@.len() > 0 {
                assert(list.settled(*links, 0));
                assert(list.settled(*links, list.order@.len() - 1));
            }
        }
        match (list.head, list.tail) {
            (Some(head), Some(tail)) => {
                links.cells[guard] = Link { next: Some(head), prev: Some(tail) };
                links.cells[head].prev = Some(guard);
                links.cells[tail].next = Some(guard);
            },
            _ => {
                links.cells[guard] = Link { next: Some(guard), prev: Some(guard) };
            },
        }
        proof {
            let before = *old(links);
            let nodes = list.order@;
            links.rings@ = links.rings@.insert(guard, nodes);
            links.homes@ = GuardedList::homes(before, guard);
            assert forall|other: usize| #[trigger]
                links.rings@.dom().contains(other) implies links.ring_wf(other) by {
                if other != guard {
                    assert(before.ring_wf(other));
                    lemma_ring_kept(before, *links, other);
                } else {
                    assert forall|i: int| 0 <= i < nodes.len() implies #[trigger] links.settled(
                        guard,
                        i,
                    ) by {
                        assert(list.settled(before, i));
                    }
                    assert forall|i: int| 0 <= i < links.ring(guard).len() implies #[trigger] ringed(
                        links.cells@,
                        links.ring(guard),
                        i,
                    ) by {
                        if i > 0 {
                            assert(list.settled(before, i - 1));
                        }
                    }
                }
            }
            assert forall|other: usize| other < links.cells@.len() implies #[trigger] links.home_wf(
                other,
            ) by {
                assert(before.home_wf(other));
            }
        }
        GuardedList { empty: false, guard }
    }

    /// The table once `node` was taken from the back of the list of `guard`.
    pub open spec fn taken(cells: Seq<Link>, guard: usize, node: usize) -> Seq<Link> {
        let cells = cells.update(
            guard as int,
            Link { prev: cells[node as int].prev, ..cells[guard as int] },
        );
        cells.update(node as int, Link { next: Some(guard), ..cells[node as int] })
    }

    /// The node before the guard is the one at the back, or the guard if there is none.
    pub proof fn lemma_back(&self, links: Links)
        requires
            links.wf(),
            self.wf(links),
        ensures
            self.guard() < links.cells@.len(),
            links.cells@[self.guard() as int].prev == Some(
                if self.nodes(links).len() > 0 {
                    self.nodes(links).last()
                } else {
                    self.guard()
                },
            ),
            self.nodes(links).len() > 0 ==> {
                &&& self.nodes(links).last() < links.cells@.len()
                &&& self.nodes(links).last() != self.guard()
            },
    {
        let guard = self.guard();
        assert(links.ring_wf(guard));
        assert(ringed(links.cells@, links.ring(guard), 0));
        if self.nodes(links).len() > 0 {
            assert(links.settled(guard, self.nodes(links).len() - 1));
        }
    }

    /// Takes the node at the back. The node before it leads to it still: the list is whole again once
    /// the node is [released](GuardedList::release).
    pub fn pop_back(&mut self, links: &mut Links) -> (popped: Option<usize>)
        requires
            old(self).guard() < old(links).cells@.len(),
            old(links).cells@[old(self).guard() as int].prev matches Some(last) && last < old(
                links,
            ).cells@.len(),
        ensures
            final(self).guard() == old(self).guard(),
            final(links).homes@ == old(links).homes@,
            final(links).rings@ == old(links).rings@,
            ({
                let guard = old(self).guard();
                let last = old(links).cells@[guard as int].prev->Some_0;
                if last == guard {
                    &&& popped is None
                    &&& final(self).drained()
                    &&& *final(links) == *old(links)
                } else {
                    &&& popped == Some(last)
                    &&& final(self).drained() == old(self).drained()
                    &&& final(links).cells@ == GuardedList::taken(old(links).cells@, guard, last)
                }
            }),
    {
        let guard = self.guard;
        let last = match links.cells[guard].prev {
            Some(last) => last,
            None => return None,
        };
        if last == guard {
            self.empty = true;
            return None;
        }
        links.cells[guard].prev = links.cells[last].prev;
        links.cells[last].next = Some(guard);
        Some(last)
    }

    /// Lets a node go that was taken from the back: it has no neighbours any more, and the node before
    /// it is the one at the back, so that whoever is left can leave the list on its own.
    pub(crate) fn release(&self, links: &mut Links, node: usize, Ghost(before): Ghost<Links>)
        requires
            before.wf(),
            self.wf(before),
            self.nodes(before).len() > 0,
            node == self.nodes(before).last(),
            old(links).homes@ == before.homes@,
            old(links).rings@ == before.rings@,
            old(links).cells@ == GuardedList::taken(before.cells@, self.guard(), node),
        ensures
            final(links).wf(),
            self.wf(*final(links)),
            final(links).cells@.len() == before.cells@.len(),
            final(links).cells@[node as int] == (Link { next: None, prev: None }),
            final(links).rings@ == before.rings@.insert(
                self.guard(),
                self.nodes(before).drop_last(),
            ),
            final(links).homes@ == before.homes@.update(node as int, Home::Out),
            forall|list: List| #[trigger] list.wf(before) ==> list.wf(*final(links)),
    {
        let guard = self.guard;
        let ghost nodes = self.nodes(before);
        let ghost ring = before.ring(guard);
        let ghost at = nodes.len() - 1;
        proof {
            assert(before.ring_wf(guard));
            assert(ringed(before.cells@, ring, at));
            assert(ringed(before.cells@, ring, at + 1));
            assert(before.settled(guard, at));
            assert(nodes.contains(node)) by {
                assert(nodes[at] == node);
            }
            assert(nodes.index_of(node) == at);
            if at > 0 {
                assert(before.settled(guard, at - 1));
                assert(nodes[at - 1] != nodes[at]);
            }
        }
        if let Some(prev) = links.cells[node].prev {
            links.cells[prev].next = Some(guard);
        }
        links.cells[node] = Link::default();
        proof {
            links.rings@ = links.rings@.insert(guard, nodes.drop_last());
            links.homes@ = links.homes@.update(node as int, Home::Out);
            assert(without(nodes, node) =~= nodes.drop_last());
            assert(links.cells@ =~= bridged(
                before.cells@,
                before.cells@[node as int].prev->Some_0,
                node,
                guard,
            ));
            lemma_ring_left(before, *links, node, guard);
        }
    }

    /// Whether the list was found empty by [GuardedList::pop_back].
    pub fn is_empty(&self) -> (empty: bool)
        ensures
            empty == self.drained(),
    {
        self.empty
    }

    /// Gives the guard of an empty list back.
    pub fn dissolve(self, links: &mut Links) -> (guard: usize)
        requires
            old(links).wf(),
            self.wf(*old(links)),
            self.nodes(*old(links)).len() == 0,
        ensures
            final(links).wf(),
            guard == self.guard(),
            guard < old(links).cells@.len(),
            final(links).cells@.len() == old(links).cells@.len(),
            final(links).rings@ == old(links).rings@.remove(guard),
            final(links).homes@ == old(links).homes@.update(guard as int, Home::Out),
            final(links).cells@[guard as int] == (Link { next: None, prev: None }),
            forall|list: List| #[trigger] list.wf(*old(links)) ==> list.wf(*final(links)),
    {
        let guard = self.guard;
        proof {
            assert(links.ring_wf(guard));
        }
        links.cells[guard] = Link::default();
        proof {
            let before = *old(links);
            links.rings@ = links.rings@.remove(guard);
            links.homes@ = links.homes@.update(guard as int, Home::Out);
            assert forall|other: usize| #[trigger]
                links.rings@.dom().contains(other) implies links.ring_wf(other) by {
                assert(before.ring_wf(other));
                lemma_ring_kept(before, *links, other);
            }
            assert forall|other: usize| other < links.cells@.len() implies #[trigger] links.home_wf(
                other,
            ) by {
                assert(before.home_wf(other));
            }
            assert forall|list: List| #[trigger] list.wf(before) implies list.wf(*links) by {
                lemma_list_kept(list, before, *links);
            }
        }
        guard
    }
}

} // verus!
