//! A doubly-linked list whose nodes live in slots of an arena owned by the list.
//!
//! Linking a node hands back a handle (the slot's index) that stays valid until the
//! node is unlinked. Insertion at the front and removal from any position take
//! constant time; a slot is reused once its node has been unlinked.

use vstd::prelude::*;

verus! {

/// The position in a sequence that position `j` had before position `k` was taken out.
spec fn past(j: int, k: int) -> int {
    if j < k {
        j
    } else {
        j + 1
    }
}

/// One element of a [`List`]: a payload and the links to its neighbours.
pub struct Node<T> {
    next: Option<usize>,
    prev: Option<usize>,
    pub data: T,
    inserted: bool,
}

/// The list: head and tail handles, the arena, and the slots free for reuse.
pub struct List<T> {
    head: Option<usize>,
    tail: Option<usize>,
    nodes: Vec<Node<T>>,
    free: Vec<usize>,
    len: usize,
    order: Ghost<Seq<usize>>,
}

impl<T> Node<T> {
    /// Whether the node is currently a member of a list.
    pub closed spec fn linked(&self) -> bool {
        self.inserted
    }

    /// What the node carries.
    pub closed spec fn payload(&self) -> T {
        self.data
    }

    /// The handle of the node behind this one, if any.
    pub closed spec fn next_handle(&self) -> Option<usize> {
        self.next
    }

    /// The handle of the node in front of this one, if any.
    pub closed spec fn prev_handle(&self) -> Option<usize> {
        self.prev
    }

    /// A fresh, unlinked node that carries `data`.
    pub fn new(data: T) -> (node: Self)
        ensures
            node.payload() == data,
            !node.linked(),
            node.next_handle() is None,
            node.prev_handle() is None,
    {
        Node { next: None, prev: None, data, inserted: false }
    }

    /// What the node carries.
    pub fn data(&self) -> (data: &T)
        ensures
            *data == self.payload(),
    {
        &self.data
    }

    /// Whether the node is linked into a list.
    pub fn is_init(&self) -> (b: bool)
        ensures
            b == self.linked(),
    {
        self.inserted
    }

    /// The node that follows `self` in `list`, or `None` at the back.
    pub fn next<'a>(&self, list: &'a List<T>) -> (r: Option<&'a Node<T>>)
        requires
            list.wf(),
            exists|k: int| 0 <= k < list.handles().len() && list.at(k) == *self,
        ensures
            forall|k: int|
                0 <= k < list.handles().len() && #[trigger] list.at(k) == *self ==> r == (if k + 1
                    < list.handles().len() {
                    Some(&list.at(k + 1))
                } else {
                    None
                }),
    {
        proof {
            let k = choose|k: int| 0 <= k < list.handles().len() && list.at(k) == *self;
            assert(list.well_linked(k));
            if k + 1 < list.handles().len() {
                assert(list.well_linked(k + 1));
            }
            assert forall|j: int| 0 <= j < list.handles().len() && #[trigger] list.at(j)
                == *self implies list.well_linked(j) by {}
        }
        match self.next {
            Some(h) => Some(&list.nodes[h]),
            None => None,
        }
    }

    /// Unlinks the node with handle `h` from `list`, wherever it stands.
    ///
    /// The nodes around it keep their order and their payloads; the slot becomes
    /// free for a later insertion.
    pub fn remove(h: usize, list: &mut List<T>)
        requires
            old(list).wf(),
            old(list).handles().contains(h),
        ensures
            final(list).wf(),
            final(list).handles() == old(list).handles().remove(old(list).handles().index_of(h)),
            !final(list).handles().contains(h),
            forall|g: usize|
                g != h && #[trigger] old(list).handles().contains(g)
                    ==> final(list).handles().contains(g),
            forall|g: usize| #[trigger]
                final(list).handles().contains(g) ==> final(list).slot(g).payload() == old(
                    list,
                ).slot(g).payload(),
            final(list)@ == old(list)@.remove(old(list).handles().index_of(h)),
    {
        let ghost o = list.order@;
        let ghost k = o.index_of(h);
        let ghost before = list.nodes@;
        proof {
            assert(0 <= k < o.len() && o[k] == h);
            assert(list.well_linked(k));
            if k + 1 < o.len() {
                assert(list.well_linked(k + 1));
            }
            if k > 0 {
                assert(list.well_linked(k - 1));
            }
        }
        let next = list.nodes[h].next;
        let prev = list.nodes[h].prev;
        match next {
            Some(n) => {
                list.nodes[n].prev = prev;
            },
            None => {
                list.tail = prev;
            },
        }
        match prev {
            Some(p) => {
                list.nodes[p].next = next;
            },
            None => {
                list.head = next;
            },
        }
        list.nodes[h].next = None;
        list.nodes[h].prev = None;
        list.nodes[h].inserted = false;
        list.free.push(h);
        list.len = list.len - 1;
        list.order = Ghost(o.remove(k));
        proof {
            let o2 = list.order@;
            let after = list.nodes@;
            assert(after.len() == before.len());
            assert forall|i: int| 0 <= i < after.len() implies (#[trigger] after[i]).data
                == before[i].data by {}
            assert forall|j: int| 0 <= j < o2.len() implies #[trigger] o2[j] == o[past(j, k)] by {}
            assert(o2.no_duplicates());
            assert forall|j: int| 0 <= j < o2.len() implies list.well_linked(j) by {
                let i = past(j, k);
                assert(old(list).well_linked(i));
                assert(o2[j] == o[i]);
                assert(o[i] != h);
                if j > 0 {
                    assert(o2[j - 1] == o[past(j - 1, k)]);
                }
                if j + 1 < o2.len() {
                    assert(o2[j + 1] == o[past(j + 1, k)]);
                }
            }
            assert forall|g: usize| o2.contains(g) implies g != h && list.slot(g).payload() == old(
                list,
            ).slot(g).payload() by {
                let j = choose|j: int| 0 <= j < o2.len() && o2[j] == g;
                assert(o2[j] == o[past(j, k)]);
                assert(old(list).well_linked(past(j, k)));
                assert(after[g as int].data == before[g as int].data);
            }
            assert forall|g: usize| g != h && #[trigger] o.contains(g) implies o2.contains(g) by {
                let j = choose|j: int| 0 <= j < o.len() && o[j] == g;
                let j2 = if j < k {
                    j
                } else {
                    j - 1
                };
                assert(o2[j2] == g);
            }
            assert forall|g: usize| g < after.len() && (#[trigger] after[g as int]).inserted implies o2.contains(
                g,
            ) by {
                assert(before[g as int].inserted);
                assert(o.contains(g));
            }
            assert forall|a: int, b: int|
                0 <= a < list.free@.len() && 0 <= b < list.free@.len() && a != b implies list.free@[a]
                != list.free@[b] by {
                let f = old(list).free@;
                if a < f.len() {
                    assert(f[a] < before.len() && !before[f[a] as int].inserted);
                }
                if b < f.len() {
                    assert(f[b] < before.len() && !before[f[b] as int].inserted);
                }
            }
            assert(list.wf());
            assert forall|j: int| 0 <= j < o2.len() implies #[trigger] list@[j] == old(list)@.remove(
                k,
            )[j] by {
                assert(o2[j] == o[past(j, k)]);
                assert(o2.contains(o2[j]));
            }
            assert(list@ =~= old(list)@.remove(k));
        }
    }
}

impl<T> View for List<T> {
    type V = Seq<T>;

    /// The payloads of the linked nodes, front to back.
    open spec fn view(&self) -> Seq<T> {
        Seq::new(self.handles().len(), |k: int| self.at(k).payload())
    }
}

impl<T> List<T> {
    /// The handles of the linked nodes, front to back.
    pub closed spec fn handles(&self) -> Seq<usize> {
        self.order@
    }

    /// The node that the slot with handle `h` holds.
    pub closed spec fn slot(&self, h: usize) -> Node<T> {
        self.nodes@[h as int]
    }

    /// The node at position `k`, counted from the front.
    pub open spec fn at(&self, k: int) -> Node<T> {
        self.slot(self.handles()[k])
    }

    /// The node at position `k` is marked as linked and points at its neighbours.
    pub closed spec fn well_linked(&self, k: int) -> bool {
        let o = self.order@;
        let node = self.nodes@[o[k] as int];
        &&& o[k] < self.nodes@.len()
        &&& node.inserted
        &&& node.prev == (if k == 0 {
            None
        } else {
            Some(o[k - 1])
        })
        &&& node.next == (if k == o.len() - 1 {
            None
        } else {
            Some(o[k + 1])
        })
    }

    /// The list's invariant: the links spell out `handles()` in both directions, a
    /// slot is marked as linked exactly when its handle is in `handles()`, and every
    /// other slot is free for reuse.
    pub closed spec fn wf(&self) -> bool {
        let o = self.order@;
        let n = self.nodes@;
        let f = self.free@;
        &&& o.no_duplicates()
        &&& forall|k: int| 0 <= k < o.len() ==> #[trigger] self.well_linked(k)
        &&& self.head == (if o.len() == 0 {
            None
        } else {
            Some(o[0])
        })
        &&& self.tail == (if o.len() == 0 {
            None
        } else {
            Some(o[o.len() - 1])
        })
        &&& forall|g: usize| g < n.len() && (#[trigger] n[g as int]).inserted ==> o.contains(g)
        &&& forall|a: int, b: int|
            0 <= a < f.len() && 0 <= b < f.len() && a != b ==> f[a] != f[b]
        &&& forall|a: int| 0 <= a < f.len() ==> f[a] < n.len() && !(#[trigger] n[f[a] as int]).inserted
        &&& o.len() + f.len() == n.len()
        &&& self.len == o.len()
    }

    /// No two linked nodes share a handle.
    pub proof fn lemma_handles_distinct(&self)
        requires
            self.wf(),
        ensures
            self.handles().no_duplicates(),
    {
    }

    /// An empty list.
    pub fn new() -> (list: Self)
        ensures
            list.wf(),
            list.handles() == Seq::<usize>::empty(),
            list@ == Seq::<T>::empty(),
    {
        let list = List {
            head: None,
            tail: None,
            nodes: Vec::new(),
            free: Vec::new(),
            len: 0,
            order: Ghost(Seq::empty()),
        };
        proof {
            assert(list@ =~= Seq::<T>::empty());
        }
        list
    }

    /// The number of linked nodes.
    pub fn len(&self) -> (n: usize)
        requires
            self.wf(),
        ensures
            n == self.handles().len(),
            n == self@.len(),
    {
        self.len
    }

    /// Whether `h` is the handle of a node that is linked at present.
    pub fn is_linked(&self, h: usize) -> (b: bool)
        requires
            self.wf(),
        ensures
            b == self.handles().contains(h),
    {
        proof {
            if self.handles().contains(h) {
                let k = choose|k: int| 0 <= k < self.order@.len() && self.order@[k] == h;
                assert(self.well_linked(k));
            }
        }
        h < self.nodes.len() && self.nodes[h].inserted
    }

    /// The linked node with handle `h`.
    pub fn get(&self, h: usize) -> (node: &Node<T>)
        requires
            self.wf(),
            self.handles().contains(h),
        ensures
            *node == self.slot(h),
            node.linked(),
    {
        proof {
            let k = choose|k: int| 0 <= k < self.order@.len() && self.order@[k] == h;
            assert(self.well_linked(k));
        }
        &self.nodes[h]
    }

    /// Replaces the payload of the linked node with handle `h`; the order of the
    /// list and every other payload stay as they are.
    pub fn set_data(&mut self, h: usize, data: T)
        requires
            old(self).wf(),
            old(self).handles().contains(h),
        ensures
            final(self).wf(),
            final(self).handles() == old(self).handles(),
            final(self).slot(h).payload() == data,
            forall|g: usize|
                g != h && #[trigger] old(self).handles().contains(g) ==> final(self).slot(g)
                    == old(self).slot(g),
            final(self)@ == old(self)@.update(old(self).handles().index_of(h), data),
    {
        let ghost o = self.order@;
        let ghost k = o.index_of(h);
        let ghost before = self.nodes@;
        proof {
            assert(0 <= k < o.len() && o[k] == h);
            assert(self.well_linked(k));
        }
        self.nodes[h].data = data;
        proof {
            let after = self.nodes@;
            assert forall|j: int| 0 <= j < o.len() implies self.well_linked(j) by {
                assert(old(self).well_linked(j));
            }
            assert forall|g: usize| g < after.len() && (#[trigger] after[g as int]).inserted implies o.contains(
                g,
            ) by {
                assert(before[g as int].inserted);
            }
            assert forall|a: int| 0 <= a < self.free@.len() implies self.free@[a] < after.len() && !(
            #[trigger] after[self.free@[a] as int]).inserted by {
                assert(!before[old(self).free@[a] as int].inserted);
            }
            assert(self.wf());
            assert forall|g: usize| g != h && #[trigger] o.contains(g) implies self.slot(g) == old(
                self,
            ).slot(g) by {
                let j = choose|j: int| 0 <= j < o.len() && o[j] == g;
                assert(old(self).well_linked(j));
            }
            assert forall|j: int| 0 <= j < o.len() implies #[trigger] self@[j] == old(self)@.update(
                k,
                data,
            )[j] by {
                assert(old(self).well_linked(j));
                assert(o.contains(o[j]));
            }
            assert(self@ =~= old(self)@.update(k, data));
        }
    }

    /// Links `node` as the new front of the list and returns its handle.
    ///
    /// The handle names the node until it is removed; no node that is linked at the
    /// time of the call has the same one.
    pub fn push_front(&mut self, node: Node<T>) -> (h: usize)
        requires
            old(self).wf(),
        ensures
            final(self).wf(),
            !old(self).handles().contains(h),
            final(self).handles() == seq![h] + old(self).handles(),
            final(self).handles().contains(h),
            forall|g: usize| #[trigger]
                old(self).handles().contains(g) ==> final(self).handles().contains(g),
            final(self).slot(h).payload() == node.payload(),
            forall|g: usize| #[trigger]
                old(self).handles().contains(g) ==> final(self).slot(g).payload() == old(
                    self,
                ).slot(g).payload(),
            final(self)@ == seq![node.payload()] + old(self)@,
    {
        let ghost o = self.order@;
        let ghost before = self.nodes@;
        let ghost payload = node.data;
        let mut node = node;
        node.next = self.head;
        node.prev = None;
        node.inserted = true;
        let popped = self.free.pop();
        let h: usize = match popped {
            Some(f) => {
                proof {
                    let last = old(self).free@.len() - 1;
                    assert(old(self).free@[last] == f);
                    assert(f < before.len() && !before[f as int].inserted);
                }
                self.nodes[f] = node;
                f
            },
            None => {
                self.nodes.push(node);
                self.nodes.len() - 1
            },
        };
        proof {
            assert(o.len() < self.nodes.len());
            if o.contains(h) {
                let j = choose|j: int| 0 <= j < o.len() && o[j] == h;
                assert(old(self).well_linked(j));
            }
            if o.len() > 0 {
                assert(old(self).well_linked(0));
            }
        }
        match self.head {
            Some(front) => {
                self.nodes[front].prev = Some(h);
            },
            None => {},
        }
        self.head = Some(h);
        if self.tail.is_none() {
            self.tail = Some(h);
        }
        self.len = self.len + 1;
        self.order = Ghost(seq![h] + o);
        proof {
            let o2 = self.order@;
            let after = self.nodes@;
            assert forall|j: int| 0 <= j < o2.len() implies #[trigger] o2[j] == (if j == 0 {
                h
            } else {
                o[j - 1]
            }) by {}
            assert(o2.no_duplicates());
            assert forall|j: int| 0 <= j < o2.len() implies self.well_linked(j) by {
                if j > 0 {
                    assert(old(self).well_linked(j - 1));
                    assert(o2[j] == o[j - 1]);
                    assert(o[j - 1] != h);
                    if j > 1 {
                        assert(o2[j - 1] == o[j - 2]);
                    }
                    if j + 1 < o2.len() {
                        assert(o2[j + 1] == o[j]);
                    }
                } else {
                    if o2.len() > 1 {
                        assert(o2[1] == o[0]);
                    }
                }
            }
            assert forall|g: usize| g < after.len() && (#[trigger] after[g as int]).inserted implies o2.contains(
                g,
            ) by {
                if g == h {
                    assert(o2[0] == h);
                } else {
                    assert(before[g as int].inserted);
                    let j = choose|j: int| 0 <= j < o.len() && o[j] == g;
                    assert(o2[j + 1] == g);
                }
            }
            assert forall|a: int| 0 <= a < self.free@.len() implies self.free@[a] < after.len() && !(
            #[trigger] after[self.free@[a] as int]).inserted by {
                let f = old(self).free@;
                assert(self.free@[a] == f[a]);
                assert(f[a] < before.len() && !before[f[a] as int].inserted);
                assert(f[a] != h);
                if o.len() > 0 {
                    assert(f[a] != o[0]);
                }
            }
            assert(self.wf());
            assert(o2[0] == h);
            assert forall|g: usize| #[trigger] o.contains(g) implies o2.contains(g) && self.slot(
                g,
            ).payload() == old(self).slot(g).payload() by {
                let j = choose|j: int| 0 <= j < o.len() && o[j] == g;
                assert(old(self).well_linked(j));
                assert(o2[j + 1] == g);
            }
            assert forall|j: int| 0 <= j < o2.len() implies #[trigger] self@[j] == (seq![payload] + old(
                self,
            )@)[j] by {
                if j > 0 {
                    assert(o2[j] == o[j - 1]);
                    assert(o.contains(o[j - 1]));
                }
            }
            assert(self@ =~= seq![payload] + old(self)@);
        }
        h
    }

    /// The node at the front, or `None` if the list is empty.
    pub fn peek_front(&self) -> (r: Option<&Node<T>>)
        requires
            self.wf(),
        ensures
            r == (if self.handles().len() == 0 {
                None
            } else {
                Some(&self.at(0))
            }),
    {
        proof {
            if self.order@.len() > 0 {
                assert(self.well_linked(0));
            }
        }
        match self.head {
            Some(h) => Some(&self.nodes[h]),
            None => None,
        }
    }
}

} // verus!
