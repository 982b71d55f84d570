//! The queue of submitted tasks that no executor has been given yet.

use crate::ipc::{TaskDetails, TaskModel};
use priority_queue::PriorityQueue;
use std::hash::Hash;
use vstd::prelude::*;
use vstd::relations::*;
use vstd::set_lib::*;

verus! {

/// The priority queue of the `priority_queue` crate.
#[verifier::external_type_specification]
#[verifier::external_body]
#[verifier::reject_recursive_types(I)]
#[verifier::reject_recursive_types(P)]
#[verifier::reject_recursive_types(H)]
pub struct ExPriorityQueue<I, P, H>(PriorityQueue<I, P, H>) where I: Hash + Eq, P: Ord;

/// The items of a priority queue, each with its priority.
pub uninterp spec fn prioritized(heap: PriorityQueue<usize, (u128, usize)>) -> Map<
    usize,
    (u128, usize),
>;

/// True if the first priority is not greater than the second, as pairs are ordered: by their first
/// parts, and by their second parts if those are the same.
pub open spec fn not_greater(a: (u128, usize), b: (u128, usize)) -> bool {
    a.0 < b.0 || (a.0 == b.0 && a.1 <= b.1)
}

/// `PriorityQueue::new`: the queue holds nothing.
#[verifier::external_body]
fn heap_new() -> (heap: PriorityQueue<usize, (u128, usize)>)
    ensures
        prioritized(heap).dom() == Set::<usize>::empty(),
{
    PriorityQueue::new()
}

/// `PriorityQueue::len`: the number of items in the queue.
#[verifier::external_body]
fn heap_len(heap: &PriorityQueue<usize, (u128, usize)>) -> (count: usize)
    ensures
        count == prioritized(*heap).dom().len(),
{
    heap.len()
}

/// `PriorityQueue::push`: the item is in the queue with the given priority, in place of the one
/// it had if it was there before. The previous priority, which `push` returns, is not used.
#[verifier::external_body]
fn heap_push(
    heap: &mut PriorityQueue<usize, (u128, usize)>,
    item: usize,
    priority: (u128, usize),
)
    ensures
        prioritized(*final(heap)) == prioritized(*old(heap)).insert(item, priority),
{
    heap.push(item, priority);
}

/// `PriorityQueue::pop`: one of the items with the greatest priority leaves the queue, or
/// nothing happens if the queue is empty. Which of several such items leaves is not said.
#[verifier::external_body]
fn heap_pop(heap: &mut PriorityQueue<usize, (u128, usize)>) -> (top: Option<
    (usize, (u128, usize)),
>)
    ensures
        match top {
            Some((item, priority)) => {
                &&& prioritized(*old(heap)).contains_key(item)
                &&& prioritized(*old(heap))[item] == priority
                &&& forall|other: usize| #[trigger]
                    prioritized(*old(heap)).contains_key(other) ==> not_greater(
                        prioritized(*old(heap))[other],
                        priority,
                    )
                &&& prioritized(*final(heap)) == prioritized(*old(heap)).remove(item)
            },
            None => {
                &&& prioritized(*old(heap)).dom() == Set::<usize>::empty()
                &&& *final(heap) == *old(heap)
            },
        },
{
    heap.pop()
}

/// A submitted task: the client that waits for it, and what is to be done.
pub type QueuedTask = (nat, TaskModel);

/// The rank of a submitted task: its priority and its number in the order of submission.
pub type Rank = (u128, nat);

/// True if a task of the first rank comes before one of the second: it has the greater priority,
/// or the same one and was submitted before.
pub open spec fn comes_before(a: Rank, b: Rank) -> bool {
    a.0 > b.0 || (a.0 == b.0 && a.1 < b.1)
}

/// The rank that a priority of the heap stands for.
spec fn rank_of(priority: (u128, usize)) -> Rank {
    (priority.0, (usize::MAX - priority.1) as nat)
}

struct Waiting {
    client: usize,
    details: TaskDetails,
}

impl Waiting {
    spec fn key(self) -> QueuedTask {
        (self.client as nat, self.details@)
    }
}

/// Submitted tasks, each with its rank. The same task of the same client is held once.
pub struct TaskQueue {
    heap: PriorityQueue<usize, (u128, usize)>,
    slots: Vec<Option<Waiting>>,
}

impl View for TaskQueue {
    type V = Map<QueuedTask, Rank>;

    closed spec fn view(&self) -> Map<QueuedTask, Rank> {
        Map::new(
            |k: QueuedTask| self.holds(k),
            |k: QueuedTask| rank_of(prioritized(self.heap)[self.slot(k)]),
        )
    }
}

impl TaskQueue {
    spec fn at(&self, i: usize, k: QueuedTask) -> bool {
        i < self.slots@.len() && self.slots@[i as int] is Some && self.slots@[i as int]->0.key() == k
    }

    spec fn holds(&self, k: QueuedTask) -> bool {
        exists|i: usize| self.at(i, k)
    }

    spec fn slot(&self, k: QueuedTask) -> usize {
        choose|i: usize| self.at(i, k)
    }

    /// Every item of the heap stands for one occupied slot, and no task is held twice.
    pub closed spec fn wf(&self) -> bool {
        &&& prioritized(self.heap).dom().finite()
        &&& forall|i: usize| #[trigger]
            prioritized(self.heap).contains_key(i) <==> i < self.slots@.len()
                && self.slots@[i as int] is Some
        &&& forall|i: usize, j: usize, k: QueuedTask| #[trigger]
            self.at(i, k) && #[trigger] self.at(j, k) ==> i == j
    }

    /// A queue without tasks.
    pub fn new() -> (queue: TaskQueue)
        ensures
            queue.wf(),
            queue@ == Map::<QueuedTask, Rank>::empty(),
    {
        let queue = TaskQueue { heap: heap_new(), slots: Vec::new() };
        assert(queue@ =~= Map::<QueuedTask, Rank>::empty());
        queue
    }

    /// The number of tasks.
    pub fn len(&self) -> (count: usize)
        requires
            self.wf(),
        ensures
            self@.dom().finite(),
            count == self@.len(),
    {
        proof {
            self.lemma_len();
        }
        heap_len(&self.heap)
    }

    proof fn lemma_len(&self)
        requires
            self.wf(),
        ensures
            self@.dom().finite(),
            self@.len() == prioritized(self.heap).dom().len(),
    {
        let items = prioritized(self.heap).dom();
        let f = |i: usize| self.slots@[i as int]->0.key();
        assert(injective_on(f, items)) by {
            assert forall|a: usize, b: usize| items.contains(a) && items.contains(b) && f(a) == f(
                b,
            ) implies a == b by {
                assert(self.at(a, f(a)));
                assert(self.at(b, f(a)));
            }
        }
        assert(items.map(f) =~= self@.dom()) by {
            assert forall|k: QueuedTask| items.map(f).contains(k) <==> self@.dom().contains(k) by {
                if items.map(f).contains(k) {
                    let i = choose|i: usize| items.contains(i) && f(i) == k;
                    assert(self.at(i, k));
                }
                if self@.dom().contains(k) {
                    let i = self.slot(k);
                    assert(self.at(i, k));
                    assert(items.contains(i));
                }
            }
        }
        lemma_map_size(items, self@.dom(), f);
    }

    fn find(&self, client: usize, details: &TaskDetails) -> (found: Option<usize>)
        ensures
            match found {
                Some(i) => self.at(i, (client as nat, details@)),
                None => !self.holds((client as nat, details@)),
            },
    {
        let ghost k = (client as nat, details@);
        let mut i: usize = 0;
        while i < self.slots.len()
            invariant
                k == (client as nat, details@),
                i <= self.slots@.len(),
                forall|j: usize| j < i ==> !self.at(j, k),
            decreases self.slots@.len() - i,
        {
            if let Some(waiting) = &self.slots[i] {
                if waiting.client == client && waiting.details.same_task(details) {
                    return Some(i);
                }
            }
            i = i + 1;
        }
        None
    }

    /// The first slot that is not occupied, if there is one.
    fn free_slot(&self) -> (free: Option<usize>)
        ensures
            match free {
                Some(i) => {
                    &&& i < self.slots@.len()
                    &&& self.slots@[i as int] is None
                    &&& forall|k: int| 0 <= k < i ==> #[trigger] self.slots@[k] is Some
                },
                None => forall|k: int|
                    0 <= k < self.slots@.len() ==> #[trigger] self.slots@[k] is Some,
            },
    {
        let mut i: usize = 0;
        while i < self.slots.len()
            invariant
                i <= self.slots@.len(),
                forall|k: int| 0 <= k < i ==> #[trigger] self.slots@[k] is Some,
            decreases self.slots@.len() - i,
        {
            if self.slots[i].is_none() {
                return Some(i);
            }
            i = i + 1;
        }
        None
    }

    /// Queues a task with its priority and its number in the order of submission. If the client
    /// has queued the same task already, only these change.
    pub fn push(&mut self, client: usize, details: TaskDetails, priority: u128, number: usize)
        requires
            old(self).wf(),
        ensures
            final(self).wf(),
            final(self)@ == old(self)@.insert(
                (client as nat, details@),
                (priority, number as nat),
            ),
    {
        let ghost k = (client as nat, details@);
        let priority: (u128, usize) = (priority, usize::MAX - number);
        match self.find(client, &details) {
            Some(i) => {
                heap_push(&mut self.heap, i, priority);
                assert(self.at(i, k));
                assert(forall|j: usize, q: QueuedTask| self.at(j, q) == old(self).at(j, q));
            },
            None => {
                let waiting = Waiting { client, details };
                let i: usize = match self.free_slot() {
                    Some(i) => {
                        self.slots.set(i, Some(waiting));
                        i
                    },
                    None => {
                        self.slots.push(Some(waiting));
                        self.slots.len() - 1
                    },
                };
                heap_push(&mut self.heap, i, priority);
                assert(self.at(i, k));
                assert(forall|j: usize, q: QueuedTask|
                    j != i ==> self.at(j, q) == old(self).at(j, q));
            },
        }
        assert(self@ =~= old(self)@.insert(k, rank_of(priority)));
    }

    /// Takes out a task that no other comes before: the client and the task.
    pub fn pop(&mut self) -> (top: Option<(usize, TaskDetails)>)
        requires
            old(self).wf(),
        ensures
            final(self).wf(),
            match top {
                Some((client, details)) => {
                    let k = (client as nat, details@);
                    &&& old(self)@.contains_key(k)
                    &&& forall|other: QueuedTask| #[trigger]
                        old(self)@.contains_key(other) ==> !comes_before(
                            old(self)@[other],
                            old(self)@[k],
                        )
                    &&& final(self)@ == old(self)@.remove(k)
                },
                None => {
                    &&& old(self)@ == Map::<QueuedTask, Rank>::empty()
                    &&& final(self)@ == old(self)@
                },
            },
    {
        match heap_pop(&mut self.heap) {
            Some((i, _)) => {
                let mut taken: Option<Waiting> = None;
                std::mem::swap(&mut taken, &mut self.slots[i]);
                match taken {
                    Some(waiting) => {
                        let ghost k = waiting.key();
                        assert(old(self).at(i, k));
                        assert(forall|j: usize, q: QueuedTask|
                            self.at(j, q) == (j != i && old(self).at(j, q)));
                        assert(self@ =~= old(self)@.remove(k));
                        assert forall|other: QueuedTask| #[trigger]
                            old(self)@.contains_key(other) implies !comes_before(
                            old(self)@[other],
                            old(self)@[k],
                        ) by {
                            let j = old(self).slot(other);
                            assert(old(self).at(j, other));
                            assert(prioritized(old(self).heap).contains_key(j));
                        }
                        Some((waiting.client, waiting.details))
                    },
                    None => None,
                }
            },
            None => {
                assert forall|k: QueuedTask| !old(self).holds(k) by {
                    if old(self).holds(k) {
                        let i = old(self).slot(k);
                        assert(old(self).at(i, k));
                        assert(prioritized(old(self).heap).contains_key(i));
                    }
                }
                assert(old(self)@ =~= Map::<QueuedTask, Rank>::empty());
                None
            },
        }
    }
}

/// Law: the order of tasks is strict and total, the task with the greater priority comes first,
/// and of two with the same one that which was submitted first.
pub proof fn law_order_of_tasks(a: Rank, b: Rank, c: Rank)
    ensures
        a.0 > b.0 ==> comes_before(a, b),
        a.0 == b.0 && a.1 < b.1 ==> comes_before(a, b),
        !comes_before(a, a),
        comes_before(a, b) ==> !comes_before(b, a),
        comes_before(a, b) && comes_before(b, c) ==> comes_before(a, c),
        a != b ==> comes_before(a, b) || comes_before(b, a),
{
}

} // verus!
