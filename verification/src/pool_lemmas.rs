//! Why the task pool keeps its books: the lemmas behind the numbers it hands
//! out and the messages it owes.

use vstd::prelude::*;
use crate::pool::{
    first_free, ids_of, join, messages, occupy, owed_of, settle, start, start_all, taken,
    unstarted_of, Action, Outcome, Pending, PoolView,
};
use crate::task::{leaves_of, Task};

verus! {

/// `first_free` is the one number below which all are taken and which is
/// itself free, or past the end.
pub proof fn lemma_first_free(used: Seq<bool>, i: int)
    requires
        0 <= i <= used.len(),
        forall|j: int| 0 <= j < i ==> used[j],
        i == used.len() || !used[i],
    ensures
        first_free(used) == i,
    decreases i,
{
    if i > 0 {
        let rest = used.drop_first();
        assert forall|j: int| 0 <= j < i - 1 implies rest[j] by {
            assert(rest[j] == used[j + 1]);
        }
        lemma_first_free(rest, i - 1);
    }
}

/// The messages of two lists of actions, one after the other, are those of
/// both.
pub proof fn lemma_messages_add<M, W>(a: Seq<Action<M, W>>, b: Seq<Action<M, W>>)
    ensures
        messages(a + b) == messages(a) + messages(b),
    decreases b.len(),
{
    if b.len() == 0 {
        assert(a + b =~= a);
    } else {
        lemma_messages_add(a, b.drop_last());
        assert((a + b).drop_last() =~= a + b.drop_last());
        assert((a + b).last() == b.last());
    }
}

/// Where `first_free` lies.
pub proof fn lemma_first_free_bounds(used: Seq<bool>)
    ensures
        0 <= first_free(used) <= used.len(),
        !taken(used, first_free(used)),
        forall|j: int| 0 <= j < first_free(used) ==> taken(used, j),
    decreases used.len(),
{
    if used.len() == 0 || !used.first() {
    } else {
        let rest = used.drop_first();
        lemma_first_free_bounds(rest);
        assert forall|j: int| 0 <= j < first_free(used) implies taken(used, j) by {
            if j > 0 {
                assert(taken(rest, j - 1));
                assert(rest[j - 1] == used[j]);
            }
        }
        if first_free(rest) < rest.len() {
            assert(rest[first_free(rest)] == used[first_free(rest) + 1]);
        }
    }
}

/// The jobs that run in two bodies of work side by side are those of both.
pub proof fn lemma_join<M, W>(a: Option<Pending<M, W>>, b: Option<Pending<M, W>>)
    ensures
        ids_of(join(a, b)) =~= ids_of(a) + ids_of(b),
        owed_of(join(a, b)) == owed_of(a) + owed_of(b),
{
}

/// Starting tasks takes numbers and gives none back, owes one message for
/// each job, and passes no message on.
pub proof fn lemma_start_all_owes<M, W>(tasks: Seq<Task<M, W>>, used: Seq<bool>)
    ensures
        start_all(tasks, used).used.len() >= used.len(),
        owed_of(start_all(tasks, used).pending) == leaves_of(tasks),
        messages(start_all(tasks, used).actions) == 0,
    decreases tasks, 0nat,
{
    if tasks.len() > 0 {
        let front = start_all(tasks.drop_last(), used);
        let last = start(tasks.last(), front.used);
        lemma_start_all_owes(tasks.drop_last(), used);
        lemma_start_owes(tasks.last(), front.used);
        lemma_join(front.pending, last.pending);
        lemma_messages_add(front.actions, last.actions);
    }
}

/// Starting a task takes numbers and gives none back, owes one message for
/// each job of the task, and passes no message on.
pub proof fn lemma_start_owes<M, W>(task: Task<M, W>, used: Seq<bool>)
    ensures
        start(task, used).used.len() >= used.len(),
        owed_of(start(task, used).pending) == task.leaves(),
        messages(start(task, used).actions) == 0,
    decreases task, 1nat,
{
    let o = start(task, used);
    match task {
        Task::Special(special) => {
            assert(o.actions.len() <= 1);
            if o.actions.len() == 1 {
                assert(o.actions.drop_last().len() == 0);
                assert(messages(o.actions.drop_last()) == 0);
            }
        },
        Task::Simple(job) => {
            assert(o.actions.drop_last().len() == 0);
            assert(messages(o.actions.drop_last()) == 0);
        },
        Task::Batch(tasks) => {
            lemma_start_all_owes(tasks@, used);
        },
        Task::Then(first, second) => {
            let head = start(*first, used);
            lemma_start_owes(*first, used);
            match head.pending {
                Some(_) => {},
                None => {
                    lemma_start_owes(*second, head.used);
                    lemma_messages_add(head.actions, start(*second, head.used).actions);
                },
            }
        },
    }
}

/// How the numbers taken after a step relate to those taken before it and to
/// the jobs that run after it: a number is taken afterwards if and only if it
/// was taken before or belongs to one of `ids`, the numbers in `ids` were
/// free before, and none occurs twice.
pub open spec fn fresh(before: Seq<bool>, after: Seq<bool>, ids: Seq<usize>) -> bool {
    &&& before.len() <= after.len()
    &&& ids.no_duplicates()
    &&& forall|k: usize| #[trigger]
        taken(after, k as int) <==> (taken(before, k as int) || ids.contains(k))
    &&& forall|k: usize| #[trigger] ids.contains(k) ==> !taken(before, k as int)
}

/// Two steps in a row, each of which takes fresh numbers, take fresh numbers.
pub proof fn lemma_fresh_chain(
    before: Seq<bool>,
    middle: Seq<bool>,
    after: Seq<bool>,
    a: Seq<usize>,
    b: Seq<usize>,
)
    requires
        fresh(before, middle, a),
        fresh(middle, after, b),
    ensures
        fresh(before, after, a + b),
{
    let ids = a + b;
    assert forall|k: usize| #[trigger] ids.contains(k) <==> (a.contains(k) || b.contains(k)) by {
        if ids.contains(k) {
            let i = choose|i: int| 0 <= i < ids.len() && ids[i] == k;
            if i < a.len() {
                assert(a[i] == k);
            } else {
                assert(b[i - a.len()] == k);
            }
        }
        if a.contains(k) {
            let i = choose|i: int| 0 <= i < a.len() && a[i] == k;
            assert(ids[i] == k);
        }
        if b.contains(k) {
            let i = choose|i: int| 0 <= i < b.len() && b[i] == k;
            assert(ids[a.len() + i] == k);
        }
    }
    assert forall|i: int, j: int| 0 <= i < ids.len() && 0 <= j < ids.len() && i != j implies ids[i]
        != ids[j] by {
        if i < a.len() && j >= a.len() {
            assert(a.contains(ids[i]));
            assert(b.contains(ids[j]));
            assert(taken(middle, ids[i] as int));
        } else if j < a.len() && i >= a.len() {
            assert(a.contains(ids[j]));
            assert(b.contains(ids[i]));
            assert(taken(middle, ids[j] as int));
        }
    }
    assert forall|k: usize| #[trigger]
        taken(after, k as int) <==> (taken(before, k as int) || ids.contains(k)) by {
        assert(taken(middle, k as int) <==> (taken(before, k as int) || a.contains(k)));
    }
    assert forall|k: usize| #[trigger] ids.contains(k) implies !taken(before, k as int) by {
        if b.contains(k) {
            assert(!taken(middle, k as int));
        }
    }
}

/// Starting tasks takes fresh numbers for the jobs that then run.
pub proof fn lemma_start_all_fresh<M, W>(tasks: Seq<Task<M, W>>, used: Seq<bool>)
    requires
        start_all(tasks, used).used.len() <= usize::MAX,
    ensures
        fresh(used, start_all(tasks, used).used, ids_of(start_all(tasks, used).pending)),
    decreases tasks, 0nat,
{
    if tasks.len() > 0 {
        let front = start_all(tasks.drop_last(), used);
        let last = start(tasks.last(), front.used);
        lemma_start_owes(tasks.last(), front.used);
        lemma_start_all_fresh(tasks.drop_last(), used);
        lemma_start_fresh(tasks.last(), front.used);
        lemma_join(front.pending, last.pending);
        lemma_fresh_chain(
            used,
            front.used,
            last.used,
            ids_of(front.pending),
            ids_of(last.pending),
        );
    } else {
        assert(fresh(used, used, Seq::<usize>::empty()));
    }
}

/// Starting a task takes fresh numbers for the jobs that then run.
pub proof fn lemma_start_fresh<M, W>(task: Task<M, W>, used: Seq<bool>)
    requires
        start(task, used).used.len() <= usize::MAX,
    ensures
        fresh(used, start(task, used).used, ids_of(start(task, used).pending)),
    decreases task, 1nat,
{
    let o = start(task, used);
    match task {
        Task::Special(_) => {
            assert(fresh(used, used, Seq::<usize>::empty()));
        },
        Task::Simple(_) => {
            lemma_first_free_bounds(used);
            let id = first_free(used);
            let ids = seq![id as usize];
            assert(ids_of(o.pending) =~= ids);
            assert forall|k: usize| #[trigger]
                taken(o.used, k as int) <==> (taken(used, k as int) || ids.contains(k)) by {
                if k == id {
                    assert(ids[0] == k);
                }
            }
        },
        Task::Batch(tasks) => {
            lemma_start_all_fresh(tasks@, used);
        },
        Task::Then(first, second) => {
            let head = start(*first, used);
            match head.pending {
                Some(_) => {
                    lemma_start_fresh(*first, used);
                },
                None => {
                    let tail = start(*second, head.used);
                    lemma_start_owes(*second, head.used);
                    lemma_start_fresh(*first, used);
                    lemma_start_fresh(*second, head.used);
                    lemma_fresh_chain(
                        used,
                        head.used,
                        tail.used,
                        ids_of(head.pending),
                        ids_of(tail.pending),
                    );
                    assert(ids_of(head.pending) + ids_of(tail.pending) =~= ids_of(tail.pending));
                },
            }
        },
    }
}

/// A number occurs in two lists, one after the other, if and only if it
/// occurs in one of them.
pub proof fn lemma_concat_contains(a: Seq<usize>, b: Seq<usize>)
    ensures
        forall|k: usize| #[trigger] (a + b).contains(k) <==> (a.contains(k) || b.contains(k)),
{
    let ids = a + b;
    assert forall|k: usize| #[trigger] ids.contains(k) <==> (a.contains(k) || b.contains(k)) by {
        if ids.contains(k) {
            let i = choose|i: int| 0 <= i < ids.len() && ids[i] == k;
            if i < a.len() {
                assert(a[i] == k);
            } else {
                assert(b[i - a.len()] == k);
            }
        }
        if a.contains(k) {
            let i = choose|i: int| 0 <= i < a.len() && a[i] == k;
            assert(ids[i] == k);
        }
        if b.contains(k) {
            let i = choose|i: int| 0 <= i < b.len() && b[i] == k;
            assert(ids[a.len() + i] == k);
        }
    }
}

/// The parts of a list in which nothing occurs twice share nothing, and
/// nothing occurs twice in either.
pub proof fn lemma_concat_distinct(a: Seq<usize>, b: Seq<usize>)
    requires
        (a + b).no_duplicates(),
    ensures
        a.no_duplicates(),
        b.no_duplicates(),
        forall|k: usize| a.contains(k) ==> !b.contains(k),
{
    let ids = a + b;
    assert forall|i: int, j: int| 0 <= i < a.len() && 0 <= j < a.len() && i != j implies a[i]
        != a[j] by {
        assert(ids[i] == a[i] && ids[j] == a[j]);
    }
    assert forall|i: int, j: int| 0 <= i < b.len() && 0 <= j < b.len() && i != j implies b[i]
        != b[j] by {
        assert(ids[a.len() + i] == b[i] && ids[a.len() + j] == b[j]);
    }
    assert forall|k: usize| a.contains(k) implies !b.contains(k) by {
        if b.contains(k) {
            let i = choose|i: int| 0 <= i < a.len() && a[i] == k;
            let j = choose|j: int| 0 <= j < b.len() && b[j] == k;
            assert(ids[i] == k && ids[a.len() + j] == k);
        }
    }
}

/// How the numbers taken and the jobs that run relate before and after the
/// news that job `id` is done: the jobs that ran keep running, but for `id`;
/// the jobs that run and did not before have numbers that were free; a number
/// is taken afterwards if and only if it was taken before or belongs to a job
/// that runs; and no number belongs to two jobs.
pub open spec fn retired(
    before: Seq<bool>,
    after: Seq<bool>,
    ran: Seq<usize>,
    id: usize,
    run: Seq<usize>,
) -> bool {
    &&& before.len() <= after.len()
    &&& run.no_duplicates()
    &&& forall|k: usize| #[trigger]
        taken(after, k as int) <==> (taken(before, k as int) || run.contains(k))
    &&& forall|k: usize| #[trigger]
        run.contains(k) ==> (ran.contains(k) && k != id) || !taken(before, k as int)
    &&& forall|k: usize| #[trigger] ran.contains(k) && k != id ==> run.contains(k)
}

/// Whether each of `ids` is taken in `used`, and none occurs twice.
pub open spec fn all_taken(used: Seq<bool>, ids: Seq<usize>) -> bool {
    &&& ids.no_duplicates()
    &&& forall|k: usize| #[trigger] ids.contains(k) ==> taken(used, k as int)
}

/// One if `id` is among `ids`, else zero.
pub open spec fn paid(ids: Seq<usize>, id: usize) -> nat {
    if ids.contains(id) {
        1
    } else {
        0
    }
}

/// The news that a job is done changes nothing where the job does not run.
pub proof fn lemma_settle_absent<M, W>(pending: Pending<M, W>, id: usize, used: Seq<bool>)
    requires
        !pending.ids().contains(id),
    ensures
        settle(pending, id, used) == (Outcome {
            pending: Some(pending),
            actions: Seq::<Action<M, W>>::empty(),
            used,
        }),
    decreases pending,
{
    match pending {
        Pending::Leaf(leaf) => {
            assert(pending.ids()[0] == leaf);
        },
        Pending::Both(a, b) => {
            lemma_concat_contains(a.ids(), b.ids());
            lemma_settle_absent(*a, id, used);
            lemma_settle_absent(*b, id, used);
            assert(settle(pending, id, used).actions =~= Seq::<Action<M, W>>::empty());
        },
        Pending::Before(first, _) => {
            lemma_settle_absent(*first, id, used);
        },
    }
}

/// The news that a job is done gives no number back.
pub proof fn lemma_settle_grows<M, W>(pending: Pending<M, W>, id: usize, used: Seq<bool>)
    ensures
        settle(pending, id, used).used.len() >= used.len(),
    decreases pending,
{
    match pending {
        Pending::Leaf(_) => {},
        Pending::Both(a, b) => {
            lemma_settle_grows(*a, id, used);
            lemma_settle_grows(*b, id, settle(*a, id, used).used);
        },
        Pending::Before(first, next) => {
            let head = settle(*first, id, used);
            lemma_settle_grows(*first, id, used);
            if head.pending is None {
                lemma_start_owes(next, head.used);
            }
        },
    }
}

/// The news that a job is done gives no number back, passes no message on,
/// and lowers what is owed by one if the job ran here.
pub proof fn lemma_settle_owes<M, W>(pending: Pending<M, W>, id: usize, used: Seq<bool>)
    requires
        pending.ids().no_duplicates(),
    ensures
        settle(pending, id, used).used.len() >= used.len(),
        owed_of(settle(pending, id, used).pending) + paid(pending.ids(), id) == pending.owed(),
        messages(settle(pending, id, used).actions) == 0,
    decreases pending,
{
    match pending {
        Pending::Leaf(leaf) => {
            assert(pending.ids()[0] == leaf);
        },
        Pending::Both(a, b) => {
            let left = settle(*a, id, used);
            let right = settle(*b, id, left.used);
            lemma_concat_distinct(a.ids(), b.ids());
            lemma_concat_contains(a.ids(), b.ids());
            lemma_settle_owes(*a, id, used);
            lemma_settle_owes(*b, id, left.used);
            lemma_join(left.pending, right.pending);
            lemma_messages_add(left.actions, right.actions);
        },
        Pending::Before(first, next) => {
            let head = settle(*first, id, used);
            lemma_settle_owes(*first, id, used);
            match head.pending {
                Some(_) => {},
                None => {
                    lemma_start_owes(next, head.used);
                    lemma_messages_add(head.actions, start(next, head.used).actions);
                },
            }
        },
    }
}

/// The news that job `id` is done retires that job and no other, and what
/// starts in its wake takes fresh numbers.
pub proof fn lemma_settle_retires<M, W>(pending: Pending<M, W>, id: usize, used: Seq<bool>)
    requires
        all_taken(used, pending.ids()),
        taken(used, id as int),
        settle(pending, id, used).used.len() <= usize::MAX,
    ensures
        retired(
            used,
            settle(pending, id, used).used,
            pending.ids(),
            id,
            ids_of(settle(pending, id, used).pending),
        ),
    decreases pending,
{
    let o = settle(pending, id, used);
    let run = ids_of(o.pending);
    match pending {
        Pending::Leaf(leaf) => {
            if leaf == id {
                assert(run =~= Seq::<usize>::empty());
            } else {
                assert(run =~= seq![leaf]);
                assert forall|k: usize| #[trigger]
                    taken(used, k as int) <==> (taken(used, k as int) || run.contains(k)) by {
                    if run.contains(k) {
                        assert(pending.ids().contains(k));
                    }
                }
            }
        },
        Pending::Both(a, b) => {
            let left = settle(*a, id, used);
            let right = settle(*b, id, left.used);
            let l = ids_of(left.pending);
            let r = ids_of(right.pending);
            lemma_concat_distinct(a.ids(), b.ids());
            lemma_concat_contains(a.ids(), b.ids());
            lemma_settle_owes(*b, id, left.used);
            assert forall|k: usize| #[trigger] a.ids().contains(k) implies taken(
                used,
                k as int,
            ) by {
                assert(pending.ids().contains(k));
            }
            lemma_settle_retires(*a, id, used);
            assert forall|k: usize| #[trigger] b.ids().contains(k) implies taken(
                left.used,
                k as int,
            ) by {
                assert(pending.ids().contains(k));
                assert(taken(used, k as int));
            }
            lemma_settle_retires(*b, id, left.used);
            lemma_join(left.pending, right.pending);
            lemma_concat_contains(l, r);
            assert(run =~= l + r);
            assert forall|i: int, j: int|
                0 <= i < run.len() && 0 <= j < run.len() && i != j implies run[i] != run[j] by {
                if i < l.len() && j >= l.len() {
                    lemma_both_apart(used, left.used, *a, *b, id, l, r, run[i], run[j]);
                    assert(l.contains(run[i]));
                    assert(r.contains(run[j]));
                } else if j < l.len() && i >= l.len() {
                    lemma_both_apart(used, left.used, *a, *b, id, l, r, run[j], run[i]);
                    assert(l.contains(run[j]));
                    assert(r.contains(run[i]));
                }
            }
            assert forall|k: usize| #[trigger]
                taken(right.used, k as int) <==> (taken(used, k as int) || run.contains(k)) by {
                assert(taken(left.used, k as int) <==> (taken(used, k as int) || l.contains(k)));
            }
            assert forall|k: usize| #[trigger] run.contains(k) implies (pending.ids().contains(k)
                && k != id) || !taken(used, k as int) by {
                if r.contains(k) && !(b.ids().contains(k) && k != id) {
                    assert(!taken(left.used, k as int));
                }
            }
        },
        Pending::Before(first, next) => {
            let head = settle(*first, id, used);
            match head.pending {
                Some(_) => {
                    lemma_settle_retires(*first, id, used);
                },
                None => {
                    let tail = start(next, head.used);
                    lemma_start_owes(next, head.used);
                    lemma_settle_retires(*first, id, used);
                    lemma_start_fresh(next, head.used);
                    assert forall|k: usize| #[trigger]
                        taken(tail.used, k as int) <==> (taken(used, k as int) || run.contains(
                            k,
                        )) by {
                        assert(taken(head.used, k as int) <==> (taken(used, k as int)
                            || ids_of(head.pending).contains(k)));
                    }
                    assert forall|k: usize| #[trigger] run.contains(k) implies !taken(
                        used,
                        k as int,
                    ) by {
                        assert(!taken(head.used, k as int));
                    }
                },
            }
        },
    }
}

/// A job that runs on the left after a step and one that runs on the right
/// have different numbers.
proof fn lemma_both_apart<M, W>(
    used: Seq<bool>,
    middle: Seq<bool>,
    a: Pending<M, W>,
    b: Pending<M, W>,
    id: usize,
    l: Seq<usize>,
    r: Seq<usize>,
    x: usize,
    y: usize,
)
    requires
        all_taken(used, a.ids() + b.ids()),
        forall|k: usize| #[trigger]
            taken(middle, k as int) <==> (taken(used, k as int) || l.contains(k)),
        forall|k: usize| #[trigger]
            l.contains(k) ==> (a.ids().contains(k) && k != id) || !taken(used, k as int),
        forall|k: usize| #[trigger]
            r.contains(k) ==> (b.ids().contains(k) && k != id) || !taken(middle, k as int),
        l.contains(x),
        r.contains(y),
    ensures
        x != y,
{
    lemma_concat_distinct(a.ids(), b.ids());
    lemma_concat_contains(a.ids(), b.ids());
    if x == y {
        assert(taken(middle, x as int));
        assert(b.ids().contains(y));
        assert((a.ids() + b.ids()).contains(y));
        assert(taken(used, y as int));
        assert(a.ids().contains(x));
    }
}

/// A pool that is given a task stays well formed.
pub proof fn lemma_submitted_wf<M, W>(pool: PoolView<M, W>, task: Task<M, W>)
    requires
        pool.wf(),
        pool.submitted(task).0.used.len() <= usize::MAX,
    ensures
        pool.submitted(task).0.wf(),
{
    let o = start(task, pool.used);
    let after = pool.submitted(task).0;
    lemma_start_fresh(task, pool.used);
    lemma_join(pool.waiting, o.pending);
    let a = pool.running();
    let b = ids_of(o.pending);
    lemma_concat_contains(a, b);
    assert(after.running() =~= a + b);
    assert forall|i: int, j: int|
        0 <= i < after.running().len() && 0 <= j < after.running().len() && i
            != j implies after.running()[i] != after.running()[j] by {
        let ids = after.running();
        if i < a.len() && j >= a.len() {
            assert(a.contains(ids[i]));
            assert(b.contains(ids[j]));
            assert(taken(pool.used, ids[i] as int));
        } else if j < a.len() && i >= a.len() {
            assert(a.contains(ids[j]));
            assert(b.contains(ids[i]));
            assert(taken(pool.used, ids[j] as int));
        }
    }
    assert forall|k: usize|
        #![trigger taken(after.used, k as int)]
        #![trigger after.running().contains(k)]
        taken(after.used, k as int) <==> after.running().contains(k) by {
        assert(taken(pool.used, k as int) <==> a.contains(k));
    }
}

/// A pool that hears that a job is done stays well formed.
pub proof fn lemma_finished_wf<M, W>(pool: PoolView<M, W>, id: usize, message: M)
    requires
        pool.wf(),
        pool.finished(id, message).0.used.len() <= usize::MAX,
    ensures
        pool.finished(id, message).0.wf(),
{
    match pool.waiting {
        Some(pending) if pool.runs(id) => {
            let o = settle(pending, id, pool.used);
            let after = pool.finished(id, message).0;
            lemma_settle_owes(pending, id, pool.used);
            assert(o.used.len() == after.used.len());
            lemma_settle_retires(pending, id, pool.used);
            let run = ids_of(o.pending);
            assert forall|k: usize|
                #![trigger taken(after.used, k as int)]
                #![trigger after.running().contains(k)]
                taken(after.used, k as int) <==> after.running().contains(k) by {
                assert(taken(o.used, k as int) <==> (taken(pool.used, k as int) || run.contains(
                    k,
                )));
                assert(taken(pool.used, k as int) <==> pending.ids().contains(k));
                if k == id {
                    assert(!taken(after.used, k as int));
                    if run.contains(k) {
                        assert(false);
                    }
                } else {
                    assert(taken(after.used, k as int) == taken(o.used, k as int));
                    if pending.ids().contains(k) {
                        assert(run.contains(k));
                    }
                }
            }
        },
        _ => {},
    }
}

/// Starting tasks takes at most one number for each job that it starts.
pub proof fn lemma_start_all_room<M, W>(tasks: Seq<Task<M, W>>, used: Seq<bool>)
    ensures
        start_all(tasks, used).used.len() + unstarted_of(start_all(tasks, used).pending)
            <= used.len() + leaves_of(tasks),
    decreases tasks, 0nat,
{
    if tasks.len() > 0 {
        let front = start_all(tasks.drop_last(), used);
        lemma_start_all_room(tasks.drop_last(), used);
        lemma_start_room(tasks.last(), front.used);
    }
}

/// Starting a task takes at most one number for each job that it starts:
/// the numbers in the table and the jobs yet to start are together no more
/// than the table held and the task has jobs.
pub proof fn lemma_start_room<M, W>(task: Task<M, W>, used: Seq<bool>)
    ensures
        start(task, used).used.len() + unstarted_of(start(task, used).pending) <= used.len()
            + task.leaves(),
    decreases task, 1nat,
{
    match task {
        Task::Special(_) => {},
        Task::Simple(_) => {
            lemma_first_free_bounds(used);
        },
        Task::Batch(tasks) => {
            lemma_start_all_room(tasks@, used);
        },
        Task::Then(first, second) => {
            let head = start(*first, used);
            lemma_start_room(*first, used);
            if head.pending is None {
                lemma_start_room(*second, head.used);
            }
        },
    }
}

/// The news that a job is done takes at most one number for each job that
/// starts in its wake.
pub proof fn lemma_settle_room<M, W>(pending: Pending<M, W>, id: usize, used: Seq<bool>)
    ensures
        settle(pending, id, used).used.len() + unstarted_of(settle(pending, id, used).pending)
            <= used.len() + pending.unstarted(),
    decreases pending,
{
    match pending {
        Pending::Leaf(_) => {},
        Pending::Both(a, b) => {
            lemma_settle_room(*a, id, used);
            lemma_settle_room(*b, id, settle(*a, id, used).used);
        },
        Pending::Before(first, next) => {
            let head = settle(*first, id, used);
            lemma_settle_room(*first, id, used);
            if head.pending is None {
                lemma_start_room(next, head.used);
            }
        },
    }
}


} // verus!
