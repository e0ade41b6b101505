use core::sync::atomic::Ordering;
use std::cell::{Cell, RefCell};
use std::rc::Rc;
use sysparts::lamlock::action::{perform, Action, Event};
use sysparts::lamlock::attach::{Attach, Outcome};
use sysparts::lamlock::bomb::{Fuse, HeavyWeightBomb, LightWeightBomb, Stage};
use sysparts::lamlock::crowd::{Crowd, Ending};
use sysparts::lamlock::futex::{needs_wake, wait_step, Futex, WaitStep};
use sysparts::lamlock::node::{self, Node};
use sysparts::lamlock::nonpoison;
use sysparts::lamlock::poison::Guarded;
use sysparts::lamlock::rawlock::{acquire_step, keeps_spinning, AcquireStep, QueueError, RawLock};
use sysparts::lamlock::{Lock, LockPoisoned, LockResult};

type Task<T, R, P> = Box<dyn FnOnce(&mut T) -> Result<R, P>>;
type Queue<T, R, P> = Crowd<T, Task<T, R, P>, R, P>;

/// Lets a requester act until it is through, and returns what its request came to.
fn finish<T, R, P>(crowd: &mut Queue<T, R, P>, id: usize) -> Ending<R, P> {
    for _ in 0..10_000 {
        if crowd.step(id).is_none() {
            return crowd.collect(id).unwrap();
        }
    }
    panic!("requester {id} does not get through");
}

/// Joins the queue and links the new node.
fn join_linked<T, R, P>(crowd: &mut Queue<T, R, P>, task: Task<T, R, P>) -> usize {
    let id = crowd.join(task);
    if id > 0 {
        assert_eq!(crowd.step(id), Some(Event::Stored));
    }
    id
}

#[test]
fn test_light_weight_bomb_diffuse() {
    let mut raw = RawLock::new();
    let bomb = LightWeightBomb::new(&mut raw);
    bomb.diffuse();
    assert!(!raw.is_poisoned(core::sync::atomic::Ordering::Acquire));
}

#[test]
fn test_light_weight_bomb_poison() {
    let mut raw = RawLock::new();
    let bomb = LightWeightBomb::new(&mut raw);
    assert!(!bomb.get_raw().is_poisoned(Ordering::Acquire));
    bomb.detonate();
    assert!(raw.is_poisoned(Ordering::Acquire));
}

#[test]
fn test_heavy_weight_bomb() {
    const NUM_THREADS: usize = 10;
    let mut raw = RawLock::new();
    let mut nodes = Vec::new();
    for this in 0..NUM_THREADS {
        nodes.push(Node::new());
        if let Some(previous) = raw.swap_tail(this) {
            nodes[previous].store_next(this);
        }
    }
    HeavyWeightBomb::new(&mut raw, 0).detonate(&mut nodes);
    for node in &nodes {
        assert!(node.wait() == Some(node::POISONED));
    }
    assert!(raw.is_poisoned(Ordering::Acquire));
    assert!(!raw.has_tail(Ordering::Acquire));
}

#[test]
fn heavy_weight_bomb_keeps_completed_task() {
    let mut raw = RawLock::new();
    let mut nodes = vec![Node::new(), Node::new(), Node::new(), Node::new()];
    for this in 0..4 {
        if let Some(previous) = raw.swap_tail(this) {
            nodes[previous].store_next(this);
        }
    }
    let mut bomb = HeavyWeightBomb::new(&mut raw, 0);
    bomb.set_current_completed(true);
    bomb.reset(1);
    bomb.set_current_completed(true);
    bomb.detonate(&mut nodes);
    // The bomb starts at the node it was moved to.
    assert_eq!(nodes[0].wait(), None);
    assert_eq!(nodes[1].wait(), Some(node::DONE));
    assert_eq!(nodes[2].wait(), Some(node::POISONED));
    assert_eq!(nodes[3].wait(), Some(node::POISONED));
}

#[test]
fn heavy_weight_bomb_diffuse() {
    let mut raw = RawLock::new();
    raw.swap_tail(0);
    let bomb = HeavyWeightBomb::new(&mut raw, 0);
    bomb.diffuse();
    assert!(!raw.is_poisoned(Ordering::Relaxed));
    assert_eq!(raw.tail_for_test(), Some(0));
}

#[test]
fn fuse_waits_for_a_joining_node() {
    let mut fuse = Fuse::new(7, false);
    assert_eq!(fuse.action(), Some(Action::Poison));
    fuse.observe(Event::Stored);
    assert_eq!(fuse.action(), Some(Action::LoadNext { node: 7 }));
    fuse.observe(Event::Next(None));
    assert_eq!(fuse.action(), Some(Action::TryClose { node: 7 }));
    fuse.observe(Event::Closed(false));
    assert_eq!(fuse.stage, Stage::Awaiting);
    fuse.observe(Event::Next(None));
    assert_eq!(fuse.stage, Stage::Awaiting);
    fuse.observe(Event::Next(Some(8)));
    fuse.observe(Event::Next(Some(8)));
    assert_eq!(fuse.action(), Some(Action::WakePoisoned { node: 7 }));
    fuse.observe(Event::Stored);
    assert_eq!(fuse, Fuse { atom: 8, completed: false, stage: Stage::Sweeping });
    fuse.observe(Event::Next(None));
    fuse.observe(Event::Closed(true));
    assert_eq!(fuse.action(), Some(Action::WakePoisoned { node: 8 }));
    fuse.observe(Event::Stored);
    assert_eq!(fuse.action(), None);
}

#[test]
fn raw_lock_words() {
    let mut raw = RawLock::new();
    assert!(!raw.has_tail(Ordering::Relaxed));
    assert_eq!(raw.try_acquire(), Ok(true));
    assert_eq!(raw.try_acquire(), Ok(false));
    raw.release();
    assert_eq!(raw.acquire(), Ok(()));
    assert_eq!(raw.swap_tail(3), None);
    assert_eq!(raw.swap_tail(4), Some(3));
    assert!(!raw.try_close(3));
    assert!(raw.has_tail(Ordering::Acquire));
    assert!(raw.try_close(4));
    assert!(!raw.try_close(4));
    raw.poison();
    assert_eq!(raw.try_acquire(), Err(LockPoisoned));
    assert_eq!(raw.acquire(), Err(LockPoisoned));
    assert_eq!(LockPoisoned.message(), "Lock is poisoned");
}

#[test]
fn decisions_on_found_values() {
    assert_eq!(acquire_step(Ok(0)), AcquireStep::Acquired);
    assert_eq!(acquire_step(Err(1)), AcquireStep::Spin);
    assert_eq!(acquire_step(Err(2)), AcquireStep::Poisoned);
    assert!(keeps_spinning(1));
    assert!(!keeps_spinning(0));
    assert!(!keeps_spinning(2));
    assert_eq!(wait_step(0, 0), WaitStep::Sleep);
    assert_eq!(wait_step(2, 0), WaitStep::Return);
    assert!(needs_wake(0, 0));
    assert!(!needs_wake(1, 0));
}

#[test]
fn futex_word() {
    let mut futex = Futex::new(0);
    assert_eq!(futex.wait(0), WaitStep::Sleep);
    assert!(futex.notify(2, 0));
    assert_eq!(futex.wait(0), WaitStep::Return);
    assert_eq!(futex.load(), 2);
    assert!(!futex.notify(3, 0));
    assert_eq!(futex.load(), 3);
}

#[test]
fn node_wakes_only_sleepers() {
    let mut head = Node::new();
    assert_eq!(head.wait(), None);
    assert!(head.wake_as_head());
    assert_eq!(head.wait(), Some(node::HEAD));
    assert!(!head.wake_as_done());
    assert_eq!(head.wait(), Some(node::DONE));
    let mut other = Node::new();
    assert!(other.wake_as_poisoned());
    assert_eq!(other.load_next(), None);
    other.store_next(5);
    assert_eq!(other.load_next(), Some(5));
}

#[test]
fn lone_requester_actions() {
    let mut raw = RawLock::new();
    let mut nodes = vec![Node::new()];
    let mut attach = Attach::new(0);
    let mut trace = Vec::new();
    while let Some(action) = attach.action() {
        trace.push(action);
        let event = match action {
            Action::Execute { .. } => Event::Returned,
            _ => perform(&mut raw, &mut nodes, action),
        };
        attach.observe(event);
    }
    assert_eq!(
        trace,
        vec![
            Action::SwapTail { node: 0 },
            Action::TryAcquire,
            Action::Execute { node: 0 },
            Action::LoadNext { node: 0 },
            Action::TryClose { node: 0 },
            Action::Release,
            Action::WakeDone { node: 0 },
        ]
    );
    assert_eq!(attach.outcome(), Some(Outcome::Completed));
    assert!(!raw.has_tail(Ordering::Acquire));
    assert_eq!(raw.try_acquire(), Ok(true));
}

#[test]
fn fast_path_panic_releases_waiting_queue() {
    let mut crowd: Queue<i32, i32, &str> = Crowd::new(0, true);
    assert_eq!(crowd.enter(), Ok(true));
    let waiter = crowd.join(Box::new(|data| {
        *data += 1;
        Ok(*data)
    }));
    assert!(crowd.raw().has_tail(Ordering::Acquire));
    // The waiter spins for the lock that the holder still has.
    for _ in 0..5 {
        assert_eq!(crowd.step(waiter), Some(Event::Acquire(AcquireStep::Spin)));
    }
    let panic: Result<(), &str> = crowd.run_entered(|data: &mut i32| {
        *data = 1;
        Err("fast path")
    });
    assert_eq!(panic, Err("fast path"));
    assert_eq!(finish(&mut crowd, waiter), Ending::Returned(2));
    assert_eq!(crowd.enter(), Ok(true));
    assert_eq!(crowd.run_entered(|data: &mut i32| *data), 2);
}

#[test]
fn queued_panic_preserves_results_and_continues() {
    // Cover both a panic in the combiner's own task and a delegated panic.
    for panic_first in [false, true] {
        let executor = Rc::new(Cell::new(usize::MAX));
        let mut crowd: Queue<i32, (i32, usize), &str> = Crowd::new(0, true);
        assert_eq!(crowd.enter(), Ok(true));
        let on = executor.clone();
        let combiner = join_linked(
            &mut crowd,
            Box::new(move |data| {
                assert_eq!(on.get(), 0);
                *data += 1;
                if panic_first {
                    return Err("first task");
                }
                Ok((*data, on.get()))
            }),
        );
        let on = executor.clone();
        let second = join_linked(
            &mut crowd,
            Box::new(move |data| {
                assert_ne!(on.get(), 1);
                *data += 10;
                if !panic_first {
                    return Err("second task");
                }
                Ok((*data, on.get()))
            }),
        );
        let on = executor.clone();
        let third = join_linked(
            &mut crowd,
            Box::new(move |data| {
                *data += 100;
                Ok((*data, on.get()))
            }),
        );
        crowd.run_entered(|_: &mut i32| ());
        executor.set(combiner);
        let ending = finish(&mut crowd, combiner);
        if panic_first {
            assert_eq!(ending, Ending::Resumed("first task"));
        } else {
            assert_eq!(ending, Ending::Returned((1, combiner)));
        }
        executor.set(second);
        let ending = finish(&mut crowd, second);
        if panic_first {
            assert_eq!(ending, Ending::Returned((11, combiner)));
        } else {
            assert_eq!(ending, Ending::Resumed("second task"));
        }
        executor.set(third);
        assert_eq!(finish(&mut crowd, third), Ending::Returned((111, combiner)));
        assert!(!crowd.raw().has_tail(Ordering::Acquire));
        assert_eq!(crowd.enter(), Ok(true));
        assert_eq!(crowd.run_entered(|data: &mut i32| *data), 111);
    }
}

#[test]
fn try_unpoison_checks_state_and_recovery_result() {
    let mut lock = Lock::new(1);
    assert!(!lock.try_unpoison(|_| panic!("healthy lock")).unwrap());
    lock.poison().unwrap();
    assert!(
        !lock
            .try_unpoison(|data| {
                *data = 2;
                false
            })
            .unwrap()
    );
    assert!(lock.run(|_| ()).is_err());
    assert!(
        lock.try_unpoison(|data| {
            assert_eq!(*data, 2);
            *data = 3;
            true
        })
        .unwrap()
    );
    assert_eq!(lock.run(|data| *data).unwrap(), 3);
    assert!(!lock.try_unpoison(|_| panic!("already recovered")).unwrap());
}

#[test]
fn try_unpoison_panic_preserves_poison() {
    let mut lock = Lock::new(0);
    lock.poison().unwrap();
    let panic = lock
        .try_unpoison_caught(|data| {
            *data = 1;
            Err("recovery failed")
        })
        .unwrap_err();
    assert_eq!(panic, "recovery failed");
    assert!(lock.run(|_| ()).is_err());
    assert!(
        lock.try_unpoison(|data| {
            assert_eq!(*data, 1);
            true
        })
        .unwrap()
    );
    assert_eq!(lock.run(|data| *data).unwrap(), 1);
}

#[test]
fn queued_recovery_allows_following_tasks() {
    enum Reply {
        Ran(i32, usize),
        Recovered(bool, usize),
    }
    let executor = Rc::new(Cell::new(usize::MAX));
    let mut crowd: Queue<Guarded<i32>, LockResult<Reply>, &str> = Crowd::new(Guarded::new(0), true);
    assert_eq!(crowd.enter(), Ok(true));
    let combiner = join_linked(
        &mut crowd,
        Box::new(|guarded| {
            guarded.run_caught(|data| {
                *data = 1;
                Err("poison before recovery")
            })
        }),
    );
    let rejected = join_linked(
        &mut crowd,
        Box::new(|guarded| guarded.run_caught(|_| panic!("poisoned task"))),
    );
    let on = executor.clone();
    let recovery = join_linked(
        &mut crowd,
        Box::new(move |guarded| {
            guarded
                .try_unpoison_caught(|data| {
                    assert_eq!(*data, 1);
                    *data = 10;
                    Ok(true)
                })
                .map(|cleared| Ok(Reply::Recovered(cleared, on.get())))
        }),
    );
    let on = executor.clone();
    let following = join_linked(
        &mut crowd,
        Box::new(move |guarded| {
            guarded.run_caught(|data| {
                *data += 1;
                Ok(Reply::Ran(*data, on.get()))
            })
        }),
    );
    crowd.run_entered(|_: &mut Guarded<i32>| ());
    executor.set(combiner);
    assert!(matches!(
        finish(&mut crowd, combiner),
        Ending::Resumed("poison before recovery")
    ));
    executor.set(rejected);
    assert!(matches!(
        finish(&mut crowd, rejected),
        Ending::Returned(Err(LockPoisoned))
    ));
    executor.set(recovery);
    assert!(matches!(
        finish(&mut crowd, recovery),
        Ending::Returned(Ok(Reply::Recovered(true, by))) if by == combiner
    ));
    executor.set(following);
    assert!(matches!(
        finish(&mut crowd, following),
        Ending::Returned(Ok(Reply::Ran(11, by))) if by == combiner
    ));
    assert_eq!(crowd.enter(), Ok(true));
    let last = crowd.run_entered(|guarded: &mut Guarded<i32>| guarded.run(|data| *data));
    assert_eq!(last.unwrap(), 11);
}

#[test]
fn queued_panic_returns_to_requester() {
    type Events = Rc<RefCell<Vec<(&'static str, usize)>>>;
    struct DroppedOn {
        name: &'static str,
        events: Events,
        executor: Rc<Cell<usize>>,
    }
    impl Drop for DroppedOn {
        fn drop(&mut self) {
            self.events.borrow_mut().push((self.name, self.executor.get()));
        }
    }

    let events: Events = Rc::new(RefCell::new(Vec::new()));
    let executor = Rc::new(Cell::new(usize::MAX));
    let dropped_on = |name: &'static str| DroppedOn {
        name,
        events: events.clone(),
        executor: executor.clone(),
    };
    let mut crowd: Queue<Guarded<usize>, LockResult<Option<DroppedOn>>, DroppedOn> =
        Crowd::new(Guarded::new(0usize), true);
    // Hold the raw lock until A, B, and C have linked their nodes in that order. A
    // must then combine B's panic and reject C's task.
    assert_eq!(crowd.enter(), Ok(true));
    let result_drop = dropped_on("result");
    let on = executor.clone();
    let combiner = join_linked(
        &mut crowd,
        Box::new(move |guarded| {
            guarded.run_caught(move |data| {
                assert_eq!(on.get(), 0);
                *data += 1;
                Ok(Some(result_drop))
            })
        }),
    );
    let payload = dropped_on("payload");
    let task_local = dropped_on("task");
    let on = executor.clone();
    let panicking = join_linked(
        &mut crowd,
        Box::new(move |guarded| {
            guarded.run_caught(move |data| {
                assert_ne!(on.get(), 1);
                let _local = task_local;
                *data += 10;
                Err(payload)
            })
        }),
    );
    let cancelled_capture = dropped_on("cancelled");
    let cancelled = join_linked(
        &mut crowd,
        Box::new(move |guarded| {
            guarded.run_caught(move |data| {
                drop(cancelled_capture);
                *data += 100;
                Ok(None)
            })
        }),
    );
    crowd.run_entered(|_: &mut Guarded<usize>| ());

    executor.set(combiner);
    let result = match finish(&mut crowd, combiner) {
        Ending::Returned(Ok(result)) => result,
        _ => panic!("the combiner keeps its result"),
    };
    // B's panic must not unwind A or discard A's successful result.
    assert_eq!(crowd.enter(), Ok(true));
    let again = crowd.run_entered(|guarded: &mut Guarded<usize>| guarded.run(|_| ()));
    assert!(again.is_err());
    drop(result);

    executor.set(panicking);
    match finish(&mut crowd, panicking) {
        // Preserve the original concrete payload, not a new poison panic.
        Ending::Resumed(payload) => {
            assert_eq!(payload.name, "payload");
            drop(payload);
        }
        _ => panic!("the payload goes to its requester"),
    }

    executor.set(cancelled);
    assert!(matches!(
        finish(&mut crowd, cancelled),
        Ending::Returned(Err(LockPoisoned))
    ));

    assert_eq!(*crowd.get_mut().get_mut(), 11);
    let mut seen = events.borrow().clone();
    seen.sort_by_key(|(name, _)| *name);
    assert_eq!(
        seen,
        vec![
            ("cancelled", combiner),
            ("payload", panicking),
            ("result", combiner),
            ("task", combiner),
        ]
    );
}

#[test]
fn combiner_own_panic_cancels_waiter() {
    let mut crowd: Queue<Guarded<usize>, LockResult<()>, &str> = Crowd::new(Guarded::new(0), true);
    assert_eq!(crowd.enter(), Ok(true));
    let combiner = join_linked(
        &mut crowd,
        Box::new(|guarded| {
            guarded.run_caught(|data| {
                *data = 1;
                Err("combiner's own task")
            })
        }),
    );
    let waiter = join_linked(
        &mut crowd,
        Box::new(|guarded| {
            guarded.run_caught(|data| {
                *data = 2;
                Ok(())
            })
        }),
    );
    crowd.run_entered(|_: &mut Guarded<usize>| ());
    assert_eq!(finish(&mut crowd, combiner), Ending::Resumed("combiner's own task"));
    assert_eq!(finish(&mut crowd, waiter), Ending::Returned(Err(LockPoisoned)));
    assert_eq!(*crowd.get_mut().get_mut(), 1);
    assert!(!crowd.raw().has_tail(Ordering::Acquire));
    assert_eq!(crowd.enter(), Ok(true));
    assert!(crowd.run_entered(|guarded: &mut Guarded<usize>| guarded.poison()).is_err());
}

#[test]
fn uncaught_delegated_panic_drops_closures_once() {
    struct CountDrop(Rc<Cell<usize>>);
    impl Drop for CountDrop {
        fn drop(&mut self) {
            self.0.set(self.0.get() + 1);
        }
    }

    let mut crowd: Queue<Guarded<i32>, LockResult<()>, &str> = Crowd::new(Guarded::new(0), false);
    let started_drops = Rc::new(Cell::new(0));
    let cancelled_drops = Rc::new(Cell::new(0));
    assert_eq!(crowd.enter(), Ok(true));
    let combiner = join_linked(
        &mut crowd,
        Box::new(|guarded| {
            guarded.run_caught(|data| {
                *data += 1;
                Ok(())
            })
        }),
    );
    let started_capture = CountDrop(started_drops.clone());
    let started = join_linked(
        &mut crowd,
        Box::new(move |guarded| {
            guarded.run_caught(move |data| {
                let _capture = started_capture;
                *data += 10;
                Err("delegated task")
            })
        }),
    );
    let cancelled_capture = CountDrop(cancelled_drops.clone());
    let cancelled = join_linked(
        &mut crowd,
        Box::new(move |guarded| {
            guarded.run_caught(move |data| {
                drop(cancelled_capture);
                *data += 100;
                Ok(())
            })
        }),
    );
    crowd.run_entered(|_: &mut Guarded<i32>| ());
    assert_eq!(finish(&mut crowd, combiner), Ending::Unwound("delegated task"));
    assert_eq!(finish(&mut crowd, started), Ending::Cancelled(QueueError));
    assert_eq!(finish(&mut crowd, cancelled), Ending::Cancelled(QueueError));
    assert_eq!(*crowd.get_mut().get_mut(), 11);
    assert_eq!(started_drops.get(), 1);
    assert!(!crowd.raw().has_tail(Ordering::Acquire));
    assert_eq!(crowd.enter(), Err(QueueError));
    // A task that joins a disabled queue is cancelled too.
    let late = crowd.join(Box::new(|_| panic!("disabled queue")));
    assert_eq!(finish(&mut crowd, late), Ending::Cancelled(QueueError));
    assert_eq!(crowd.collect(late), None);
    drop(crowd);
    assert_eq!(cancelled_drops.get(), 1);
}

#[test]
fn slow_path_drops_closure_once() {
    struct CountDrop(Rc<Cell<usize>>);
    impl Drop for CountDrop {
        fn drop(&mut self) {
            self.0.set(self.0.get() + 1);
        }
    }

    // Exercise both a rejected closure and one consumed by a panic.
    for execute in [false, true] {
        let mut crowd: Queue<Guarded<()>, LockResult<()>, &str> =
            Crowd::new(Guarded::new(()), true);
        let drops = Rc::new(Cell::new(0));
        let captured = CountDrop(drops.clone());
        assert_eq!(crowd.enter(), Ok(true));
        let requester = crowd.join(Box::new(move |guarded| {
            guarded.run_caught(move |_| {
                let _captured = captured;
                Err("consumed closure")
            })
        }));
        assert!(crowd.raw().has_tail(Ordering::Acquire));
        crowd.run_entered(|guarded: &mut Guarded<()>| {
            if !execute {
                guarded.poison().unwrap();
            }
        });
        let outcome = finish(&mut crowd, requester);
        if execute {
            assert_eq!(outcome, Ending::Resumed("consumed closure"));
        } else {
            assert_eq!(outcome, Ending::Returned(Err(LockPoisoned)));
        }
        assert_eq!(drops.get(), 1);
    }
}

#[test]
fn smoke_test() {
    let mut lock = Lock::new(0);
    lock.run(|data| {
        *data += 1;
    })
    .unwrap();
    assert_eq!(lock.run(|x| *x).unwrap(), 1);
}

/// Lets all requesters act in an order that `seed` scrambles, until all are through.
fn scramble<T, R, P>(crowd: &mut Queue<T, R, P>, ids: &[usize], mut seed: u64) {
    let mut left = ids.to_vec();
    let mut steps = 0;
    while !left.is_empty() {
        seed = seed.wrapping_mul(6364136223846793005).wrapping_add(1442695040888963407);
        let at = (seed >> 33) as usize % left.len();
        if crowd.step(left[at]).is_none() {
            left.swap_remove(at);
        }
        steps += 1;
        assert!(steps < 5_000_000);
    }
}

#[test]
fn multi_thread_test() {
    let cnt = 100;
    for seed in 0..20 {
        let mut crowd: Queue<Guarded<i32>, LockResult<()>, &str> =
            Crowd::new(Guarded::new(0), true);
        let mut ids = Vec::new();
        for i in 0..cnt {
            ids.push(crowd.join(Box::new(move |guarded| {
                guarded.run_caught(move |data| {
                    *data += cnt - i;
                    Ok(())
                })
            })));
        }
        scramble(&mut crowd, &ids, seed);
        for id in ids {
            assert_eq!(crowd.outcome(id), Some(Outcome::Completed));
            assert_eq!(crowd.collect(id), Some(Ending::Returned(Ok(()))));
        }
        assert_eq!(crowd.enter(), Ok(true));
        let sum = crowd.run_entered(|guarded: &mut Guarded<i32>| guarded.run(|x| *x));
        assert_eq!(sum.unwrap(), cnt * (cnt + 1) / 2);
    }
}

#[test]
#[should_panic]
fn mutli_thread_panic_chain_test() {
    let cnt = 100;
    let mut crowd: Queue<Guarded<i32>, LockResult<()>, &str> = Crowd::new(Guarded::new(0), true);
    let mut ids = Vec::new();
    for i in 0..cnt {
        ids.push(crowd.join(Box::new(move |guarded| {
            guarded.run_caught(move |data| {
                *data += cnt - i;
                if i == cnt / 2 {
                    return Err("panic chain");
                }
                Ok(())
            })
        })));
    }
    scramble(&mut crowd, &ids, 1);
    for id in ids {
        match crowd.collect(id) {
            Some(Ending::Returned(outcome)) => outcome.unwrap(),
            Some(Ending::Resumed(payload)) => panic!("{payload}"),
            _ => unreachable!(),
        }
    }
}

#[test]
fn multi_thread_poison_is_permanent() {
    let mut crowd: Queue<Guarded<String>, LockResult<()>, &str> =
        Crowd::new(Guarded::new(String::new()), true);
    assert_eq!(crowd.enter(), Ok(true));
    crowd.run_entered(|guarded: &mut Guarded<String>| guarded.poison()).unwrap();
    let mut ids = Vec::new();
    for _ in 0..100 {
        ids.push(crowd.join(Box::new(|guarded| {
            guarded.run_caught(|x| {
                x.push('A');
                Ok(())
            })
        })));
        ids.push(crowd.join(Box::new(|guarded| Ok(guarded.poison()))));
    }
    scramble(&mut crowd, &ids, 7);
    for id in ids {
        assert_eq!(crowd.collect(id), Some(Ending::Returned(Err(LockPoisoned))));
    }
    assert!(crowd.get_mut().get_mut().is_empty());
}

#[test]
fn get_mut_preserves_poison_after_panic() {
    let mut lock = Lock::new(String::new());
    let result: Result<LockResult<()>, &str> = lock.run_caught(|data| {
        data.push('A');
        Err("poison the lock")
    });
    assert!(result.is_err());
    assert_eq!(lock.get_mut(), "A");
    lock.get_mut().clear();
    assert!(lock.run(|data| data.push('B')).is_err());
    assert!(lock.get_mut().is_empty());
}

#[test]
fn caught_forms_of_the_poison_lock() {
    let mut lock = Lock::new(1);
    let ran: Result<LockResult<i32>, &str> = lock.run_caught(|data| {
        *data += 1;
        Ok(*data)
    });
    assert_eq!(ran, Ok(Ok(2)));
    let healthy: Result<LockResult<bool>, &str> =
        lock.try_unpoison_caught(|_| panic!("healthy lock"));
    assert_eq!(healthy, Ok(Ok(false)));
    lock.poison().unwrap();
    let rejected: Result<LockResult<()>, &str> = lock.run_caught(|_| panic!("poisoned lock"));
    assert_eq!(rejected, Ok(Err(LockPoisoned)));
    let kept: Result<LockResult<bool>, &str> = lock.try_unpoison_caught(|_| Ok(false));
    assert_eq!(kept, Ok(Ok(false)));
    assert!(lock.run(|data| *data).is_err());
    let cleared: Result<LockResult<bool>, &str> = lock.try_unpoison_caught(|_| Ok(true));
    assert_eq!(cleared, Ok(Ok(true)));
    assert_eq!(lock.run(|data| *data), Ok(2));
}

#[test]
fn get_mut_keeps_poison() {
    let mut lock = Lock::new(5);
    lock.poison().unwrap();
    assert!(lock.poison().is_err());
    *lock.get_mut() = 6;
    assert!(lock.run(|data| *data).is_err());
    assert!(lock.try_unpoison(|data| *data == 6).unwrap());
    assert_eq!(lock.run(|data| *data).unwrap(), 6);
}

#[test]
fn nonpoison_lock_runs() {
    let mut lock = nonpoison::Lock::new(0);
    lock.run(|data| *data += 1);
    assert_eq!(lock.run(|data| *data), 1);
    assert_eq!(lock.try_run(|data| *data + 1), Ok(2));
    assert_eq!(
        lock.run_slowly(|data| {
            *data += 5;
            *data
        }),
        Ok(6)
    );
    assert_eq!(*lock.get_mut(), 6);
    assert_eq!(lock.run(|data| *data), 6);
}

#[test]
fn tasks_run_in_joining_order() {
    for seed in 0..50 {
        let mut crowd: Queue<Vec<usize>, (), &str> = Crowd::new(Vec::new(), true);
        let mut ids = Vec::new();
        for i in 0..12 {
            ids.push(crowd.join(Box::new(move |data| {
                data.push(i);
                Ok(())
            })));
        }
        scramble(&mut crowd, &ids, seed);
        assert_eq!(*crowd.get_mut(), (0..12).collect::<Vec<_>>());
        assert!(!crowd.raw().has_tail(Ordering::Acquire));
        assert_eq!(crowd.enter(), Ok(true));
    }
}

#[test]
fn unwinding_combiner_disables_the_queue() {
    for seed in 0..50 {
        let mut crowd: Queue<Vec<usize>, usize, &str> = Crowd::new(Vec::new(), false);
        let mut ids = Vec::new();
        for i in 0..9 {
            ids.push(crowd.join(Box::new(move |data| {
                data.push(i);
                if i == 4 {
                    Err("unwinds")
                } else {
                    Ok(i)
                }
            })));
        }
        scramble(&mut crowd, &ids, seed);
        assert_eq!(*crowd.get_mut(), vec![0, 1, 2, 3, 4]);
        let mut unwound = 0;
        for id in ids {
            match crowd.collect(id).unwrap() {
                Ending::Returned(value) => {
                    assert_eq!(value, id);
                    assert!(id < 4);
                }
                Ending::Unwound(payload) => {
                    assert_eq!(payload, "unwinds");
                    assert!(id <= 4);
                    unwound += 1;
                }
                Ending::Cancelled(QueueError) => assert!(id >= 4),
                Ending::Resumed(_) => unreachable!(),
            }
        }
        assert_eq!(unwound, 1);
        assert_eq!(crowd.enter(), Err(QueueError));
        assert!(crowd.raw().is_poisoned(Ordering::Acquire));
    }
}

#[test]
fn results_are_those_of_a_serial_run() {
    for seed in 0..20u64 {
        let mut crowd: Queue<u64, u64, &str> = Crowd::new(3, true);
        let mut ids = Vec::new();
        for i in 0..8u64 {
            ids.push(crowd.join(Box::new(move |data| {
                *data = *data * 5 + i;
                Ok(*data)
            })));
        }
        let mut order = Vec::new();
        let mut next = seed;
        for _ in 0..2000 {
            next = next.wrapping_mul(6364136223846793005).wrapping_add(1442695040888963407);
            order.push((next >> 33) as usize % 8);
        }
        crowd.run_schedule(&order);
        let mut serial = 3;
        for (i, id) in ids.into_iter().enumerate() {
            serial = serial * 5 + i as u64;
            assert_eq!(crowd.collect(id), Some(Ending::Returned(serial)));
        }
        assert_eq!(*crowd.get_mut(), serial);
    }
}

#[test]
fn schedule_moves_the_requesters_it_names() {
    let mut crowd: Queue<Vec<usize>, (), &str> = Crowd::new(Vec::new(), true);
    for i in 0..2 {
        crowd.join(Box::new(move |data| {
            data.push(i);
            Ok(())
        }));
    }
    // The second requester links itself and then sleeps.
    crowd.run_schedule(&vec![1, 1, 1, 1]);
    assert_eq!(crowd.outcome(0), None);
    assert_eq!(crowd.outcome(1), None);
    // The first takes the lock, runs both tasks and gives the lock back.
    crowd.run_schedule(&vec![0; 9]);
    assert_eq!(crowd.outcome(0), Some(Outcome::Completed));
    assert_eq!(crowd.outcome(1), None);
    crowd.run_schedule(&vec![1]);
    assert_eq!(crowd.outcome(1), Some(Outcome::Completed));
    assert_eq!(*crowd.get_mut(), vec![0, 1]);
}

#[test]
fn panic_rejects_later_tasks_in_the_queue() {
    for seed in 0..20 {
        let mut crowd: Queue<Guarded<u32>, LockResult<u32>, &str> =
            Crowd::new(Guarded::new(0), true);
        let mut ids = Vec::new();
        for i in 0..10 {
            ids.push(crowd.join(Box::new(move |guarded| {
                guarded.run_caught(move |data| {
                    *data += 1;
                    if i == 3 {
                        Err("fourth task")
                    } else {
                        Ok(*data)
                    }
                })
            })));
        }
        scramble(&mut crowd, &ids, seed);
        for (i, id) in ids.into_iter().enumerate() {
            let ending = crowd.collect(id).unwrap();
            match i {
                0..=2 => assert_eq!(ending, Ending::Returned(Ok(i as u32 + 1))),
                3 => assert_eq!(ending, Ending::Resumed("fourth task")),
                _ => assert_eq!(ending, Ending::Returned(Err(LockPoisoned))),
            }
        }
        assert_eq!(*crowd.get_mut().get_mut(), 4);
    }
}
