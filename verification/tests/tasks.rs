//! Tasks on a Tokio runtime, joined through the task set and through scopes.

use std::borrow::Cow;
use std::collections::HashMap;
use std::future::{poll_fn, Future};
use std::pin::Pin;
use std::sync::atomic::{AtomicUsize, Ordering};
use std::sync::{Arc, Mutex};
use std::task::{Context, Poll, Wake, Waker};
use std::time::{Duration, Instant};

use scoped_join_set::{
    scope, JoinError, OutputSlot, Progress, Scope, ScopePhase, ScopedJoinSet, SendPtr, WriteOutput,
};
use tokio::runtime::{Builder, Handle, Runtime};
use tokio::sync::{oneshot, Notify};
use tokio::time::sleep;

/// Slots by their addresses.
struct Memory<T> {
    last: usize,
    slots: HashMap<usize, OutputSlot<T>>,
}

type SharedMemory<T> = Arc<Mutex<Memory<T>>>;

fn new_memory<T>() -> SharedMemory<T> {
    Arc::new(Mutex::new(Memory { last: 0, slots: HashMap::new() }))
}

fn reserve<T>(memory: &SharedMemory<T>) -> usize {
    let mut memory = memory.lock().unwrap();
    memory.last += 16;
    let address = memory.last;
    memory.slots.insert(address, OutputSlot::empty());
    address
}

fn recover<T>(memory: &SharedMemory<T>, ptr: SendPtr) -> T {
    let slot = memory.lock().unwrap().slots.remove(&*ptr).expect("the slot is allocated");
    assert!(slot.is_written());
    slot.into_output()
}

fn allocated<T>(memory: &SharedMemory<T>) -> usize {
    memory.lock().unwrap().slots.len()
}

/// A future that leaves its output in a slot.
struct Task<T> {
    future: Pin<Box<dyn Future<Output = T> + Send>>,
    wrapper: WriteOutput<T>,
    memory: SharedMemory<T>,
}

impl<T> Unpin for Task<T> {}

impl<T> Future for Task<T> {
    type Output = SendPtr;

    fn poll(self: Pin<&mut Self>, cx: &mut Context<'_>) -> Poll<SendPtr> {
        let this = self.get_mut();
        let output = match this.future.as_mut().poll(cx) {
            Poll::Pending => Progress::Pending,
            Poll::Ready(output) => Progress::Ready(output),
        };
        let mut memory = this.memory.lock().unwrap();
        let slot = memory.slots.get_mut(&this.wrapper.output_ptr()).expect("the slot is allocated");
        match this.wrapper.poll(output, slot) {
            Progress::Pending => Poll::Pending,
            Progress::Ready(ptr) => Poll::Ready(ptr),
        }
    }
}

impl<T> Drop for Task<T> {
    fn drop(&mut self) {
        if let Some(ptr) = self.wrapper.drop() {
            let slot = self.memory.lock().unwrap().slots.remove(&*ptr);
            assert!(!slot.expect("the slot is allocated").is_written());
        }
    }
}

fn into_poll<T>(progress: Progress<T>) -> Poll<T> {
    match progress {
        Progress::Pending => Poll::Pending,
        Progress::Ready(value) => Poll::Ready(value),
    }
}

/// A task set and the slots of its tasks.
struct TaskSet<T> {
    set: ScopedJoinSet<T>,
    memory: SharedMemory<T>,
}

impl<T: Send + 'static> TaskSet<T> {
    fn new() -> Self {
        TaskSet { set: ScopedJoinSet::new(), memory: new_memory() }
    }

    fn spawn(&mut self, future: impl Future<Output = T> + Send + 'static) {
        let output_ptr = reserve(&self.memory);
        let memory = self.memory.clone();
        let future = Box::pin(future);
        self.set.spawn(&Handle::current(), output_ptr, move |wrapper| Task {
            future,
            wrapper,
            memory,
        });
    }

    async fn join_next(&mut self) -> Option<Result<T, JoinError>> {
        let TaskSet { set, memory } = self;
        poll_fn(|cx| into_poll(set.join_next(cx, |ptr| recover(memory, ptr)))).await
    }

    async fn join_all(&mut self) -> Vec<Result<T, JoinError>> {
        let TaskSet { set, memory } = self;
        let mut results = Vec::with_capacity(set.len());
        poll_fn(|cx| into_poll(set.join_all(cx, &mut results, |ptr| recover(memory, ptr)))).await;
        results
    }
}

/// The handle that the closure of a scope gets.
struct ScopeHandle<T> {
    scope: Mutex<Scope<T>>,
    memory: SharedMemory<T>,
}

impl<T: Send + 'static> ScopeHandle<T> {
    fn spawn(&self, future: impl Future<Output = T> + Send + 'static) {
        let output_ptr = reserve(&self.memory);
        let memory = self.memory.clone();
        let future = Box::pin(future);
        self.scope.lock().unwrap().spawn(&Handle::current(), output_ptr, move |wrapper| Task {
            future,
            wrapper,
            memory,
        });
    }

    async fn join_next(&self) -> Option<Result<T, JoinError>> {
        poll_fn(|cx| {
            let mut scope = self.scope.lock().unwrap();
            into_poll(scope.join_next(cx, |ptr| recover(&self.memory, ptr)))
        })
        .await
    }

    fn try_join_next(&self) -> Option<Result<T, JoinError>> {
        let mut guard = self.scope.try_lock().ok();
        Scope::try_join_next(guard.as_deref_mut(), |ptr| recover(&self.memory, ptr))
    }

    fn is_empty(&self) -> bool {
        self.scope.lock().unwrap().is_empty()
    }

    fn len(&self) -> usize {
        self.scope.lock().unwrap().len()
    }

    fn abort_all(&self) {
        self.scope.lock().unwrap().abort_all()
    }

    async fn join_all(&self) -> Vec<Result<T, JoinError>> {
        let mut results = Vec::with_capacity(self.len());
        poll_fn(|cx| {
            let mut scope = self.scope.lock().unwrap();
            into_poll(scope.join_all(cx, &mut results, |ptr| recover(&self.memory, ptr)))
        })
        .await;
        results
    }
}

/// Runs a closure in a scope, and checks that nothing is left of it.
async fn in_scope<T, R, F>(closure: impl FnOnce(Arc<ScopeHandle<T>>) -> F) -> R
where
    T: Send + 'static,
    F: Future<Output = R>,
{
    let handle = Arc::new(ScopeHandle { scope: Mutex::new(Scope::new()), memory: new_memory() });
    let mut future = Box::pin(closure(handle.clone()));
    let mut phase = ScopePhase::Running;
    let result = poll_fn(|cx| {
        assert!(phase.aborts_on_drop());
        let closure = if matches!(phase, ScopePhase::Running) {
            match future.as_mut().poll(cx) {
                Poll::Pending => Progress::Pending,
                Poll::Ready(result) => Progress::Ready(result),
            }
        } else {
            Progress::Pending
        };
        let mut scope_handle = handle.scope.lock().unwrap();
        into_poll(scope(&mut phase, &mut scope_handle, closure, cx, |ptr| {
            recover(&handle.memory, ptr)
        }))
    })
    .await;
    assert!(!phase.aborts_on_drop());
    assert!(handle.is_empty());
    assert_eq!(allocated(&handle.memory), 0);
    result
}

/// Keeps the thread busy.
fn busy(duration: Duration) {
    let start = Instant::now();
    while start.elapsed() < duration {
        std::hint::spin_loop();
    }
}

fn current_thread() -> Runtime {
    Builder::new_current_thread().enable_time().build().unwrap()
}

fn multi_thread() -> Runtime {
    Builder::new_multi_thread().enable_time().build().unwrap()
}

#[test]
fn basic_behaviour_basic_completion() {
    current_thread().block_on(in_scope(|s| async move {
        s.spawn(async { 1 });
        s.spawn(async { 2 });

        let mut results = vec![];
        while !s.is_empty() {
            if let Some(Ok(val)) = s.join_next().await {
                results.push(val);
            }
        }

        results.sort();
        assert_eq!(results, vec![1, 2]);
    }));
}

#[test]
fn basic_behaviour_join_next_returns_none_when_empty() {
    current_thread().block_on(in_scope::<i32, _, _>(|s| async move {
        assert!(s.join_next().await.is_none());
    }));
}

#[test]
fn len_and_spawn() {
    current_thread().block_on(in_scope::<u32, _, _>(|s| async move {
        assert_eq!(s.len(), 0);

        s.spawn(async { 1 });
        s.spawn(async { 2 });
        assert_eq!(s.len(), 2);
    }));
}

#[test]
fn try_join_next_non_blocking() {
    let notify = Arc::new(Notify::new());

    current_thread().block_on(in_scope::<u32, _, _>(|s| async move {
        let notifier = notify.clone();
        s.spawn(async move {
            sleep(Duration::from_millis(50)).await;
            notifier.notify_waiters();
            42
        });

        assert!(s.try_join_next().is_none());

        notify.notified().await;
        sleep(Duration::from_millis(10)).await;

        let res = s.try_join_next();
        assert!(matches!(res, Some(Ok(42))));
    }));
}

#[test]
fn concurrency_tasks_run_concurrently() {
    let started = Arc::new(AtomicUsize::new(0));
    let finished = Arc::new(AtomicUsize::new(0));

    current_thread().block_on(in_scope::<u32, _, _>(|s| async move {
        for _ in 0..3 {
            let started = started.clone();
            let finished = finished.clone();
            s.spawn(async move {
                started.fetch_add(1, Ordering::SeqCst);
                sleep(Duration::from_millis(50)).await;
                finished.fetch_add(1, Ordering::SeqCst);
                1
            });
        }

        sleep(Duration::from_millis(10)).await;
        assert_eq!(started.load(Ordering::SeqCst), 3);

        while !s.is_empty() {
            s.join_next().await;
        }

        assert_eq!(finished.load(Ordering::SeqCst), 3);
    }));
}

#[test]
fn join_all_completion_order() {
    current_thread().block_on(in_scope::<u32, _, _>(|s| async move {
        s.spawn(async { 1 });
        s.spawn(async {
            sleep(Duration::from_millis(50)).await;
            2
        });

        let results = s.join_all().await;

        let mut values: Vec<_> = results.into_iter().map(|r| r.unwrap()).collect();
        values.sort();
        assert_eq!(values, vec![1, 2]);
    }));
}

#[test]
fn abort_all() {
    current_thread().block_on(in_scope::<u32, _, _>(|s| async move {
        for _ in 0..3 {
            s.spawn(async {
                sleep(Duration::from_millis(100)).await;
                5
            });
        }

        s.abort_all();

        let results = s.join_all().await;
        assert_eq!(results.len(), 3);
        assert!(results.iter().all(|r| matches!(r, Err(JoinError::Cancelled))));
    }));
}

#[test]
fn shutdown_graceful_abort_behavior() {
    current_thread().block_on(in_scope::<u32, _, _>(|s| async move {
        s.spawn(async {
            sleep(Duration::from_millis(50)).await;
            10
        });
        s.spawn(async {
            sleep(Duration::from_millis(100)).await;
            20
        });

        s.abort_all();
        let results = s.join_all().await;

        assert_eq!(results.len(), 2);
        for r in results {
            match r {
                Ok(v) => assert!(v == 10 || v == 20),
                Err(JoinError::Cancelled) | Err(JoinError::Panicked(_)) => {}
            }
        }
    }));
}

struct DropCounter(Arc<AtomicUsize>);

impl Drop for DropCounter {
    fn drop(&mut self) {
        self.0.fetch_add(1, Ordering::SeqCst);
    }
}

#[test]
fn drop_and_lifetime_task_drops_properly() {
    let dropped = Arc::new(AtomicUsize::new(0));

    current_thread().block_on(in_scope::<(), _, _>(|s| {
        let dropped = dropped.clone();
        async move {
            for _ in 0..5 {
                let drop_counter = DropCounter(dropped.clone());
                s.spawn(async move {
                    drop(drop_counter);
                });
            }

            while !s.is_empty() {
                s.join_next().await;
            }
        }
    }));

    assert_eq!(dropped.load(Ordering::SeqCst), 5);
}

#[test]
fn drop_and_lifetime_scope_lifetime_enforced() {
    let value: &'static i32 = Box::leak(Box::new(99));

    current_thread().block_on(in_scope::<i32, _, _>(|s| async move {
        s.spawn(async { *value });

        assert!(matches!(s.join_next().await, Some(Ok(99))));
    }));
}

#[test]
fn drop_and_lifetime_none_on_dropped_future() {
    let (tx, rx) = oneshot::channel::<()>();

    current_thread().block_on(in_scope::<i32, _, _>(|s| async move {
        s.spawn(async move {
            let _ = rx.await;
            10
        });
    }));

    assert!(tx.is_closed());
    drop(tx);
}

#[test]
fn edge_cases_long_poll() {
    let local_variable = Arc::new("local variable".to_string());

    multi_thread().block_on(in_scope::<(), _, _>(|s| {
        let local_variable = local_variable.clone();
        async move {
            s.spawn(async move {
                poll_fn(|_| {
                    let reference = &local_variable;
                    busy(Duration::from_millis(100));
                    Poll::Ready(reference.clone())
                })
                .await;
            });
        }
    }));

    assert_eq!(Arc::try_unwrap(local_variable).unwrap(), "local variable");
}

struct SpecialDrop {
    reference: Arc<String>,
}

impl Future for SpecialDrop {
    type Output = String;

    fn poll(self: Pin<&mut Self>, _cx: &mut Context<'_>) -> Poll<String> {
        Poll::Pending
    }
}

impl Drop for SpecialDrop {
    fn drop(&mut self) {
        panic!("{}", self.reference)
    }
}

#[test]
fn drop_panic() {
    let local_variable = Arc::new("local variable".to_string());

    current_thread().block_on(in_scope::<(), _, _>(|s| {
        let local_variable = local_variable.clone();
        async move {
            s.spawn(async move {
                let f = SpecialDrop { reference: local_variable };
                sleep(Duration::from_millis(20)).await;
                f.await;
            });
        }
    }));

    assert_eq!(*local_variable, "local variable");
}

#[test]
fn drop_of_a_panicking_future_frees_its_slot() {
    let local_variable = Arc::new("local variable".to_string());

    current_thread().block_on(in_scope::<(), _, _>(|s| async move {
        s.spawn(async move {
            let f = SpecialDrop { reference: local_variable };
            sleep(Duration::from_millis(20)).await;
            f.await;
        });
        sleep(Duration::from_millis(5)).await;
        s.abort_all();

        assert!(matches!(s.join_next().await, Some(Err(JoinError::Panicked(_)))));
        assert_eq!(allocated(&s.memory), 0);
    }));
}

#[test]
fn drop_uninit_memory_crash() {
    current_thread().block_on(in_scope::<String, _, _>(|s| async move {
        s.spawn(async {
            sleep(Duration::from_millis(100)).await;
            "Valid String".to_string()
        });

        s.abort_all();
    }));
}

#[test]
fn handle_zero_sized_types() {
    let output = current_thread().block_on(in_scope::<(), _, _>(|scope_handle| async move {
        scope_handle.spawn(async {
            sleep(Duration::from_millis(5)).await;
        });

        let result = scope_handle.join_next().await;
        assert!(result.is_some());
        assert!(result.unwrap().is_ok());

        "Scope Completed"
    }));

    assert_eq!(output, "Scope Completed");
}

#[test]
fn borrowed_struct_result() {
    #[derive(Debug, PartialEq)]
    struct Borrowed {
        val: &'static i32,
    }

    let num: &'static i32 = Box::leak(Box::new(123));

    current_thread().block_on(in_scope(|s| async move {
        s.spawn(async move { Borrowed { val: num } });

        let res = s.join_next().await.unwrap().unwrap();
        assert_eq!(*res.val, 123);
    }));
}

#[test]
fn multiple_borrowed_results() {
    let a: &'static i32 = Box::leak(Box::new(10));
    let b: &'static i32 = Box::leak(Box::new(20));

    current_thread().block_on(in_scope(|s| async move {
        s.spawn(async move { a });
        s.spawn(async move { b });

        let mut results = vec![];
        while let Some(res) = s.join_next().await {
            results.push(*res.unwrap());
        }

        results.sort();
        assert_eq!(results, vec![10, 20]);
    }));
}

#[test]
fn nested_borrow_result() {
    #[derive(Debug, PartialEq)]
    struct Outer {
        inner: Inner,
    }

    #[derive(Debug, PartialEq)]
    struct Inner {
        slice: &'static str,
    }

    let data: &'static String = Box::leak(Box::new(String::from("nested borrow")));
    let slice = &data[0..6];

    current_thread().block_on(in_scope(|s| async move {
        s.spawn(async { Outer { inner: Inner { slice } } });

        let res = s.join_next().await.unwrap().unwrap();
        assert_eq!(res.inner.slice, "nested");
    }));
}

#[test]
fn borrowed_and_owned_mixed() {
    let text: &'static String = Box::leak(Box::new(String::from("mixed")));
    let slice: &'static str = text;

    current_thread().block_on(in_scope(|s| async move {
        s.spawn(async { Cow::Borrowed(slice) });
        s.spawn(async { Cow::Owned("owned".to_string()) });

        let mut results: Vec<Cow<'static, str>> = vec![];
        while let Some(result) = s.join_next().await {
            results.push(result.unwrap());
        }

        results.sort_by(|a, b| a.as_ref().cmp(b.as_ref()));

        assert_eq!(results, vec![Cow::Borrowed("mixed"), Cow::Owned("owned".to_string())]);
    }));
}

#[test]
fn long_poll_long_poll() {
    let local_variable = Arc::new("local variable".to_string());

    multi_thread().block_on(async {
        let mut set = TaskSet::new();
        let reference = local_variable.clone();
        set.spawn(async move {
            poll_fn(|_| {
                busy(Duration::from_millis(100));
                Poll::Ready(reference.clone())
            })
            .await;
        });
        drop(set);
    });

    drop(local_variable);
}

#[test]
fn panic_handling_panicking_task() {
    current_thread().block_on(in_scope::<(), _, _>(|s| async move {
        s.spawn(async {
            panic!("test panic");
        });

        let res = s.join_next().await;
        assert!(
            matches!(res, Some(Err(JoinError::Panicked(_)))),
            "Panicking task should return JoinError::Panicked"
        );
    }));
}

#[test]
fn scoped_join_set_basic_completion() {
    current_thread().block_on(async {
        let mut set = TaskSet::new();

        set.spawn(async { 1 });
        set.spawn(async { 2 });

        let mut results = vec![];
        while !set.set.is_empty() {
            if let Some(Ok(val)) = set.join_next().await {
                results.push(val);
            }
        }

        results.sort();
        assert_eq!(results, vec![1, 2]);
        assert_eq!(allocated(&set.memory), 0);
    });
}

#[test]
fn scoped_join_set_task_drops_properly() {
    let dropped = Arc::new(AtomicUsize::new(0));

    current_thread().block_on(async {
        let mut set = TaskSet::new();

        for _ in 0..5 {
            let drop_counter = DropCounter(dropped.clone());
            set.spawn(async move {
                drop(drop_counter);
                42
            });
        }

        while !set.set.is_empty() {
            set.join_next().await;
        }
    });

    assert_eq!(dropped.load(Ordering::SeqCst), 5);
}

#[test]
fn scoped_join_set_none_on_dropped_future() {
    current_thread().block_on(async {
        let mut set = TaskSet::new();

        let (tx, rx) = oneshot::channel::<()>();

        set.spawn(async move {
            let _ = rx.await;
            10
        });

        drop(set);
        drop(tx);
    });
}

#[test]
fn scoped_join_set_join_next_returns_none_when_empty() {
    current_thread().block_on(async {
        let mut set: TaskSet<i32> = TaskSet::new();

        assert!(set.join_next().await.is_none());
    });
}

#[test]
fn scoped_join_set_scope_lifetime_enforced() {
    fn scoped_spawn(val: &'static i32) -> TaskSet<i32> {
        let mut set = TaskSet::new();
        set.spawn(async move { *val });
        set
    }

    current_thread().block_on(async {
        let value: &'static i32 = Box::leak(Box::new(99));
        let mut set = scoped_spawn(value);

        assert!(matches!(set.join_next().await, Some(Ok(99))));
    });
}

#[test]
fn scoped_join_set_tasks_run_concurrently() {
    let started = Arc::new(AtomicUsize::new(0));
    let finished = Arc::new(AtomicUsize::new(0));

    current_thread().block_on(async {
        let mut set = TaskSet::new();

        for _ in 0..3 {
            let started = started.clone();
            let finished = finished.clone();
            set.spawn(async move {
                started.fetch_add(1, Ordering::SeqCst);
                sleep(Duration::from_millis(50)).await;
                finished.fetch_add(1, Ordering::SeqCst);
                1
            });
        }

        sleep(Duration::from_millis(10)).await;
        assert_eq!(started.load(Ordering::SeqCst), 3);

        while !set.set.is_empty() {
            set.join_next().await;
        }

        assert_eq!(finished.load(Ordering::SeqCst), 3);
    });
}

#[test]
fn scoped_join_set_panicking_task() {
    current_thread().block_on(async {
        let mut set: TaskSet<()> = TaskSet::new();

        set.spawn(async {
            panic!("test panic");
        });

        let res = set.join_next().await;
        assert!(
            matches!(res, Some(Err(JoinError::Panicked(_)))),
            "Panicking task should return JoinError::Panicked"
        );
        assert_eq!(allocated(&set.memory), 0);
    });
}

#[test]
fn many_tasks_complete_successfully() {
    let num_tasks: usize = 10_000;

    multi_thread().block_on(in_scope(|s| async move {
        for i in 0..num_tasks {
            s.spawn(async move { i });
        }

        let mut sum = 0usize;
        let mut count = 0;

        while !s.is_empty() {
            if let Some(Ok(val)) = s.join_next().await {
                sum += val;
                count += 1;
            }
        }

        assert_eq!(count, num_tasks);
        assert_eq!(sum, num_tasks * (num_tasks - 1) / 2);
    }));
}

#[test]
fn dropping_scope_while_tasks_pending() {
    let drop_count = Arc::new(AtomicUsize::new(0));

    let count = 5000;

    multi_thread().block_on(in_scope::<i32, _, _>(|s| {
        let drop_count = drop_count.clone();
        async move {
            for _ in 0..count {
                let dropper = DropCounter(drop_count.clone());
                s.spawn(async move {
                    sleep(Duration::from_secs(10)).await;
                    drop(dropper);
                    0
                });
            }

            s.abort_all();
        }
    }));

    assert_eq!(drop_count.load(Ordering::SeqCst), count);
}

#[test]
fn interleaved_spawn_and_join() {
    multi_thread().block_on(in_scope::<usize, _, _>(|s| async move {
        for i in 0..1000 {
            s.spawn(async move { i });
            if i % 50 == 0 {
                if let Some(Ok(_)) = s.join_next().await {}
            }
        }

        let mut count = 0;
        while !s.is_empty() {
            if let Some(Ok(_)) = s.join_next().await {
                count += 1;
            }
        }

        assert_eq!(count, 980);
    }));
}

#[test]
fn many_scoped_references() {
    let values: &'static Vec<usize> = Box::leak(Box::new((0..500).collect()));

    multi_thread().block_on(in_scope(|s| async move {
        for val in values {
            s.spawn(async move { *val });
        }

        let mut results = vec![];
        while let Some(res) = s.join_next().await {
            results.push(res.unwrap());
        }

        results.sort();
        assert_eq!(results, *values);
    }));
}

#[test]
fn scope_gives_the_closures_result() {
    let inputs = vec![1, 2, 3, 4, 5];
    let multiplier = 10;

    let sum_result = current_thread().block_on(in_scope(|scope_handle| async move {
        for input_item in inputs {
            scope_handle.spawn(async move { input_item * multiplier });
        }

        let mut total = 0;
        while let Some(result) = scope_handle.join_next().await {
            match result {
                Ok(value) => total += value,
                Err(e) => panic!("{}", e.to_string()),
            }
        }
        total
    }));

    assert_eq!(sum_result, 150);
}

#[test]
fn scope_joins_what_its_closure_left_running() {
    let dropped = Arc::new(AtomicUsize::new(0));

    let result = current_thread().block_on(in_scope::<u8, _, _>(|s| {
        let dropped = dropped.clone();
        async move {
            for _ in 0..4 {
                let drop_counter = DropCounter(dropped.clone());
                s.spawn(async move {
                    sleep(Duration::from_secs(10)).await;
                    drop(drop_counter);
                    0
                });
            }
            sleep(Duration::from_millis(5)).await;
            assert_eq!(dropped.load(Ordering::SeqCst), 0);
            "left"
        }
    }));

    assert_eq!(result, "left");
    assert_eq!(dropped.load(Ordering::SeqCst), 4);
}

#[test]
fn a_slot_lives_from_spawn_to_join() {
    current_thread().block_on(async {
        let mut set = TaskSet::new();
        set.spawn(async { "written".to_string() });
        set.spawn(async {
            sleep(Duration::from_secs(10)).await;
            "never".to_string()
        });
        assert_eq!(allocated(&set.memory), 2);
        assert_eq!(set.set.len(), 2);

        assert_eq!(set.join_next().await.unwrap().unwrap(), "written");
        assert_eq!(allocated(&set.memory), 1);
        assert_eq!(set.set.len(), 1);

        set.set.abort_all();
        assert_eq!(set.set.len(), 1);
        assert!(matches!(set.join_next().await, Some(Err(JoinError::Cancelled))));
        assert_eq!(allocated(&set.memory), 0);
        assert!(set.set.is_empty());
    });
}

#[test]
fn a_default_set_is_empty() {
    let set: ScopedJoinSet<u8> = ScopedJoinSet::default();
    assert!(set.is_empty());
    assert_eq!(set.len(), 0);
}

#[test]
fn join_all_brings_one_result_per_task() {
    current_thread().block_on(async {
        let mut set = TaskSet::new();
        for i in 0..6u32 {
            set.spawn(async move {
                if i % 2 == 1 {
                    panic!("odd");
                }
                i
            });
        }
        set.spawn(async {
            sleep(Duration::from_millis(20)).await;
            100
        });

        let results = set.join_all().await;
        assert_eq!(results.len(), 7);
        assert!(set.set.is_empty());
        let panicked = results.iter().filter(|r| matches!(r, Err(JoinError::Panicked(_)))).count();
        assert_eq!(panicked, 3);
        let mut values: Vec<u32> = results.into_iter().filter_map(|r| r.ok()).collect();
        assert_eq!(values.last(), Some(&100));
        values.sort();
        assert_eq!(values, vec![0, 2, 4, 100]);
        assert!(set.join_all().await.is_empty());
    });
}

#[test]
fn join_all_appends() {
    current_thread().block_on(async {
        let mut set = TaskSet::new();
        set.spawn(async { 2 });
        let mut results = vec![Ok(1)];
        let TaskSet { set, memory } = &mut set;
        poll_fn(|cx| into_poll(set.join_all(cx, &mut results, |ptr| recover(memory, ptr)))).await;
        let values: Vec<i32> = results.into_iter().map(|r| r.unwrap()).collect();
        assert_eq!(values, vec![1, 2]);
    });
}

#[test]
fn try_join_next_of_a_set() {
    current_thread().block_on(async {
        let mut set = TaskSet::new();
        let memory = set.memory.clone();
        assert!(set.set.try_join_next(|ptr| recover(&memory, ptr)).is_none());
        set.spawn(async { 5 });
        assert!(set.set.try_join_next(|ptr| recover(&memory, ptr)).is_none());
        sleep(Duration::from_millis(5)).await;
        assert!(matches!(set.set.try_join_next(|ptr| recover(&memory, ptr)), Some(Ok(5))));
        assert!(set.set.try_join_next(|ptr| recover(&memory, ptr)).is_none());
    });
}

#[test]
fn try_join_next_without_the_handle() {
    current_thread().block_on(in_scope(|s| async move {
        s.spawn(async { 5 });
        sleep(Duration::from_millis(5)).await;
        let busy = s.scope.lock().unwrap();
        assert!(s.try_join_next().is_none());
        assert_eq!(busy.len(), 1);
        drop(busy);
        assert!(matches!(s.try_join_next(), Some(Ok(5))));
    }));
}

#[test]
fn closing_holds_the_result_back() {
    current_thread().block_on(async {
        let memory = new_memory();
        let mut handle: Scope<u8> = Scope::new();
        let output_ptr = reserve(&memory);
        let task_memory = memory.clone();
        handle.spawn(&Handle::current(), output_ptr, move |wrapper| Task {
            future: Box::pin(std::future::pending()),
            wrapper,
            memory: task_memory,
        });
        let mut phase = ScopePhase::Running;
        let mut polls = 0;
        let result = poll_fn(|cx| {
            polls += 1;
            let closure = match polls {
                1 => Progress::Pending,
                2 => Progress::Ready("held"),
                _ => Progress::Ready("ignored"),
            };
            let res = scope(&mut phase, &mut handle, closure, cx, |ptr| recover(&memory, ptr));
            match polls {
                1 => {
                    assert!(matches!(res, Progress::Pending));
                    assert!(matches!(phase, ScopePhase::Running));
                    assert_eq!(handle.len(), 1);
                    cx.waker().wake_by_ref();
                }
                2 => {
                    assert!(matches!(res, Progress::Pending));
                    match &phase {
                        ScopePhase::Closing { result, joined } => {
                            assert_eq!(*result, "held");
                            assert_eq!(joined.len() + handle.len(), 1);
                        }
                        _ => panic!("the scope is closing"),
                    }
                }
                _ => {}
            }
            into_poll(res)
        })
        .await;
        assert_eq!(result, "held");
        assert!(polls > 2);
        assert!(matches!(phase, ScopePhase::Closed));
        assert!(handle.is_empty());
        assert_eq!(allocated(&memory), 0);
    });
}

#[test]
fn an_abort_does_not_reach_later_tasks() {
    current_thread().block_on(async {
        let mut set = TaskSet::new();
        set.spawn(std::future::pending::<i32>());
        set.set.abort_all();
        set.spawn(async { 1 });

        let results = set.join_all().await;
        assert_eq!(results.len(), 2);
        assert_eq!(results.iter().filter(|r| matches!(r, Err(JoinError::Cancelled))).count(), 1);
        assert_eq!(results.iter().filter(|r| matches!(r, Ok(1))).count(), 1);
        assert_eq!(allocated(&set.memory), 0);
    });
}

#[test]
fn a_panic_does_not_hide_other_outputs() {
    current_thread().block_on(async {
        let mut set: TaskSet<i32> = TaskSet::new();
        set.spawn(async { 1 });
        set.spawn(async { panic!("test panic") });
        set.spawn(async { 3 });

        let results = set.join_all().await;
        assert_eq!(results.len(), 3);
        let panicked = results.iter().filter(|r| matches!(r, Err(JoinError::Panicked(_)))).count();
        assert_eq!(panicked, 1);
        let mut values: Vec<i32> = results.into_iter().filter_map(|r| r.ok()).collect();
        values.sort();
        assert_eq!(values, vec![1, 3]);
    });
}

#[test]
fn the_number_of_tasks_follows_the_calls() {
    current_thread().block_on(async {
        let mut set = TaskSet::new();
        let memory = set.memory.clone();
        for i in 0..5 {
            set.spawn(async move { i });
        }
        assert!(set.join_next().await.is_some());
        assert_eq!(set.set.len(), 4);
        sleep(Duration::from_millis(5)).await;
        assert!(set.set.try_join_next(|ptr| recover(&memory, ptr)).is_some());
        assert_eq!(set.set.len(), 3);
        set.set.abort_all();
        set.set.abort_all();
        assert_eq!(set.set.len(), 3);
        let results = set.join_all().await;
        assert_eq!(results.len(), 3);
        assert!(results.iter().all(|r| r.is_ok()));
        assert_eq!(set.set.len(), 0);
    });
}

#[test]
fn waiting_and_trying_report_alike() {
    async fn task(kind: u8) -> u8 {
        match kind {
            0 => 7,
            1 => panic!("test panic"),
            _ => std::future::pending().await,
        }
    }

    current_thread().block_on(async {
        for kind in 0..3 {
            let mut waiting = TaskSet::new();
            let mut trying = TaskSet::new();
            let memory = trying.memory.clone();
            waiting.spawn(task(kind));
            trying.spawn(task(kind));
            sleep(Duration::from_millis(5)).await;
            waiting.set.abort_all();
            trying.set.abort_all();
            sleep(Duration::from_millis(5)).await;
            let waited = waiting.join_next().await;
            let tried = trying.set.try_join_next(|ptr| recover(&memory, ptr));
            for joined in [waited, tried] {
                match kind {
                    0 => assert!(matches!(joined, Some(Ok(7)))),
                    1 => assert!(matches!(joined, Some(Err(JoinError::Panicked(_))))),
                    _ => assert!(matches!(joined, Some(Err(JoinError::Cancelled)))),
                }
            }
            assert!(waiting.set.is_empty());
            assert!(trying.set.is_empty());
        }
    });
}

struct Calls(AtomicUsize);

impl Wake for Calls {
    fn wake(self: Arc<Self>) {
        self.0.fetch_add(1, Ordering::SeqCst);
    }
}

#[test]
fn a_pending_poll_is_called_back() {
    current_thread().block_on(async {
        let calls = Arc::new(Calls(AtomicUsize::new(0)));
        let waker = Waker::from(calls.clone());
        let mut cx = Context::from_waker(&waker);
        let mut set = TaskSet::new();
        set.spawn(async {
            sleep(Duration::from_millis(5)).await;
            9
        });
        let memory = set.memory.clone();
        let mut results = Vec::new();
        let res = set.set.join_all(&mut cx, &mut results, |ptr| recover(&memory, ptr));
        assert!(matches!(res, Progress::Pending));
        assert_eq!(calls.0.load(Ordering::SeqCst), 0);

        sleep(Duration::from_millis(50)).await;
        assert_eq!(calls.0.load(Ordering::SeqCst), 1);
        let res = set.set.join_all(&mut cx, &mut results, |ptr| recover(&memory, ptr));
        assert!(matches!(res, Progress::Ready(())));
        assert!(matches!(results.as_slice(), [Ok(9)]));
    });
}

#[test]
fn a_scope_that_unwinds_is_not_closed() {
    current_thread().block_on(async {
        let phase = Arc::new(Mutex::new(ScopePhase::Running));
        let memory = new_memory();
        let mut handle: Scope<u8> = Scope::new();
        let output_ptr = reserve(&memory);
        let task_memory = memory.clone();
        handle.spawn(&Handle::current(), output_ptr, move |wrapper| Task {
            future: Box::pin(async { 1 }),
            wrapper,
            memory: task_memory,
        });
        sleep(Duration::from_millis(5)).await;

        let polled_phase = phase.clone();
        let polling = tokio::spawn(poll_fn(move |cx| {
            let mut phase = polled_phase.lock().unwrap();
            into_poll(scope(&mut *phase, &mut handle, Progress::Ready(()), cx, |_| {
                panic!("nothing to recover")
            }))
        }));
        assert!(polling.await.unwrap_err().is_panic());

        let phase = phase.lock().unwrap_or_else(|poisoned| poisoned.into_inner());
        assert!(phase.aborts_on_drop());
    });
}
