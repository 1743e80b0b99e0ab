use pow_miner::block::Block;
use pow_miner::block::MiningTask;
use pow_miner::queue::QueueError;
use pow_miner::queue::WorkQueue;
use pow_miner::queue::Task;
use std::sync::Arc;

struct Halve(u64);

impl Task for Halve {
    type Output = u64;

    fn run(&self) -> Option<u64> {
        if self.0 % 2 == 0 {
            Some(self.0 / 2)
        } else {
            None
        }
    }
}

#[test]
fn queue_takes_tasks_until_it_is_shut_down() {
    let (mut q, rx) = WorkQueue::<Halve>::new(4);
    assert!(q.is_accepting());
    assert_eq!(q.workers(), 4);
    assert!(q.shutdown_on_drop());
    assert!(q.enqueue(Halve(10)).is_ok());
    assert!(q.enqueue(Halve(7)).is_ok());
    assert_eq!(rx.try_recv().unwrap().run(), Some(5));
    assert_eq!(rx.try_recv().unwrap().run(), None);
    assert!(rx.try_recv().is_err());

    let todo = q.shutdown();
    assert!(todo.intake_was_open);
    assert_eq!(todo.join_workers, 4);
    assert!(!q.is_accepting());
    assert_eq!(q.workers(), 0);
    assert!(!q.shutdown_on_drop());
    assert_eq!(rx.try_recv().err(), Some(spmc::TryRecvError::Disconnected));

    let back = q.enqueue(Halve(12)).unwrap_err();
    assert_eq!(back.cause, QueueError::Closed);
    assert_eq!(back.task.0, 12);

    let again = q.shutdown();
    assert!(!again.intake_was_open);
    assert_eq!(again.join_workers, 0);
    assert_eq!(q.enqueue(Halve(2)).unwrap_err().cause, QueueError::Closed);
}

#[test]
fn queue_without_workers_still_opens_and_closes() {
    let (mut q, rx) = WorkQueue::<Halve>::new(0);
    assert!(q.enqueue(Halve(4)).is_ok());
    let todo = q.shutdown();
    assert!(todo.intake_was_open);
    assert_eq!(todo.join_workers, 0);
    assert_eq!(q.enqueue(Halve(4)).unwrap_err().cause, QueueError::Closed);
    assert_eq!(rx.try_recv().unwrap().0, 4);
}

#[test]
fn task_comes_back_when_no_worker_listens() {
    let (mut q, rx) = WorkQueue::<Halve>::new(1);
    drop(rx);
    let back = q.enqueue(Halve(30)).unwrap_err();
    assert_eq!(back.cause, QueueError::Disconnected);
    assert_eq!(back.task.0, 30);
    assert!(q.is_accepting());
}

#[test]
fn mining_tasks_travel_through_the_intake() {
    let block = Block::initial(8);
    let (mut q, rx) = WorkQueue::<MiningTask>::new(1);
    for task in block.mining_tasks(0, 2047, 4) {
        assert!(q.enqueue(task).is_ok());
    }
    let mut outputs = Vec::new();
    while let Ok(task) = rx.try_recv() {
        outputs.push(task.run());
    }
    assert_eq!(outputs[0], None);
    assert_eq!(outputs[1], Some(529));
    assert_eq!(outputs.len(), 4);
    let lone = MiningTask::new(Arc::new(block), 529, 529);
    q.shutdown();
    let back = q.enqueue(lone).unwrap_err();
    assert_eq!(back.cause, QueueError::Closed);
    assert_eq!(back.task.run(), Some(529));
}

#[test]
fn enqueue_range_submits_every_chunk_in_order() {
    let block = Block::initial(8);
    let (mut q, rx) = WorkQueue::<MiningTask>::new(2);
    assert!(block.enqueue_range(&mut q, 0, 2047, 4).is_ok());
    assert!(q.is_accepting());
    assert_eq!(q.workers(), 2);
    let mut ranges = Vec::new();
    let mut outputs = Vec::new();
    while let Ok(task) = rx.try_recv() {
        ranges.push((task.start(), task.end()));
        outputs.push(task.run());
    }
    assert_eq!(ranges, vec![(0, 511), (512, 1023), (1024, 1535), (1536, 2047)]);
    assert_eq!(outputs[1], Some(529));

    assert!(block.enqueue_range(&mut q, 5, 6, 100).is_ok());
    assert_eq!(rx.try_recv().map(|t| (t.start(), t.end())).ok(), Some((5, 5)));
    assert_eq!(rx.try_recv().map(|t| (t.start(), t.end())).ok(), Some((6, 6)));
    assert!(rx.try_recv().is_err());
}

#[test]
fn enqueue_range_stops_at_the_first_refusal() {
    let block = Block::initial(8);
    let (mut q, rx) = WorkQueue::<MiningTask>::new(2);
    q.shutdown();
    let back = block.enqueue_range(&mut q, 10, 19, 3).unwrap_err();
    assert_eq!(back.cause, QueueError::Closed);
    assert_eq!((back.task.start(), back.task.end()), (10, 13));
    assert!(rx.try_recv().is_err());

    let (mut open, gone) = WorkQueue::<MiningTask>::new(2);
    drop(gone);
    let back = block.enqueue_range(&mut open, 10, 19, 3).unwrap_err();
    assert_eq!(back.cause, QueueError::Disconnected);
    assert_eq!((back.task.start(), back.task.end()), (10, 13));
}
