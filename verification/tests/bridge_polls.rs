//! The poll-driven bridge over real native channels.

use spin_bridge::bridge::{
    ChannelPoll, ChunkfulStreamProducer, FuturePoll, FutureProducer, OneshotPoll, ProduceResult,
    RxStreamProducer, StreamProducer,
};

fn poll_channel<T>(rx: &mut tokio::sync::mpsc::Receiver<T>) -> ChannelPoll<T> {
    match rx.try_recv() {
        Ok(v) => ChannelPoll::Item(v),
        Err(tokio::sync::mpsc::error::TryRecvError::Empty) => ChannelPoll::Empty,
        Err(tokio::sync::mpsc::error::TryRecvError::Disconnected) => ChannelPoll::Closed,
    }
}

#[test]
fn stream_bridge_delivers_in_order_then_dropped() {
    let (tx, mut rx) = tokio::sync::mpsc::channel::<&'static str>(4);
    tx.try_send("a").unwrap();
    tx.try_send("b").unwrap();
    tx.try_send("c").unwrap();
    drop(tx);

    let mut bridge: StreamProducer<&'static str> = StreamProducer::new();
    let mut got = Vec::new();
    loop {
        match bridge.produce(false, poll_channel(&mut rx)) {
            ProduceResult::Completed(Some(v)) => got.push(v),
            ProduceResult::Dropped => break,
            other => panic!("unexpected outcome: {:?}", outcome_name(&other)),
        }
    }
    assert_eq!(got, vec!["a", "b", "c"]);
    // the closed channel keeps reporting dropped, delivering nothing
    assert!(matches!(
        bridge.produce(false, poll_channel(&mut rx)),
        ProduceResult::Dropped
    ));
}

fn outcome_name<T>(r: &ProduceResult<T>) -> &'static str {
    match r {
        ProduceResult::Pending => "pending",
        ProduceResult::Completed(_) => "completed",
        ProduceResult::Dropped => "dropped",
        ProduceResult::Cancelled => "cancelled",
    }
}

#[test]
fn stream_bridge_pending_and_cancelled_on_empty_channel() {
    let (tx, mut rx) = tokio::sync::mpsc::channel::<u32>(1);
    let mut bridge: StreamProducer<u32> = StreamProducer::new();
    // empty but open: pending when not finishing, cancelled when finishing
    assert!(matches!(
        bridge.produce(false, poll_channel(&mut rx)),
        ProduceResult::Pending
    ));
    assert!(matches!(
        bridge.produce(true, poll_channel(&mut rx)),
        ProduceResult::Cancelled
    ));
    // zero-capacity guest polls complete with nothing transferred
    assert!(matches!(
        bridge.produce_without_capacity(),
        ProduceResult::Completed(None)
    ));
    drop(tx);
}

#[test]
fn finishing_poll_still_delivers_a_ready_item() {
    let (tx, mut rx) = tokio::sync::mpsc::channel::<u32>(2);
    tx.try_send(7).unwrap();

    // the general bridge delivers a ready item even while finishing
    let mut bridge: StreamProducer<u32> = StreamProducer::new();
    assert!(matches!(
        bridge.produce(true, poll_channel(&mut rx)),
        ProduceResult::Completed(Some(7))
    ));

    // so does the keyed-store variant's finishing poll; it cancels
    // only once nothing is ready
    tx.try_send(8).unwrap();
    let mut kv_bridge: RxStreamProducer<u32> = RxStreamProducer::new();
    assert!(matches!(
        kv_bridge.produce_finishing(poll_channel(&mut rx)),
        ProduceResult::Completed(Some(8))
    ));
    assert!(matches!(
        kv_bridge.produce_finishing(poll_channel(&mut rx)),
        ProduceResult::Cancelled
    ));
    drop(tx);
    assert!(matches!(
        kv_bridge.produce_finishing(poll_channel(&mut rx)),
        ProduceResult::Dropped
    ));
}

#[test]
fn future_bridge_completes_with_resolved_value() {
    let (tx, mut rx) = tokio::sync::oneshot::channel::<u64>();
    let mut bridge: FutureProducer<u64> = FutureProducer::new();
    // nothing resolved yet
    let first = match rx.try_recv() {
        Ok(v) => OneshotPoll::Value(v),
        Err(tokio::sync::oneshot::error::TryRecvError::Empty) => OneshotPoll::Waiting,
        Err(tokio::sync::oneshot::error::TryRecvError::Closed) => OneshotPoll::Gone,
    };
    assert!(matches!(bridge.produce(first), FuturePoll::Pending));
    tx.send(99).unwrap();
    let second = match rx.try_recv() {
        Ok(v) => OneshotPoll::Value(v),
        Err(tokio::sync::oneshot::error::TryRecvError::Empty) => OneshotPoll::Waiting,
        Err(tokio::sync::oneshot::error::TryRecvError::Closed) => OneshotPoll::Gone,
    };
    assert!(matches!(bridge.produce(second), FuturePoll::Completed(99)));
}

#[test]
fn future_bridge_reports_dropped_producer_as_failure() {
    let (tx, mut rx) = tokio::sync::oneshot::channel::<u64>();
    drop(tx);
    let mut bridge: FutureProducer<u64> = FutureProducer::new();
    let poll = match rx.try_recv() {
        Ok(v) => OneshotPoll::Value(v),
        Err(tokio::sync::oneshot::error::TryRecvError::Empty) => OneshotPoll::Waiting,
        Err(tokio::sync::oneshot::error::TryRecvError::Closed) => OneshotPoll::Gone,
    };
    // an error, not a silent empty result
    assert!(matches!(bridge.produce(poll), FuturePoll::Failed));
}

#[test]
fn chunkful_bridge_serves_many_small_reads_from_one_chunk() {
    let mut bridge = ChunkfulStreamProducer::new();
    assert!(bridge.needs_chunk());
    bridge.accept_chunk(vec![1, 2, 3, 4, 5]);
    assert!(!bridge.needs_chunk());
    assert_eq!(bridge.read_bytes(2), vec![1, 2]);
    assert_eq!(bridge.read_bytes(2), vec![3, 4]);
    assert_eq!(bridge.read_bytes(2), vec![5]);
    assert!(bridge.needs_chunk());
    bridge.accept_chunk(vec![6]);
    assert_eq!(bridge.read_bytes(10), vec![6]);
}
