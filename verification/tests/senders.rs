use channel_patterns::fanin::{
    send_thread_messages, send_timed, thread_message_string, Message, SyncOutbox, TimedMessage,
    MESSAGES_PER_THREAD,
};
use channel_patterns::fanout::{send_numbered, FlumeOutbox, MESSAGES_PER_SENDER};
use channel_patterns::pipeline::{after_forward, StageNext};

#[test]
fn thread_message_string_matches_format() {
    assert_eq!(thread_message_string(3, 17), "Thread: 3, Message: 17\n");
    assert_eq!(thread_message_string(-1, 0), format!("Thread: {}, Message: {}\n", -1, 0));
}

#[test]
fn send_thread_messages_sends_every_line_in_order() {
    let (tx, rx) = std::sync::mpsc::sync_channel(2048);
    assert!(send_thread_messages(&mut SyncOutbox::new(tx.clone()), 7).is_ok());
    drop(tx);
    let got: Vec<String> = rx
        .iter()
        .map(|m| match m {
            Message::Print(s) => s,
        })
        .collect();
    assert_eq!(got.len(), MESSAGES_PER_THREAD as usize);
    for (i, s) in got.iter().enumerate() {
        assert_eq!(s, &format!("Thread: 7, Message: {}\n", i));
    }
}

#[test]
fn send_thread_messages_stops_when_receiver_is_gone() {
    let (tx, rx) = std::sync::mpsc::sync_channel::<Message>(4);
    drop(rx);
    match send_thread_messages(&mut SyncOutbox::new(tx), 5) {
        Err(Message::Print(s)) => assert_eq!(s, "Thread: 5, Message: 0\n"),
        Ok(()) => panic!("the channel has no receiver"),
    }
}

#[test]
fn send_timed_times_every_send() {
    let (tx, rx) = std::sync::mpsc::sync_channel(2048);
    let timings = match send_timed(&mut SyncOutbox::new(tx.clone())) {
        Ok(t) => t,
        Err(_) => panic!("the receiver is still there"),
    };
    assert_eq!(timings.len(), 1024);
    drop(tx);
    let mut received = 0;
    let mut last: Option<std::time::Instant> = None;
    for m in rx.iter() {
        match m {
            TimedMessage::TimeMe(at) => {
                if let Some(prev) = last {
                    assert!(prev <= at);
                }
                last = Some(at);
                received += 1;
            }
        }
    }
    assert_eq!(received, 1024);
}

#[test]
fn send_timed_stops_when_receiver_is_gone() {
    let (tx, rx) = std::sync::mpsc::sync_channel::<TimedMessage>(4);
    drop(rx);
    assert!(send_timed(&mut SyncOutbox::new(tx)).is_err());
}

#[test]
fn send_numbered_sends_every_pair_in_order() {
    let (tx, rx) = flume::unbounded();
    assert_eq!(send_numbered(&mut FlumeOutbox::new(tx.clone()), 9), Ok(()));
    drop(tx);
    let got: Vec<(i32, i32)> = rx.iter().collect();
    let expected: Vec<(i32, i32)> = (0..MESSAGES_PER_SENDER).map(|i| (9, i)).collect();
    assert_eq!(got, expected);
}

#[test]
fn send_numbered_stops_when_receivers_are_gone() {
    let (tx, rx) = flume::bounded::<(i32, i32)>(16);
    drop(rx);
    assert_eq!(send_numbered(&mut FlumeOutbox::new(tx), 4), Err((4, 0)));
}

#[test]
fn stage_exits_when_next_stage_is_gone() {
    assert_eq!(after_forward(true), StageNext::Continue);
    assert_eq!(after_forward(false), StageNext::Exit);
}
