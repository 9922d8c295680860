use lumberjack_sender::lifecycle::{
    get_sender_id, Dispatch, LumberjackSenderThread, SendHandler, StartAction, StopAction,
};

#[test]
fn ids_are_unique_until_they_wrap_around() {
    let mut counter = 0;
    let ids: Vec<u8> = (0..256).map(|_| get_sender_id(&mut counter)).collect();
    let expected: Vec<u8> = (0..=255).collect();
    assert_eq!(ids, expected);
    assert_eq!(get_sender_id(&mut counter), 0);
}

#[test]
fn new_sender_has_the_next_id_and_does_not_run() {
    let mut counter = 41;
    let first: LumberjackSenderThread<u8> = LumberjackSenderThread::new("first", &mut counter);
    let second: LumberjackSenderThread<u8> = LumberjackSenderThread::new("second", &mut counter);
    assert_eq!((first.id(), first.name()), (41, "first"));
    assert_eq!((second.id(), second.name()), (42, "second"));
    assert!(!first.is_running());
}

#[test]
fn sender_starts_and_stops_once() {
    let mut counter = 0;
    let mut sender: LumberjackSenderThread<u8> = LumberjackSenderThread::new("s", &mut counter);
    assert!(matches!(sender.stop(), StopAction::AlreadyStopped));
    assert_eq!(sender.notify_stop(), None);
    assert_eq!(sender.start(), StartAction::Spawn);
    sender.spawned(5);
    assert!(sender.is_running());
    assert_eq!(sender.start(), StartAction::AlreadyStarted);
    assert!(matches!(sender.stop(), StopAction::Join { handle: 5 }));
    assert!(!sender.is_running());
    assert!(matches!(sender.stop(), StopAction::AlreadyStopped));
}

#[test]
fn thread_is_handed_out_once() {
    let mut counter = 0;
    let mut sender: LumberjackSenderThread<u8> = LumberjackSenderThread::new("s", &mut counter);
    sender.start();
    sender.spawned(6);
    assert_eq!(sender.notify_stop(), Some(6));
    assert_eq!(sender.notify_stop(), None);
    assert!(matches!(sender.stop(), StopAction::AlreadyStopped));
    sender.start();
    assert!(matches!(sender.stop(), StopAction::NoThread));
}

#[test]
fn handler_passes_calls_on() {
    let mut counter = 0;
    let mut uniform: SendHandler<u8, u8> = SendHandler::Uniform(3);
    assert!(matches!(uniform.start(), Dispatch::Uniform));
    assert!(matches!(uniform.notify_stop(), Dispatch::Uniform));
    assert!(matches!(uniform.stop(), Dispatch::Uniform));
    assert!(matches!(uniform, SendHandler::Uniform(3)));
    let mut handler: SendHandler<u8, u8> =
        SendHandler::Lumberjack(LumberjackSenderThread::new("s", &mut counter));
    assert!(matches!(handler.start(), Dispatch::Lumberjack { action: StartAction::Spawn }));
    if let SendHandler::Lumberjack(sender) = &mut handler {
        sender.spawned(8);
    }
    assert!(matches!(
        handler.start(),
        Dispatch::Lumberjack { action: StartAction::AlreadyStarted }
    ));
    assert!(matches!(handler.notify_stop(), Dispatch::Lumberjack { action: Some(8) }));
    assert!(matches!(
        handler.stop(),
        Dispatch::Lumberjack { action: StopAction::AlreadyStopped }
    ));
}
