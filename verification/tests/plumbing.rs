use rustdemo::chat::{received_text, ChatAction, ChatInput, ChatRoom, ChatWorker, Delivery};
use rustdemo::game::SocketEvent;
use rustdemo::layout::{draw_image, Alignment, Placement};
use rustdemo::protocol::ClientMessage;
use rustdemo::worker::{Listener, Worker, WorkerAction, WorkerInput};

fn text(socket_id: u32, text: &str) -> Delivery {
    Delivery { socket_id, text: text.to_string() }
}

#[test]
fn listener_counts_accepted_connections() {
    let mut listener = Listener::new();
    assert_eq!(listener.session_for(true), Some(0));
    assert_eq!(listener.session_for(false), None);
    assert_eq!(listener.session_for(false), None);
    assert_eq!(listener.session_for(true), Some(1));
    assert_eq!(listener.session_for(true), Some(2));
}

#[test]
fn worker_announces_reads_and_leaves_once() {
    let mut worker = Worker::new(7);
    assert!(!worker.is_closed());
    assert_eq!(worker.step(WorkerInput::Started), WorkerAction::Send(SocketEvent::Connect(7)));
    assert_eq!(worker.step(WorkerInput::Sent(true)), WorkerAction::Read);
    let hello = ClientMessage::Hello { name: "n".to_string() };
    assert_eq!(
        worker.step(WorkerInput::Read(Some(hello.clone()))),
        WorkerAction::Send(SocketEvent::ClientMessage(7, hello))
    );
    assert_eq!(worker.step(WorkerInput::Sent(true)), WorkerAction::Read);
    assert_eq!(worker.step(WorkerInput::Read(None)), WorkerAction::Send(SocketEvent::Disconnect(7)));
    assert!(!worker.is_closed());
    assert_eq!(worker.step(WorkerInput::Sent(true)), WorkerAction::Close);
    assert!(worker.is_closed());
    // Nothing more is asked of a closed worker.
    assert_eq!(worker.step(WorkerInput::Read(None)), WorkerAction::Nothing);
    assert_eq!(worker.step(WorkerInput::Sent(false)), WorkerAction::Nothing);
    assert_eq!(worker.step(WorkerInput::Started), WorkerAction::Nothing);
    assert!(worker.is_closed());
}

#[test]
fn worker_whose_announcement_is_refused_says_nothing_more() {
    let mut worker = Worker::new(1);
    assert_eq!(worker.step(WorkerInput::Started), WorkerAction::Send(SocketEvent::Connect(1)));
    assert_eq!(worker.step(WorkerInput::Sent(false)), WorkerAction::Close);
    assert!(worker.is_closed());
}

#[test]
fn worker_leaves_when_the_queue_refuses_a_message() {
    let mut worker = Worker::new(3);
    worker.step(WorkerInput::Started);
    worker.step(WorkerInput::Sent(true));
    let guess = ClientMessage::Guess(rustdemo::coordinate::Coordinate::new(1, 2));
    worker.step(WorkerInput::Read(Some(guess)));
    assert_eq!(worker.step(WorkerInput::Sent(false)), WorkerAction::Send(SocketEvent::Disconnect(3)));
    // Whether or not the queue takes the disconnection, the connection is released.
    assert_eq!(worker.step(WorkerInput::Sent(false)), WorkerAction::Close);
}

#[test]
fn worker_ignores_reports_that_answer_nothing() {
    let mut worker = Worker::new(3);
    assert_eq!(worker.step(WorkerInput::Sent(true)), WorkerAction::Nothing);
    assert_eq!(worker.step(WorkerInput::Read(None)), WorkerAction::Nothing);
    assert_eq!(worker.step(WorkerInput::Started), WorkerAction::Send(SocketEvent::Connect(3)));
    assert_eq!(worker.step(WorkerInput::Started), WorkerAction::Nothing);
    assert_eq!(worker.step(WorkerInput::Read(None)), WorkerAction::Nothing);
    assert_eq!(worker.step(WorkerInput::Sent(true)), WorkerAction::Read);
    assert_eq!(worker.step(WorkerInput::Sent(true)), WorkerAction::Nothing);
}

#[test]
fn relay_forwards_to_everybody_else() {
    let mut room = ChatRoom::new();
    assert!(room.handle(rustdemo::chat::SocketEvent::Connect(4)).is_empty());
    assert!(room.handle(rustdemo::chat::SocketEvent::Connect(2)).is_empty());
    assert!(room.handle(rustdemo::chat::SocketEvent::Connect(9)).is_empty());
    assert_eq!(room.len(), 3);
    let sent = room.handle(rustdemo::chat::SocketEvent::Message(2, "hi".to_string()));
    assert_eq!(sent, vec![text(4, "hi"), text(9, "hi")]);
    let sent = room.handle(rustdemo::chat::SocketEvent::Message(5, "anyone".to_string()));
    assert_eq!(sent, vec![text(4, "anyone"), text(2, "anyone"), text(9, "anyone")]);
    assert!(room.handle(rustdemo::chat::SocketEvent::Disconnect(4)).is_empty());
    assert_eq!(room.len(), 2);
    let sent = room.handle(rustdemo::chat::SocketEvent::Message(9, "bye".to_string()));
    assert_eq!(sent, vec![text(2, "bye")]);
    assert!(room.handle(rustdemo::chat::SocketEvent::Disconnect(4)).is_empty());
    assert_eq!(room.len(), 2);
}

#[test]
fn relay_member_that_reconnects_goes_last() {
    let mut room = ChatRoom::new();
    room.handle(rustdemo::chat::SocketEvent::Connect(1));
    room.handle(rustdemo::chat::SocketEvent::Connect(2));
    room.handle(rustdemo::chat::SocketEvent::Connect(1));
    assert_eq!(room.len(), 2);
    let sent = room.handle(rustdemo::chat::SocketEvent::Message(7, "x".to_string()));
    assert_eq!(sent, vec![text(2, "x"), text(1, "x")]);
}

#[test]
fn read_of_nothing_ends_the_reading() {
    let buffer = [b'a'; 16];
    assert_eq!(received_text(3, &buffer, 0), None);
}

#[test]
fn read_bytes_are_decoded_from_code_page_437() {
    let mut buffer = [0u8; 1024];
    buffer[..5].copy_from_slice(b"hello");
    assert_eq!(
        received_text(3, &buffer, 5),
        Some(rustdemo::chat::SocketEvent::Message(3, "hello".to_string()))
    );
    // 0x9E and 0xAB are the peseta sign and one half in code page 437; 0x91 is the ash.
    let bytes = [0x9E, 0xAB, 0x20, 0x91, 0x0D, 0x0A];
    assert_eq!(
        received_text(8, &bytes, 6),
        Some(rustdemo::chat::SocketEvent::Message(8, "\u{20A7}\u{BD} \u{E6}\r\n".to_string()))
    );
    assert_eq!(
        received_text(8, &bytes, 2),
        Some(rustdemo::chat::SocketEvent::Message(8, "\u{20A7}\u{BD}".to_string()))
    );
}

#[test]
fn image_placement() {
    let at = (750, 250);
    assert_eq!(
        draw_image((0, 0), (1500, 750), (1500, 750), Alignment::Left),
        Placement { x: 0, y: 0, width: 1500, height: 750, blend: false }
    );
    assert_eq!(
        draw_image(at, (401, 90), (1500, 750), Alignment::Center),
        Placement { x: 550, y: 250, width: 401, height: 90, blend: true }
    );
    assert_eq!(
        draw_image(at, (400, 90), (1500, 750), Alignment::Right),
        Placement { x: 750, y: 350, width: 400, height: 90, blend: true }
    );
    assert_eq!(
        draw_image((i32::MIN, 5), (1, 800), (1, 750), Alignment::Center),
        Placement { x: i32::MIN, y: 5, width: 1, height: 800, blend: false }
    );
    assert!(draw_image((0, 0), (1500, 700), (1500, 750), Alignment::Left).blend);
    assert!(draw_image((0, 0), (1400, 750), (1500, 750), Alignment::Left).blend);
}

#[test]
fn relay_worker_announces_forwards_and_leaves_once() {
    let mut buffer = [0u8; 1024];
    let mut worker = ChatWorker::new(5);
    assert!(!worker.is_closed());
    assert_eq!(
        worker.step(ChatInput::Started, &buffer),
        ChatAction::Send(rustdemo::chat::SocketEvent::Connect(5))
    );
    assert_eq!(worker.step(ChatInput::Sent(true), &buffer), ChatAction::Read);
    buffer[..3].copy_from_slice(&[b'h', b'i', 0x91]);
    assert_eq!(
        worker.step(ChatInput::Read(Some(3)), &buffer),
        ChatAction::Send(rustdemo::chat::SocketEvent::Message(5, "hi\u{E6}".to_string()))
    );
    assert_eq!(worker.step(ChatInput::Sent(true), &buffer), ChatAction::Read);
    // A read of nothing ends the reading.
    assert_eq!(
        worker.step(ChatInput::Read(Some(0)), &buffer),
        ChatAction::Send(rustdemo::chat::SocketEvent::Disconnect(5))
    );
    assert_eq!(worker.step(ChatInput::Sent(false), &buffer), ChatAction::Close);
    assert!(worker.is_closed());
    assert_eq!(worker.step(ChatInput::Read(Some(3)), &buffer), ChatAction::Nothing);
    assert_eq!(worker.step(ChatInput::Started, &buffer), ChatAction::Nothing);
}

#[test]
fn relay_worker_leaves_on_a_failed_read_or_a_refused_text() {
    let buffer = [b'x'; 8];
    let mut worker = ChatWorker::new(1);
    worker.step(ChatInput::Started, &buffer);
    worker.step(ChatInput::Sent(true), &buffer);
    assert_eq!(
        worker.step(ChatInput::Read(None), &buffer),
        ChatAction::Send(rustdemo::chat::SocketEvent::Disconnect(1))
    );
    assert_eq!(worker.step(ChatInput::Sent(true), &buffer), ChatAction::Close);

    let mut worker = ChatWorker::new(2);
    worker.step(ChatInput::Started, &buffer);
    worker.step(ChatInput::Sent(true), &buffer);
    assert_eq!(
        worker.step(ChatInput::Read(Some(8)), &buffer),
        ChatAction::Send(rustdemo::chat::SocketEvent::Message(2, "xxxxxxxx".to_string()))
    );
    assert_eq!(
        worker.step(ChatInput::Sent(false), &buffer),
        ChatAction::Send(rustdemo::chat::SocketEvent::Disconnect(2))
    );
    assert_eq!(worker.step(ChatInput::Sent(true), &buffer), ChatAction::Close);
}

#[test]
fn relay_worker_whose_announcement_is_refused_says_nothing_more() {
    let buffer = [0u8; 4];
    let mut worker = ChatWorker::new(3);
    assert_eq!(worker.step(ChatInput::Read(Some(9)), &buffer), ChatAction::Nothing);
    worker.step(ChatInput::Started, &buffer);
    assert_eq!(worker.step(ChatInput::Sent(false), &buffer), ChatAction::Close);
    assert!(worker.is_closed());
}
