use tiny_games::chat::{chat_message, connected_message, disconnected_message, on_read, ReadEvent, ReaderAction, Registry};

/// Writes `msg` to every registered client, `broken` ones failing, and
/// sweeps; returns the identifiers dropped.
fn broadcast(reg: &mut Registry<usize>, inboxes: &mut Vec<Vec<String>>, broken: &[usize], msg: &str, attempts: &mut Vec<usize>) -> Vec<usize> {
    let mut ok = Vec::new();
    for i in 0..reg.len() {
        let id = reg.id_at(i);
        attempts.push(id);
        if broken.contains(&id) {
            ok.push(false);
        } else {
            inboxes[*reg.writer_at(i)].push(msg.to_string());
            ok.push(true);
        }
    }
    reg.sweep(&ok)
}

fn forwarded(a: ReaderAction) -> String {
    match a {
        ReaderAction::Forward(s) => s,
        ReaderAction::Finish(_) => panic!("reader stopped"),
    }
}

fn finished(a: ReaderAction) -> String {
    match a {
        ReaderAction::Finish(s) => s,
        ReaderAction::Forward(_) => panic!("reader went on"),
    }
}

#[test]
fn announcements_are_formatted() {
    assert_eq!(connected_message("127.0.0.1:5000"), "127.0.0.1:5000 connected\n");
    assert_eq!(disconnected_message("A"), "A disconnected\n");
    assert_eq!(chat_message("A", "hi\n"), "A: hi\n");
}

#[test]
fn reader_forwards_text_and_stops_on_close_error_or_bad_bytes() {
    assert_eq!(forwarded(on_read("A", ReadEvent::Received(b"hi\n".to_vec()))), "A: hi\n");
    assert_eq!(forwarded(on_read("A", ReadEvent::Received("é\n".as_bytes().to_vec()))), "A: é\n");
    // Two lines in one read stay one message.
    assert_eq!(forwarded(on_read("A", ReadEvent::Received(b"x\ny\n".to_vec()))), "A: x\ny\n");
    assert_eq!(finished(on_read("A", ReadEvent::Received(Vec::new()))), "A disconnected\n");
    assert_eq!(finished(on_read("A", ReadEvent::Failed)), "A disconnected\n");
    assert_eq!(finished(on_read("A", ReadEvent::Received(vec![0xff, 0xfe]))), "A disconnected\n");
}

#[test]
fn two_client_session() {
    let mut reg: Registry<usize> = Registry::new();
    let mut inboxes: Vec<Vec<String>> = vec![Vec::new(), Vec::new()];
    let mut attempts = Vec::new();
    let (a, b) = (0usize, 1usize);

    // A connects: B is not there yet and receives nothing.
    reg.insert(a, 0);
    broadcast(&mut reg, &mut inboxes, &[], &connected_message("A"), &mut attempts);
    assert!(inboxes[1].is_empty());

    reg.insert(b, 1);
    broadcast(&mut reg, &mut inboxes, &[], &connected_message("B"), &mut attempts);
    assert_eq!(inboxes[0].last().unwrap(), "B connected\n");

    let msg = forwarded(on_read("A", ReadEvent::Received(b"hi\n".to_vec())));
    broadcast(&mut reg, &mut inboxes, &[], &msg, &mut attempts);
    assert_eq!(inboxes[1].last().unwrap(), "A: hi\n");

    // B closes; the write to it fails and it is dropped.
    let bye = finished(on_read("B", ReadEvent::Received(Vec::new())));
    let dropped = broadcast(&mut reg, &mut inboxes, &[b], &bye, &mut attempts);
    assert_eq!(dropped, vec![b]);
    assert_eq!(inboxes[0].last().unwrap(), "B disconnected\n");
    assert!(!reg.contains(b));

    attempts.clear();
    broadcast(&mut reg, &mut inboxes, &[], "A: again\n", &mut attempts);
    assert_eq!(attempts, vec![a]);
}

#[test]
fn failed_write_does_not_stop_the_others() {
    let mut reg: Registry<usize> = Registry::new();
    let mut inboxes: Vec<Vec<String>> = vec![Vec::new(), Vec::new(), Vec::new()];
    let mut attempts = Vec::new();
    for id in 0..3 {
        reg.insert(id, id);
    }
    let dropped = broadcast(&mut reg, &mut inboxes, &[1], "M\n", &mut attempts);
    assert_eq!(dropped, vec![1]);
    assert_eq!(attempts, vec![0, 1, 2]);
    assert_eq!(inboxes[0], vec!["M\n".to_string()]);
    assert_eq!(inboxes[2], vec!["M\n".to_string()]);
    assert!(inboxes[1].is_empty());
    assert!(!reg.contains(1));
    assert!(reg.contains(0) && reg.contains(2));
    assert_eq!(reg.len(), 2);
}

#[test]
fn messages_arrive_in_broadcast_order() {
    let mut reg: Registry<usize> = Registry::new();
    let mut inboxes: Vec<Vec<String>> = vec![Vec::new(), Vec::new()];
    let mut attempts = Vec::new();
    reg.insert(7, 0);
    reg.insert(9, 1);
    broadcast(&mut reg, &mut inboxes, &[], "M1\n", &mut attempts);
    broadcast(&mut reg, &mut inboxes, &[], "M2\n", &mut attempts);
    for inbox in &inboxes {
        assert_eq!(inbox, &vec!["M1\n".to_string(), "M2\n".to_string()]);
    }
}

#[test]
fn removal_is_idempotent() {
    let mut reg: Registry<&str> = Registry::new();
    reg.insert(1, "a");
    reg.insert(2, "b");
    reg.remove(1);
    assert!(!reg.contains(1));
    reg.remove(1);
    assert_eq!(reg.len(), 1);
    assert_eq!(reg.id_at(0), 2);
    assert_eq!(*reg.writer_at(0), "b");
    let dropped = reg.sweep(&vec![true]);
    assert!(dropped.is_empty());
    assert_eq!(reg.len(), 1);
}
