use multiplayer::mailbox::{Mailbox, DEFAULT_MAILBOX_CAPACITY};

#[test]
fn mailbox_is_fifo() {
    let mut m = Mailbox::new(DEFAULT_MAILBOX_CAPACITY);
    assert_eq!(m.capacity(), 32);
    assert!(m.try_publish("message\n".to_string()).is_ok());
    assert!(m.try_publish("1234\n".to_string()).is_ok());
    assert_eq!(m.receive(), Some("message\n".to_string()));
    assert_eq!(m.receive(), Some("1234\n".to_string()));
    assert_eq!(m.receive(), None);
}

#[test]
fn full_mailbox_drops_the_newest() {
    let mut m = Mailbox::new(3);
    for i in 0..5 {
        let line = format!("line {i}\n");
        let r = m.try_publish(line.clone());
        if i < 3 {
            assert!(r.is_ok());
        } else {
            assert_eq!(r, Err(line));
        }
    }
    assert_eq!(m.len(), 3);
    assert_eq!(m.receive(), Some("line 0\n".to_string()));
    assert_eq!(m.receive(), Some("line 1\n".to_string()));
    assert_eq!(m.receive(), Some("line 2\n".to_string()));
    assert_eq!(m.receive(), None);
}

#[test]
fn mailbox_closes_with_its_last_publisher() {
    let mut m = Mailbox::new(1);
    m.add_publisher();
    m.try_publish("x".to_string()).unwrap();
    m.release_publisher();
    assert!(!m.is_closed());
    m.release_publisher();
    assert!(m.is_closed());
    assert_eq!(m.receive(), Some("x".to_string()));
}
