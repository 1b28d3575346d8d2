use shared_ptr::mutexchannel::MutexChannel;
use shared_ptr::oneshotchannel::OneshotChannel;

#[test]
fn queue_is_first_in_first_out() {
    let mut c = MutexChannel::new();
    assert_eq!(c.len(), 0);
    c.send(1);
    c.send(2);
    c.send(3);
    assert_eq!(c.len(), 3);
    assert_eq!(c.receive(), 1);
    c.send(4);
    assert_eq!(c.receive(), 2);
    assert_eq!(c.receive(), 3);
    assert_eq!(c.receive(), 4);
    assert_eq!(c.len(), 0);
}

#[test]
fn oneshot_carries_one_message() {
    let mut c = OneshotChannel::new();
    assert!(!c.is_ready());
    assert!(!c.in_use());
    c.send("hello world!");
    assert!(c.is_ready());
    assert!(c.in_use());
    assert_eq!(c.receive(), "hello world!");
    assert!(!c.is_ready());
    assert!(c.in_use());
}
