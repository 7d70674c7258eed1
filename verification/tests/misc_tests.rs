use std::sync::mpsc;
use taskmaster::bidirmsg::BidirectionalMessage;
use taskmaster::logfile::{client_label, log_record};

#[test]
fn answer_reaches_the_receiver() {
    let (tx, rx) = mpsc::channel::<String>();
    let m = BidirectionalMessage::new("status".to_string(), tx);
    assert_eq!(m.message, "status");
    assert_eq!(m.answer("ok".to_string()), Ok(()));
    assert_eq!(rx.recv().unwrap(), "ok");
}

#[test]
fn answer_to_a_gone_receiver_comes_back() {
    let (tx, rx) = mpsc::channel::<String>();
    drop(rx);
    let m = BidirectionalMessage::new("status".to_string(), tx);
    assert_eq!(m.answer("lost".to_string()), Err("lost".to_string()));
}

#[test]
fn log_record_has_a_banner() {
    assert_eq!(
        log_record("Daemon", "Daemon is Up"),
        "\n############### From Daemon ###############\nDaemon is Up"
    );
}

#[test]
fn client_label_names_the_descriptor() {
    assert_eq!(client_label(5), "Client 5");
}
