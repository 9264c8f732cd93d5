use custos::error::{ErrorSource, K8sError};
use custos::handshake::{receive_socket_fd, Action, Event, Stage, Step, RECEIVE_SLOTS};
use custos::worker::{OperationMode, WorkerConfig};

fn config() -> WorkerConfig {
    WorkerConfig {
        frame_count: 4096,
        frame_size: 2048,
        rx_size: 1024,
        tx_size: 1024,
        fill_size: 2048,
        comp_size: 2048,
        queue_id: 3,
        mode: OperationMode::Echo,
        target_port: 50051,
    }
}

fn io_error(text: &str) -> std::io::Error {
    std::io::Error::other(text.to_string())
}

fn json_error() -> serde_json::Error {
    serde_json::from_str::<u32>("").expect_err("parse nothing")
}

fn perform(step: Step) -> (Stage, Action) {
    match step {
        Step::Perform(stage, action) => (stage, action),
        _ => panic!("the handshake has ended"),
    }
}

fn failed(step: Step) -> K8sError {
    match step {
        Step::Failed(error) => error,
        _ => panic!("the handshake goes on"),
    }
}

fn parsed_text(line: &str) -> String {
    match perform(Stage::Reading.advance(Event::Line(Ok(line.to_string())))).1 {
        Action::ParseConfig(text) => text,
        _ => panic!("not to be parsed"),
    }
}

fn receiving() -> Stage {
    Stage::Receiving(config())
}

#[test]
fn handshake_adopts_the_first_descriptor_and_closes_the_other() {
    let (stage, action) = perform(receive_socket_fd("/run/custos.sock"));
    assert!(matches!(&action, Action::Connect(path) if path == "/run/custos.sock"));
    let (stage, action) = perform(stage.advance(Event::Connected(Ok(()))));
    assert!(matches!(action, Action::ReadLine));
    let (stage, action) = perform(stage.advance(Event::Line(Ok("{}\r\n".to_string()))));
    assert!(matches!(&action, Action::ParseConfig(text) if text == "{}"));
    let (stage, action) = perform(stage.advance(Event::Parsed(Ok(config()))));
    assert!(matches!(action, Action::Receive(2)));
    assert_eq!(RECEIVE_SLOTS, 2);
    let (stage, action) = perform(stage.advance(Event::Received(Ok(vec![8, 9]))));
    assert!(matches!(action, Action::Adopt(8)));
    let (stage, action) = perform(stage.advance(Event::Adopted));
    assert!(matches!(action, Action::Close(9)));
    match stage.advance(Event::Closed(-1)) {
        Step::Complete(done) => assert_eq!(done, config()),
        _ => panic!("not complete"),
    }
}

#[test]
fn single_descriptor_is_adopted_and_none_closed() {
    let (stage, action) = perform(receiving().advance(Event::Received(Ok(vec![8]))));
    assert!(matches!(action, Action::Adopt(8)));
    match stage.advance(Event::Adopted) {
        Step::Complete(done) => assert_eq!(done, config()),
        _ => panic!("not complete"),
    }
}

#[test]
fn every_descriptor_is_adopted_or_closed_once() {
    let fds = vec![20, 21, 22, 20, 24];
    let mut settled = Vec::new();
    let mut step = receiving().advance(Event::Received(Ok(fds.clone())));
    let done = loop {
        step = match step {
            Step::Perform(stage, Action::Adopt(fd)) => {
                settled.push(fd);
                stage.advance(Event::Adopted)
            }
            Step::Perform(stage, Action::Close(fd)) => {
                settled.push(fd);
                stage.advance(Event::Closed(0))
            }
            Step::Complete(done) => break done,
            _ => panic!("an unexpected step"),
        };
    };
    assert_eq!(done, config());
    assert_eq!(settled, fds);
}

#[test]
fn failing_io_ends_the_handshake() {
    let errors = [
        failed(Stage::Connecting.advance(Event::Connected(Err(io_error("first"))))),
        failed(Stage::Reading.advance(Event::Line(Err(io_error("second"))))),
        failed(receiving().advance(Event::Received(Err(io_error("third"))))),
    ];
    for (error, text) in errors.iter().zip(["first", "second", "third"]) {
        match error {
            K8sError::Io(e) => assert_eq!(e.to_string(), text),
            _ => panic!("another error"),
        }
    }
}

#[test]
fn unreadable_configuration_ends_the_handshake() {
    let error = failed(Stage::Parsing.advance(Event::Parsed(Err(json_error()))));
    assert!(matches!(error, K8sError::ConfigParse(_)));
}

#[test]
fn message_without_descriptors_ends_the_handshake() {
    let error = failed(receiving().advance(Event::Received(Ok(vec![]))));
    assert!(matches!(error, K8sError::NoFdsReceived));
}

#[test]
fn white_space_at_the_end_of_the_line_is_not_parsed() {
    assert_eq!(parsed_text("{\"a\": 1}\n"), "{\"a\": 1}");
    assert_eq!(parsed_text("  {\"a\": 1} \t\r\n"), "  {\"a\": 1}");
    assert_eq!(parsed_text("{}"), "{}");
    assert_eq!(parsed_text(""), "");
    assert_eq!(parsed_text(" \n"), "");
    assert_eq!(parsed_text("\u{e9}\u{2003}\u{3000}"), "\u{e9}");
    assert_eq!(parsed_text("{}\u{200b}"), "{}\u{200b}");
}

#[test]
fn white_space_is_that_of_unicode() {
    let listed = |c: u32| {
        (0x9..=0xd).contains(&c)
            || (0x2000..=0x200a).contains(&c)
            || [0x20, 0x85, 0xa0, 0x1680, 0x2028, 0x2029, 0x202f, 0x205f, 0x3000].contains(&c)
    };
    for c in (0..=0x10ffff).filter_map(char::from_u32) {
        let line: String = ['x', c].iter().collect();
        let kept = if listed(c as u32) { "x".to_string() } else { line.clone() };
        assert_eq!(parsed_text(&line), kept);
    }
}

#[test]
fn errors_convert() {
    assert!(matches!(K8sError::from(io_error("broken")), K8sError::Io(_)));
    assert!(matches!(K8sError::from(json_error()), K8sError::ConfigParse(_)));
}

#[test]
fn errors_have_messages() {
    assert_eq!(
        K8sError::Io(io_error("broken pipe")).message(),
        "Unix socket I/O error: broken pipe"
    );
    assert_eq!(
        K8sError::ConfigParse(json_error()).message(),
        "Worker config parse error: EOF while parsing a value at line 1 column 0"
    );
    assert_eq!(
        K8sError::NoFdsReceived.message(),
        "SCM_RIGHTS message contained no file descriptors"
    );
}

#[test]
fn errors_have_messages_with_given_words() {
    assert_eq!(
        K8sError::Io(io_error("broken pipe")).message_with("refused"),
        "Unix socket I/O error: refused"
    );
    assert_eq!(
        K8sError::ConfigParse(json_error()).message_with("not a number"),
        "Worker config parse error: not a number"
    );
    assert_eq!(
        K8sError::NoFdsReceived.message_with("nothing"),
        "SCM_RIGHTS message contained no file descriptors"
    );
}

#[test]
fn errors_have_sources() {
    match K8sError::Io(io_error("broken pipe")).source() {
        Some(ErrorSource::Io(e)) => assert_eq!(e.to_string(), "broken pipe"),
        _ => panic!("another source"),
    }
    match K8sError::ConfigParse(json_error()).source() {
        Some(ErrorSource::ConfigParse(e)) => assert!(e.is_eof()),
        _ => panic!("another source"),
    }
    assert!(K8sError::NoFdsReceived.source().is_none());
}
