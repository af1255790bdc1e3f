use poe_wayfinder_app::game_log::{LogError, LogEvent, LogReader, NoLog};
use poe_wayfinder_app::log_watch::{LogSource, LogWatchController};

struct OneAnswer {
    answer: Option<Result<Vec<LogEvent>, LogError>>,
    polls: usize,
}

impl LogReader for OneAnswer {
    fn poll(&mut self) -> Result<Vec<LogEvent>, LogError> {
        self.polls += 1;
        self.answer.take().expect("polled once")
    }

    fn watch(&mut self, _path: &str) {}
}

#[test]
fn events_reach_the_caller_unchanged() {
    let reader = OneAnswer {
        answer: Some(Ok(vec![LogEvent::EnteredArea {
            name: "The Twilight Strand".to_string(),
        }])),
        polls: 0,
    };

    let got = LogWatchController::new(reader).poll().expect("events");

    assert_eq!(got.len(), 1);
}

#[test]
fn a_reader_that_fails_does_not_panic_the_caller() {
    let reader = OneAnswer {
        answer: Some(Err(LogError::Open {
            path: "Client.txt".to_string(),
            source: std::io::Error::other("gone"),
        })),
        polls: 0,
    };

    assert!(LogWatchController::new(reader).poll().is_err());
}

#[test]
fn no_log_never_has_anything_to_say() {
    let mut quiet = LogWatchController::new(NoLog);

    assert!(quiet.poll().expect("nothing").is_empty());
    quiet.watch("Client.txt");
    assert!(quiet.poll().expect("still nothing").is_empty());
}
