use std::sync::Mutex;

struct TestLogger;

impl testkit::logging::Logger for TestLogger {
    fn log(&self, _msg: &str) {}
}

struct ValueLogger;

impl testkit::mocking::Logger for ValueLogger {
    fn log(&self, _msg: &str) {}
}

struct RecordingLogger {
    lines: Mutex<Vec<String>>,
}

impl testkit::logging::Logger for RecordingLogger {
    fn log(&self, msg: &str) {
        self.lines.lock().unwrap().push(msg.to_string());
    }
}

#[test]
fn square_works() {
    assert_eq!(testkit::logging::square(2, &TestLogger), 4);
}

#[test]
fn lib_square_works() {
    assert_eq!(testkit::mocking::square(2, ValueLogger), 4);
}

#[test]
fn square_handles_extremes() {
    assert_eq!(testkit::logging::square(0, &TestLogger), 0);
    assert_eq!(testkit::logging::square(-3, &TestLogger), 9);
    assert_eq!(testkit::logging::square(46340, &TestLogger), 2147395600);
    assert_eq!(testkit::logging::square(-46340, &TestLogger), 2147395600);
}

#[test]
fn square_logs_the_step() {
    let logger = RecordingLogger { lines: Mutex::new(Vec::new()) };
    assert_eq!(testkit::logging::square(5, &logger), 25);
    assert_eq!(*logger.lines.lock().unwrap(), vec!["5^2 == 25".to_string()]);
}
