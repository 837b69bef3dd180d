use slowcat::lines::{render_lines, split_into_lines, LineSplitter};
use slowcat::plan::{plan_file, Action, DEFAULT_DELAY_NANOS};
use slowcat::run::{exit_code, on_open_error, FileSession};
use slowcat::error::SlowCatError;

fn lines_of(bytes: &[u8]) -> Vec<Vec<u8>> {
    split_into_lines(&bytes.to_vec())
}

fn total_sleep(actions: &[Action]) -> u64 {
    let mut total: u64 = 0;
    for a in actions {
        if let Action::Sleep(nanos) = a {
            total += nanos;
        }
    }
    total
}

fn printed(actions: &[Action]) -> Vec<Vec<u8>> {
    let mut out = Vec::new();
    for a in actions {
        if let Action::Print(line) = a {
            out.push(line.clone());
        }
    }
    out
}

#[test]
fn split_empty_stream_has_no_lines() {
    assert_eq!(lines_of(b""), Vec::<Vec<u8>>::new());
}

#[test]
fn split_simple_lines() {
    assert_eq!(lines_of(b"a\nbb\n"), vec![b"a".to_vec(), b"bb".to_vec()]);
}

#[test]
fn split_drops_carriage_return_before_line_feed() {
    assert_eq!(lines_of(b"a\r\nb\r\n"), vec![b"a".to_vec(), b"b".to_vec()]);
}

#[test]
fn split_keeps_final_unterminated_line() {
    assert_eq!(lines_of(b"a\nb"), vec![b"a".to_vec(), b"b".to_vec()]);
}

#[test]
fn split_keeps_carriage_return_without_line_feed() {
    assert_eq!(lines_of(b"a\r"), vec![b"a\r".to_vec()]);
    assert_eq!(lines_of(b"a\rb\n"), vec![b"a\rb".to_vec()]);
}

#[test]
fn split_drops_only_one_carriage_return() {
    assert_eq!(lines_of(b"a\r\r\n"), vec![b"a\r".to_vec()]);
}

#[test]
fn split_empty_lines() {
    assert_eq!(lines_of(b"\n\n"), vec![b"".to_vec(), b"".to_vec()]);
}

#[test]
fn splitter_holds_line_across_chunks() {
    let mut splitter = LineSplitter::new();
    assert_eq!(splitter.feed(&b"a\r".to_vec()), Vec::<Vec<u8>>::new());
    assert_eq!(splitter.feed(&b"\nb".to_vec()), vec![b"a".to_vec()]);
    assert_eq!(splitter.finish(), Some(b"b".to_vec()));
}

#[test]
fn splitter_finish_is_empty_after_terminated_stream() {
    let mut splitter = LineSplitter::new();
    assert_eq!(splitter.feed(&b"x\n".to_vec()), vec![b"x".to_vec()]);
    assert_eq!(splitter.finish(), None);
}

#[test]
fn render_appends_one_line_feed_per_line() {
    let lines = vec![b"a".to_vec(), b"b".to_vec()];
    assert_eq!(render_lines(&lines), b"a\nb\n".to_vec());
}

#[test]
fn output_is_input_with_terminators_normalized() {
    let out = render_lines(&lines_of(b"a\r\nb"));
    assert_eq!(out, b"a\nb\n".to_vec());
    let out = render_lines(&lines_of(b"one\r\ntwo\nthree"));
    assert_eq!(out, b"one\ntwo\nthree\n".to_vec());
}

#[test]
fn default_delay_is_a_fifth_of_a_second() {
    assert_eq!(DEFAULT_DELAY_NANOS, 200_000_000);
}

#[test]
fn plan_alternates_print_and_sleep() {
    let plan = plan_file(&b"x\ny\n".to_vec(), 5);
    assert_eq!(plan.len(), 4);
    assert!(matches!(&plan[0], Action::Print(line) if line.as_slice() == b"x"));
    assert!(matches!(&plan[1], Action::Sleep(5)));
    assert!(matches!(&plan[2], Action::Print(line) if line.as_slice() == b"y"));
    assert!(matches!(&plan[3], Action::Sleep(5)));
    assert_eq!(total_sleep(&plan), 10);
}

#[test]
fn twenty_lines_pause_twenty_seconds() {
    let mut content = Vec::new();
    for _ in 0..20 {
        content.extend_from_slice(b"Hello, world!\n");
    }
    let second: u64 = 1_000_000_000;
    let plan = plan_file(&content, second);
    assert_eq!(printed(&plan).len(), 20);
    assert_eq!(total_sleep(&plan), 20 * second);
    assert_eq!(exit_code(false), 0);
}

#[test]
fn open_error_names_the_path() {
    let e = on_open_error(
        "non_existent_file.txt".to_string(),
        "No such file or directory (os error 2)".to_string(),
    );
    assert!(matches!(e, SlowCatError::FileOpen { .. }));
    assert_eq!(
        e.message(),
        "Error opening file \"non_existent_file.txt\": No such file or directory (os error 2)",
    );
    let report = e.report_line();
    assert_eq!(
        report,
        "Error: Error opening file \"non_existent_file.txt\": No such file or directory (os error 2)",
    );
    assert!(report.contains("non_existent_file.txt"));
    assert_ne!(exit_code(true), 0);
}

#[test]
fn read_error_names_the_path() {
    let session = FileSession::new("data.txt".to_string(), 7);
    let e = session.on_read_error("stream did not contain valid UTF-8".to_string());
    assert!(matches!(e, SlowCatError::FileRead { .. }));
    assert_eq!(
        e.message(),
        "Error reading from file \"data.txt\": stream did not contain valid UTF-8",
    );
    assert_eq!(exit_code(true), 1);
}

#[test]
fn session_plays_lines_as_chunks_complete_them() {
    let mut session = FileSession::new("a.txt".to_string(), 3);
    let first = session.on_chunk(&b"one\ntw".to_vec());
    assert_eq!(printed(&first), vec![b"one".to_vec()]);
    assert_eq!(total_sleep(&first), 3);
    let second = session.on_chunk(&b"o\n".to_vec());
    assert_eq!(printed(&second), vec![b"two".to_vec()]);
    let last = session.on_end();
    assert_eq!(last.len(), 0);
}

#[test]
fn session_plays_unterminated_line_at_end() {
    let mut session = FileSession::new("a.txt".to_string(), 4);
    assert_eq!(session.on_chunk(&b"a".to_vec()).len(), 0);
    let last = session.on_end();
    assert_eq!(printed(&last), vec![b"a".to_vec()]);
    assert_eq!(total_sleep(&last), 4);
}
