use rusted::ed::{Action, Ed};
use rusted::error::Error;

fn lines(strs: &[&str]) -> Vec<String> {
    strs.iter().map(|s| s.to_string()).collect()
}

#[test]
fn append_print_write_scenario() {
    let mut ed = Ed::new();
    // enter append mode at the default (current) position of the empty buffer
    assert_eq!(ed.run_line("a"), Ok(Action::Nothing));
    assert_eq!(ed.run_line("hello"), Ok(Action::Nothing));
    assert_eq!(ed.run_line("world"), Ok(Action::Nothing));
    assert_eq!(ed.run_line("."), Ok(Action::Nothing));
    // buffer is ["hello", "world"], cursor on line 2
    assert_eq!(ed.run_line("1p"), Ok(Action::Display(lines(&["hello"]))));
    // the default print range is the current line
    assert_eq!(ed.run_line("p"), Ok(Action::Display(lines(&["world"]))));
    // write both lines and remember the filename
    assert_eq!(
        ed.run_line("1,2wout.txt"),
        Ok(Action::WriteFile("out.txt".to_string(), lines(&["hello", "world"])))
    );
    // a bare write reuses the remembered filename and the full default range
    assert_eq!(
        ed.run_line("w"),
        Ok(Action::WriteFile("out.txt".to_string(), lines(&["hello", "world"])))
    );
}

#[test]
fn append_inserts_at_the_cursor() {
    let mut ed = Ed::new();
    assert_eq!(ed.run_line("a"), Ok(Action::Nothing));
    assert_eq!(ed.run_line("third"), Ok(Action::Nothing));
    assert_eq!(ed.run_line("."), Ok(Action::Nothing));
    // address 0 means: insert before the first line
    assert_eq!(ed.run_line("0a"), Ok(Action::Nothing));
    assert_eq!(ed.run_line("first"), Ok(Action::Nothing));
    assert_eq!(ed.run_line("second"), Ok(Action::Nothing));
    assert_eq!(ed.run_line("."), Ok(Action::Nothing));
    assert_eq!(
        ed.run_line(",p"),
        Ok(Action::Display(lines(&["first", "second", "third"])))
    );
}

#[test]
fn append_address_must_not_pass_the_end() {
    let mut ed = Ed::new();
    assert_eq!(ed.run_line("1a"), Err(Error::InvalidAddress));
    assert_eq!(ed.run_line("a"), Ok(Action::Nothing));
    assert_eq!(ed.run_line("only"), Ok(Action::Nothing));
    assert_eq!(ed.run_line("."), Ok(Action::Nothing));
    assert_eq!(ed.run_line("1a"), Ok(Action::Nothing));
    assert_eq!(ed.run_line("."), Ok(Action::Nothing));
    assert_eq!(ed.run_line("2a"), Err(Error::InvalidAddress));
}

#[test]
fn append_at_last_line() {
    let mut ed = Ed::new();
    assert_eq!(ed.run_line("a"), Ok(Action::Nothing));
    assert_eq!(ed.run_line("one"), Ok(Action::Nothing));
    assert_eq!(ed.run_line("two"), Ok(Action::Nothing));
    assert_eq!(ed.run_line("."), Ok(Action::Nothing));
    // `$` appends after the last line
    assert_eq!(ed.run_line("$a"), Ok(Action::Nothing));
    assert_eq!(ed.run_line("three"), Ok(Action::Nothing));
    assert_eq!(ed.run_line("."), Ok(Action::Nothing));
    assert_eq!(ed.run_line(",p"), Ok(Action::Display(lines(&["one", "two", "three"]))));
}

#[test]
fn print_out_of_range_fails() {
    let mut ed = Ed::new();
    assert_eq!(ed.run_line("a"), Ok(Action::Nothing));
    assert_eq!(ed.run_line("hello"), Ok(Action::Nothing));
    assert_eq!(ed.run_line("world"), Ok(Action::Nothing));
    assert_eq!(ed.run_line("."), Ok(Action::Nothing));
    // line 0 never exists
    assert_eq!(ed.run_line("0p"), Err(Error::InvalidAddress));
    assert_eq!(ed.run_line("0,1p"), Err(Error::InvalidAddress));
    // the buffer has two lines only
    assert_eq!(ed.run_line("3p"), Err(Error::InvalidAddress));
    assert_eq!(ed.run_line("1,3p"), Err(Error::InvalidAddress));
    // the buffer is untouched afterwards
    assert_eq!(ed.run_line(",p"), Ok(Action::Display(lines(&["hello", "world"]))));
}

#[test]
fn write_out_of_range_fails() {
    let mut ed = Ed::new();
    assert_eq!(ed.run_line("a"), Ok(Action::Nothing));
    assert_eq!(ed.run_line("hello"), Ok(Action::Nothing));
    assert_eq!(ed.run_line("."), Ok(Action::Nothing));
    assert_eq!(ed.run_line("0,1wout.txt"), Err(Error::InvalidAddress));
    assert_eq!(ed.run_line("2wout.txt"), Err(Error::InvalidAddress));
    // the filename given on the failing write was still remembered
    assert_eq!(
        ed.run_line("w"),
        Ok(Action::WriteFile("out.txt".to_string(), lines(&["hello"])))
    );
}

#[test]
fn write_without_filename_fails() {
    let mut ed = Ed::new();
    assert_eq!(ed.run_line("a"), Ok(Action::Nothing));
    assert_eq!(ed.run_line("hello"), Ok(Action::Nothing));
    assert_eq!(ed.run_line("."), Ok(Action::Nothing));
    assert_eq!(ed.run_line("w"), Err(Error::NoFilename));
    assert_eq!(ed.run_line("1,1w"), Err(Error::NoFilename));
    // nothing changed: the buffer still prints as before
    assert_eq!(ed.run_line(",p"), Ok(Action::Display(lines(&["hello"]))));
}

#[test]
fn write_on_empty_buffer_fails() {
    let mut ed = Ed::new();
    // the default write range starts at line 1, which does not exist yet
    assert_eq!(ed.run_line("wout.txt"), Err(Error::InvalidAddress));
}

#[test]
fn print_on_empty_buffer() {
    let mut ed = Ed::new();
    // the default range is the current line, 0: a span holding no line
    assert_eq!(ed.run_line("p"), Ok(Action::Display(lines(&[]))));
    assert_eq!(ed.run_line("1p"), Err(Error::InvalidAddress));
}

#[test]
fn quit_reports_quit() {
    let mut ed = Ed::new();
    assert_eq!(ed.run_line("q"), Ok(Action::Quit));
    // the permissive quit ignores address and suffix
    assert_eq!(ed.run_line("3qfoo"), Ok(Action::Quit));
}

#[test]
fn parse_errors_surface() {
    let mut ed = Ed::new();
    assert_eq!(ed.run_line(""), Err(Error::NoCommand));
    assert_eq!(ed.run_line("5z"), Err(Error::InvalidCommand));
    assert_eq!(ed.run_line("1,2a"), Err(Error::InvalidAddress));
}

#[test]
fn dot_only_ends_append_mode() {
    let mut ed = Ed::new();
    assert_eq!(ed.run_line("a"), Ok(Action::Nothing));
    // a line that merely contains a dot is still literal text
    assert_eq!(ed.run_line(".."), Ok(Action::Nothing));
    assert_eq!(ed.run_line("q"), Ok(Action::Nothing));
    assert_eq!(ed.run_line("."), Ok(Action::Nothing));
    assert_eq!(ed.run_line(",p"), Ok(Action::Display(lines(&["..", "q"]))));
}
