use rusted::addr::{Line, Range};
use rusted::cmd::Cmd;
use rusted::error::Error;

#[test]
fn simple() {
    assert_eq!(Cmd::from_str("a"), Ok(Cmd::Append(None)));
    assert_eq!(Cmd::from_str("1a"), Ok(Cmd::Append(Some(Line::Idx(1)))));
    assert!(Cmd::from_str("1,2a").is_err());
    assert_eq!(Cmd::from_str("p"), Ok(Cmd::Print(None)));
    assert_eq!(
        Cmd::from_str("1p"),
        Ok(Cmd::Print(Some(Range(Line::Idx(1), Line::Idx(1)))))
    );
    assert_eq!(
        Cmd::from_str("1,2p"),
        Ok(Cmd::Print(Some(Range(Line::Idx(1), Line::Idx(2)))))
    );
    assert_eq!(Cmd::from_str("q"), Ok(Cmd::Quit));
    assert_eq!(Cmd::from_str("w"), Ok(Cmd::Write(None, None)));
    assert_eq!(Cmd::from_str("wfoo"), Ok(Cmd::Write(None, Some("foo".to_string()))));
    assert_eq!(
        Cmd::from_str("1,2wbar"),
        Ok(Cmd::Write(Some(Range(Line::Idx(1), Line::Idx(2))), Some("bar".to_string())))
    );
}

#[test]
fn append_takes_a_single_line_only() {
    assert_eq!(Cmd::from_str("1,2a"), Err(Error::InvalidAddress));
    assert_eq!(Cmd::from_str(".a"), Ok(Cmd::Append(Some(Line::Current))));
    assert_eq!(Cmd::from_str("$a"), Ok(Cmd::Append(Some(Line::Last))));
}

#[test]
fn errors() {
    assert_eq!(Cmd::from_str(""), Err(Error::NoCommand));
    assert_eq!(Cmd::from_str("1,2"), Err(Error::NoCommand));
    assert_eq!(Cmd::from_str("5z"), Err(Error::InvalidCommand));
    assert_eq!(Cmd::from_str("xp"), Err(Error::InvalidCommand));
    assert_eq!(Cmd::from_str("%$#"), Err(Error::NoCommand));
}

#[test]
fn quit_is_permissive() {
    // the address and suffix around a `q` verb are not validated
    assert_eq!(Cmd::from_str("3qfoo"), Ok(Cmd::Quit));
    assert_eq!(Cmd::from_str("1,2q"), Ok(Cmd::Quit));
}

#[test]
fn range_shorthands_reach_commands() {
    assert_eq!(
        Cmd::from_str(",p"),
        Ok(Cmd::Print(Some(Range(Line::Idx(1), Line::Last))))
    );
    assert_eq!(
        Cmd::from_str(";p"),
        Ok(Cmd::Print(Some(Range(Line::Current, Line::Last))))
    );
}

#[test]
fn write_suffix_is_the_filename() {
    assert_eq!(
        Cmd::from_str("w out.txt"),
        Ok(Cmd::Write(None, Some(" out.txt".to_string())))
    );
    assert_eq!(
        Cmd::from_str("1,$wback up.txt"),
        Ok(Cmd::Write(
            Some(Range(Line::Idx(1), Line::Last)),
            Some("back up.txt".to_string())
        ))
    );
}
