use livepager::reader::LineReader;
use livepager::source::{
    assemble, AggregateSource, AnySource, ReadableSource, Source, SourceError, SourceSet,
};

struct Silent;

impl LineReader for Silent {
    fn read_line(&mut self, _buf: &mut String) -> std::io::Result<usize> {
        Ok(0)
    }
}

struct Tagged(u8);

impl LineReader for Tagged {
    fn read_line(&mut self, buf: &mut String) -> std::io::Result<usize> {
        buf.push(self.0 as char);
        Ok(1)
    }
}

fn readable(name: &str) -> AnySource<Silent> {
    AnySource::Readable(ReadableSource::new(name.to_string(), Silent))
}

fn aggregate(name: &str) -> AnySource<Silent> {
    AnySource::Aggregate(AggregateSource::new(name.to_string()))
}

fn two_files_and_an_aggregate() -> SourceSet<Silent> {
    let mut set = SourceSet::new();
    assert_eq!(set.add(readable("a")), 0);
    assert_eq!(set.add(readable("b")), 1);
    assert_eq!(set.add(aggregate("all")), 2);
    assert_eq!(set.register_listener(0, 2), Ok(()));
    assert_eq!(set.register_listener(1, 2), Ok(()));
    set
}

#[test]
fn a_new_source_is_empty() {
    let source = ReadableSource::new("log".to_string(), Silent);
    assert_eq!(source.get_name(), "log");
    assert_eq!(source.get_lines().len(), 0);
    let source = AggregateSource::new("aggregate".to_string());
    assert_eq!(source.get_name(), "aggregate");
    assert_eq!(source.get_lines().len(), 0);
}

#[test]
fn lines_are_appended_in_order() {
    let mut source = ReadableSource::new("log".to_string(), Silent);
    assert_eq!(source.add_line("one\r\n".to_string()), Ok(()));
    assert_eq!(source.add_line("two\r\n".to_string()), Ok(()));
    assert_eq!(source.get_lines(), &vec!["one\r\n".to_string(), "two\r\n".to_string()]);
    let mut source = AggregateSource::new("aggregate".to_string());
    assert_eq!(source.add_line("one\r\n".to_string()), Ok(()));
    assert_eq!(source.add_line("two\r\n".to_string()), Ok(()));
    assert_eq!(source.get_lines(), &vec!["one\r\n".to_string(), "two\r\n".to_string()]);
    assert_eq!(source.get_name(), "aggregate");
}

#[test]
fn an_aggregate_takes_no_listeners() {
    let mut source = AggregateSource::new("aggregate".to_string());
    assert_eq!(
        source.add_listener(0),
        Err("This source does not support listeners".to_string())
    );
    let mut any = aggregate("aggregate");
    assert_eq!(any.add_listener(3), Err("This source does not support listeners".to_string()));
    assert_eq!(any.listener_count(), 0);
    assert!(!any.is_readable());
}

#[test]
fn a_listener_is_registered_once() {
    let mut source = readable("log");
    assert_eq!(source.add_listener(4), Ok(()));
    assert_eq!(source.add_listener(2), Ok(()));
    assert_eq!(source.add_listener(4), Ok(()));
    assert_eq!(source.listener_count(), 2);
    assert_eq!(source.listener_at(0), 4);
    assert_eq!(source.listener_at(1), 2);
    assert!(source.is_readable());
}

#[test]
fn the_stream_of_a_source_is_taken_once() {
    let mut source = ReadableSource::new("log".to_string(), Tagged(b'x'));
    let mut reader = source.take_reader().unwrap();
    let mut buf = String::new();
    assert_eq!(reader.read_line(&mut buf).unwrap(), 1);
    assert_eq!(buf, "x");
    assert!(source.take_reader().is_none());
    assert_eq!(source.get_name(), "log");
}

#[test]
fn an_aggregate_merges_in_order_of_arrival() {
    let mut set = two_files_and_an_aggregate();
    assert_eq!(set.append(0, "A0\r\n".to_string()), Ok(()));
    assert_eq!(set.append(1, "B0\r\n".to_string()), Ok(()));
    assert_eq!(set.append(0, "A1\r\n".to_string()), Ok(()));
    assert_eq!(
        set.lines(2),
        &vec!["A0\r\n".to_string(), "B0\r\n".to_string(), "A1\r\n".to_string()]
    );
    assert_eq!(set.lines(0), &vec!["A0\r\n".to_string(), "A1\r\n".to_string()]);
    assert_eq!(set.lines(1), &vec!["B0\r\n".to_string()]);
}

#[test]
fn a_line_appended_to_an_aggregate_stays_there() {
    let mut set = two_files_and_an_aggregate();
    assert_eq!(set.append(2, "note\r\n".to_string()), Ok(()));
    assert_eq!(set.lines(2), &vec!["note\r\n".to_string()]);
    assert_eq!(set.lines(0).len(), 0);
    assert_eq!(set.lines(1).len(), 0);
}

#[test]
fn a_source_without_listeners_keeps_its_lines_to_itself() {
    let mut set = SourceSet::new();
    set.add(readable("a"));
    set.add(readable("b"));
    set.add(aggregate("all"));
    assert_eq!(set.register_listener(1, 2), Ok(()));
    assert_eq!(set.append(0, "A0\r\n".to_string()), Ok(()));
    assert_eq!(set.append(1, "B0\r\n".to_string()), Ok(()));
    assert_eq!(set.lines(0), &vec!["A0\r\n".to_string()]);
    assert_eq!(set.lines(2), &vec!["B0\r\n".to_string()]);
}

#[test]
fn appending_to_an_unknown_source_is_an_error() {
    let mut set = two_files_and_an_aggregate();
    assert_eq!(set.append(3, "x\r\n".to_string()), Err(SourceError::UnknownSource));
    assert_eq!(set.append(usize::MAX, "x\r\n".to_string()), Err(SourceError::UnknownSource));
    assert_eq!(set.lines(0).len() + set.lines(1).len() + set.lines(2).len(), 0);
    let mut empty: SourceSet<Silent> = SourceSet::new();
    assert_eq!(empty.append(0, "x\r\n".to_string()), Err(SourceError::UnknownSource));
}

#[test]
fn registrations_are_checked() {
    let mut set = two_files_and_an_aggregate();
    assert_eq!(set.register_listener(7, 2), Err(SourceError::UnknownSource));
    assert_eq!(set.register_listener(0, 7), Err(SourceError::UnknownSource));
    assert_eq!(set.register_listener(2, 2), Err(SourceError::ListenersUnsupported));
    assert_eq!(set.register_listener(2, 0), Err(SourceError::ListenersUnsupported));
    assert_eq!(set.register_listener(0, 1), Err(SourceError::ListenerHasReader));
    assert_eq!(set.register_listener(0, 0), Err(SourceError::ListenerHasReader));
    assert_eq!(set.register_listener(0, 2), Ok(()));
    assert_eq!(set.append(0, "once\r\n".to_string()), Ok(()));
    assert_eq!(set.lines(2), &vec!["once\r\n".to_string()]);
}

#[test]
fn the_set_knows_where_lines_land() {
    let set = two_files_and_an_aggregate();
    assert!(set.feeds(0, 0));
    assert!(set.feeds(0, 2));
    assert!(set.feeds(1, 2));
    assert!(set.feeds(2, 2));
    assert!(!set.feeds(0, 1));
    assert!(!set.feeds(1, 0));
    assert!(!set.feeds(2, 0));
    assert!(!set.feeds(0, 9));
    assert_eq!(set.len(), 3);
    assert_eq!(set.name(0), "a");
    assert_eq!(set.name(2), "all");
}

#[test]
fn no_stream_makes_no_session() {
    let inputs: Vec<(String, Silent)> = Vec::new();
    assert!(matches!(assemble(inputs), Err(SourceError::NoSources)));
}

#[test]
fn a_single_stream_is_the_only_source() {
    let mut set = assemble(vec![("stdin".to_string(), Silent)]).ok().unwrap();
    assert_eq!(set.len(), 1);
    assert_eq!(set.name(0), "stdin");
    assert_eq!(set.append(0, "x\r\n".to_string()), Ok(()));
    assert_eq!(set.lines(0), &vec!["x\r\n".to_string()]);
    assert!(set.take_reader(0).is_some());
    assert!(set.take_reader(0).is_none());
    assert!(set.take_reader(1).is_none());
}

#[test]
fn several_streams_get_an_aggregate_in_front() {
    let inputs = vec![
        ("a.log".to_string(), Tagged(b'a')),
        ("b.log".to_string(), Tagged(b'b')),
        ("c.log".to_string(), Tagged(b'c')),
    ];
    let mut set = assemble(inputs).ok().unwrap();
    assert_eq!(set.len(), 4);
    assert_eq!(set.name(0), "aggregate");
    assert_eq!(set.name(1), "a.log");
    assert_eq!(set.name(2), "b.log");
    assert_eq!(set.name(3), "c.log");
    assert!(set.take_reader(0).is_none());
    let mut buf = String::new();
    for place in 1..4 {
        let mut reader = set.take_reader(place).unwrap();
        reader.read_line(&mut buf).unwrap();
    }
    assert_eq!(buf, "abc");
    assert_eq!(set.append(2, "B0\r\n".to_string()), Ok(()));
    assert_eq!(set.append(3, "C0\r\n".to_string()), Ok(()));
    assert_eq!(set.append(1, "A0\r\n".to_string()), Ok(()));
    assert_eq!(set.append(2, "B1\r\n".to_string()), Ok(()));
    assert_eq!(
        set.lines(0),
        &vec![
            "B0\r\n".to_string(),
            "C0\r\n".to_string(),
            "A0\r\n".to_string(),
            "B1\r\n".to_string()
        ]
    );
    assert_eq!(set.lines(2), &vec!["B0\r\n".to_string(), "B1\r\n".to_string()]);
}
