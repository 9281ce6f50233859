use livepager::controller::{
    capacity, jump_to_match, page_by, wanted_line, Controller, Mode, Update,
};
use livepager::layout::Row;
use livepager::messaging::{Key, KeyPress, TerminalThreadMessage};
use livepager::reader::LineReader;
use livepager::source::{assemble, SourceError, SourceSet};

struct Silent;

impl LineReader for Silent {
    fn read_line(&mut self, _buf: &mut String) -> std::io::Result<usize> {
        Ok(0)
    }
}

fn one_source(n: usize) -> SourceSet<Silent> {
    let mut set = assemble(vec![("log".to_string(), Silent)]).ok().unwrap();
    for i in 0..n {
        set.append(0, format!("line {}\r\n", i + 1)).unwrap();
    }
    set
}

fn fruit() -> SourceSet<Silent> {
    let mut set = assemble(vec![("fruit".to_string(), Silent)]).ok().unwrap();
    set.append(0, "apple\r\n".to_string()).unwrap();
    set.append(0, "Banana\r\n".to_string()).unwrap();
    set.append(0, "apple pie\r\n".to_string()).unwrap();
    set
}

fn two_files() -> SourceSet<Silent> {
    assemble(vec![("a.log".to_string(), Silent), ("b.log".to_string(), Silent)]).ok().unwrap()
}

fn controller(set: &SourceSet<Silent>) -> Controller {
    Controller::new(set, 80, 24).ok().unwrap()
}

fn key(k: Key) -> TerminalThreadMessage {
    TerminalThreadMessage::KeyEvent(KeyPress { key: k, shift: false, pressed: true })
}

fn ch(c: char) -> TerminalThreadMessage {
    key(Key::Char(c))
}

fn type_text(c: &mut Controller, set: &SourceSet<Silent>, text: &str) -> Update {
    let mut last = Update::nothing();
    for letter in text.chars() {
        last = c.step(ch(letter), set);
    }
    last
}

fn shown_lines(update: &Update) -> Vec<usize> {
    let rows: &Vec<Row> = update.frame.as_ref().unwrap();
    let mut lines: Vec<usize> = rows.iter().map(|r| r.line).collect();
    lines.dedup();
    lines
}

fn marked_lines(update: &Update) -> Vec<usize> {
    let rows: &Vec<Row> = update.frame.as_ref().unwrap();
    rows.iter().filter(|r| r.highlight).map(|r| r.line).collect()
}

fn is_silent(update: &Update) -> bool {
    !update.quit && update.frame.is_none() && update.status.is_none() && update.highlight.is_none()
}

#[test]
fn the_viewport_has_one_row_less_than_the_terminal() {
    assert_eq!(capacity(24), 23);
    assert_eq!(capacity(1), 0);
    assert_eq!(capacity(0), 0);
}

#[test]
fn a_controller_needs_a_source() {
    let empty: SourceSet<Silent> = SourceSet::new();
    assert!(matches!(Controller::new(&empty, 80, 24), Err(SourceError::NoSources)));
}

#[test]
fn a_short_source_is_followed_from_the_start() {
    let set = one_source(5);
    let c = controller(&set);
    assert_eq!(c.anchors(), &vec![None]);
    assert_eq!(c.active(), 0);
    assert_eq!(c.mode(), Mode::Normal);
    assert_eq!(c.size(), (80, 24));
    assert!(c.serves(&set));
}

#[test]
fn a_long_source_starts_pinned_to_its_top() {
    let set = one_source(24);
    assert_eq!(controller(&set).anchors(), &vec![Some(0)]);
    let set = one_source(23);
    assert_eq!(controller(&set).anchors(), &vec![None]);
    let mut set = two_files();
    set.append(1, "x\r\n".to_string()).unwrap();
    assert_eq!(controller(&set).anchors(), &vec![None, Some(0), Some(0)]);
    assert!(!controller(&set).serves(&one_source(1)));
}

#[test]
fn quitting_keys_quit() {
    let set = one_source(50);
    for message in [ch('q'), ch('Q'), key(Key::Esc)] {
        let mut c = controller(&set);
        let update = c.step(message, &set);
        assert!(update.quit);
        assert!(update.frame.is_none());
        assert_eq!(c.mode(), Mode::Normal);
        assert_eq!(c.anchors(), &vec![Some(0)]);
    }
}

#[test]
fn keys_that_are_released_are_not_acted_on() {
    let set = one_source(50);
    let mut c = controller(&set);
    let release = KeyPress { key: Key::Char('q'), shift: false, pressed: false };
    assert!(is_silent(&c.step(TerminalThreadMessage::KeyEvent(release), &set)));
    let release = KeyPress { key: Key::Down, shift: false, pressed: false };
    assert!(is_silent(&c.step(TerminalThreadMessage::KeyEvent(release), &set)));
    assert_eq!(c.anchors(), &vec![Some(0)]);
}

#[test]
fn keys_without_a_meaning_do_nothing() {
    let set = one_source(50);
    let mut c = controller(&set);
    for message in [ch('x'), ch('n'), key(Key::Left), key(Key::Backspace), key(Key::Other)] {
        assert!(is_silent(&c.step(message, &set)));
    }
    assert_eq!(c.mode(), Mode::Normal);
}

#[test]
fn arrow_keys_scroll_by_one_row() {
    let set = one_source(100);
    let mut c = controller(&set);
    let update = c.step(key(Key::Down), &set);
    assert_eq!(c.anchors(), &vec![Some(1)]);
    assert_eq!(shown_lines(&update), (1..24).collect::<Vec<usize>>());
    assert!(update.status.is_none());
    c.step(key(Key::Down), &set);
    let update = c.step(key(Key::Up), &set);
    assert_eq!(c.anchors(), &vec![Some(1)]);
    assert_eq!(shown_lines(&update), (1..24).collect::<Vec<usize>>());
    c.step(key(Key::Up), &set);
    c.step(key(Key::Up), &set);
    assert_eq!(c.anchors(), &vec![Some(0)]);
}

#[test]
fn page_keys_scroll_by_ten_rows() {
    let set = one_source(100);
    for message in [ch('d'), ch('D'), ch(' '), key(Key::PageDown)] {
        let mut c = controller(&set);
        let update = c.step(message, &set);
        assert_eq!(c.anchors(), &vec![Some(10)]);
        assert_eq!(shown_lines(&update), (10..33).collect::<Vec<usize>>());
    }
    for message in [ch('u'), ch('U'), key(Key::PageUp)] {
        let mut c = controller(&set);
        c.step(key(Key::PageDown), &set);
        c.step(key(Key::PageDown), &set);
        c.step(key(Key::Down), &set);
        c.step(message, &set);
        assert_eq!(c.anchors(), &vec![Some(11)]);
    }
}

#[test]
fn scrolling_past_the_end_lets_go_of_the_anchor() {
    let set = one_source(30);
    let mut c = controller(&set);
    c.step(key(Key::PageDown), &set);
    c.step(key(Key::PageDown), &set);
    assert_eq!(c.anchors(), &vec![Some(20)]);
    let update = c.step(key(Key::PageDown), &set);
    assert_eq!(c.anchors(), &vec![None]);
    assert_eq!(shown_lines(&update), (7..30).collect::<Vec<usize>>());
    c.step(key(Key::Down), &set);
    assert_eq!(c.anchors(), &vec![None]);
}

#[test]
fn scrolling_up_from_the_tail_moves_by_the_rows_asked_for() {
    let set = one_source(100);
    let mut c = controller(&set);
    c.step(key(Key::Enter), &set);
    assert_eq!(c.anchors(), &vec![None]);
    let update = c.step(key(Key::Up), &set);
    assert_eq!(c.anchors(), &vec![Some(76)]);
    assert_eq!(shown_lines(&update), (76..99).collect::<Vec<usize>>());
    c.step(key(Key::Enter), &set);
    c.step(key(Key::PageUp), &set);
    assert_eq!(c.anchors(), &vec![Some(67)]);
}

#[test]
fn enter_resumes_following_the_tail() {
    let set = one_source(100);
    let mut c = controller(&set);
    let update = c.step(key(Key::Enter), &set);
    assert_eq!(c.anchors(), &vec![None]);
    assert_eq!(shown_lines(&update), (77..100).collect::<Vec<usize>>());
    assert!(update.highlight.is_none());
}

#[test]
fn shift_g_follows_the_tail() {
    let set = one_source(100);
    let mut c = controller(&set);
    let shifted = KeyPress { key: Key::Char('G'), shift: true, pressed: true };
    let update = c.step(TerminalThreadMessage::KeyEvent(shifted), &set);
    assert_eq!(c.anchors(), &vec![None]);
    assert_eq!(c.mode(), Mode::Normal);
    assert_eq!(shown_lines(&update), (77..100).collect::<Vec<usize>>());
}

#[test]
fn g_opens_the_line_prompt() {
    let set = one_source(50);
    let mut c = controller(&set);
    let update = c.step(ch('g'), &set);
    assert_eq!(c.mode(), Mode::GotoLinePrompt);
    assert_eq!(update.status, Some("Go to line: ".to_string()));
    assert!(update.frame.is_none());
    assert_eq!(c.digits(), "");
}

#[test]
fn goto_line_marks_the_line_and_keeps_a_page_above_it() {
    let set = one_source(50);
    let mut c = controller(&set);
    c.step(ch('g'), &set);
    let update = c.step(ch('2'), &set);
    assert_eq!(update.status, Some("Go to line: 2".to_string()));
    let update = c.step(ch('5'), &set);
    assert_eq!(update.status, Some("Go to line: 25".to_string()));
    assert_eq!(c.digits(), "25");
    let update = c.step(key(Key::Enter), &set);
    assert_eq!(update.highlight, Some(24));
    assert_eq!(c.anchors(), &vec![Some(14)]);
    assert_eq!(c.mode(), Mode::Normal);
    assert_eq!(shown_lines(&update), (14..37).collect::<Vec<usize>>());
    assert_eq!(marked_lines(&update), vec![24]);
    assert_eq!(update.frame.as_ref().unwrap()[10].text, "line 25\r\n");
    assert!(update.status.is_none());
    assert_eq!(c.digits(), "");
}

#[test]
fn the_mark_is_gone_with_the_next_action() {
    let set = one_source(50);
    let mut c = controller(&set);
    c.step(ch('g'), &set);
    type_text(&mut c, &set, "25");
    c.step(key(Key::Enter), &set);
    let update = c.step(key(Key::Down), &set);
    assert_eq!(update.highlight, None);
    assert_eq!(marked_lines(&update), Vec::<usize>::new());
    assert_eq!(c.anchors(), &vec![Some(15)]);
}

#[test]
fn goto_line_near_the_top_pins_the_first_line() {
    let set = one_source(50);
    let mut c = controller(&set);
    c.step(key(Key::PageDown), &set);
    c.step(ch('g'), &set);
    type_text(&mut c, &set, "3");
    let update = c.step(key(Key::Enter), &set);
    assert_eq!(update.highlight, Some(2));
    assert_eq!(c.anchors(), &vec![Some(0)]);
    c.step(ch('g'), &set);
    type_text(&mut c, &set, "0");
    let update = c.step(key(Key::Enter), &set);
    assert_eq!(update.highlight, Some(0));
    assert_eq!(c.anchors(), &vec![Some(0)]);
}

#[test]
fn goto_line_reaches_the_last_line() {
    let set = one_source(50);
    let mut c = controller(&set);
    c.step(ch('g'), &set);
    type_text(&mut c, &set, "50");
    let update = c.step(key(Key::Enter), &set);
    assert_eq!(update.highlight, Some(49));
    assert_eq!(c.anchors(), &vec![Some(39)]);
    assert_eq!(shown_lines(&update), (27..50).collect::<Vec<usize>>());
    assert_eq!(marked_lines(&update), vec![49]);
}

#[test]
fn a_line_number_beyond_the_end_is_ignored() {
    let set = one_source(50);
    for number in ["51", "99", "99999999999999999999999999999"] {
        let mut c = controller(&set);
        c.step(key(Key::Down), &set);
        c.step(ch('g'), &set);
        type_text(&mut c, &set, number);
        let update = c.step(key(Key::Enter), &set);
        assert_eq!(update.highlight, None);
        assert_eq!(c.anchors(), &vec![Some(1)]);
        assert_eq!(c.mode(), Mode::Normal);
        assert_eq!(shown_lines(&update), (1..24).collect::<Vec<usize>>());
        assert_eq!(marked_lines(&update), Vec::<usize>::new());
    }
}

#[test]
fn the_line_prompt_takes_digits_only() {
    let set = one_source(50);
    let mut c = controller(&set);
    c.step(ch('g'), &set);
    assert!(is_silent(&c.step(ch('x'), &set)));
    assert!(is_silent(&c.step(ch('-'), &set)));
    assert!(is_silent(&c.step(ch('\u{664}'), &set)));
    assert!(is_silent(&c.step(key(Key::Down), &set)));
    assert_eq!(c.digits(), "");
    assert_eq!(c.mode(), Mode::GotoLinePrompt);
    assert_eq!(c.anchors(), &vec![Some(0)]);
}

#[test]
fn backspace_edits_the_line_prompt_and_gives_it_up_when_empty() {
    let set = one_source(50);
    let mut c = controller(&set);
    c.step(key(Key::PageDown), &set);
    c.step(ch('g'), &set);
    type_text(&mut c, &set, "12");
    let update = c.step(key(Key::Backspace), &set);
    assert_eq!(update.status, Some("Go to line: 1".to_string()));
    let update = c.step(key(Key::Backspace), &set);
    assert_eq!(update.status, Some("Go to line: ".to_string()));
    assert_eq!(c.mode(), Mode::GotoLinePrompt);
    let update = c.step(key(Key::Backspace), &set);
    assert_eq!(c.mode(), Mode::Normal);
    assert_eq!(c.anchors(), &vec![Some(10)]);
    assert_eq!(update.highlight, None);
    assert_eq!(shown_lines(&update), (10..33).collect::<Vec<usize>>());
}

#[test]
fn escape_gives_the_line_prompt_up() {
    let set = one_source(50);
    let mut c = controller(&set);
    c.step(key(Key::PageDown), &set);
    c.step(ch('g'), &set);
    type_text(&mut c, &set, "40");
    let update = c.step(key(Key::Esc), &set);
    assert!(!update.quit);
    assert_eq!(c.mode(), Mode::Normal);
    assert_eq!(c.anchors(), &vec![Some(10)]);
    assert_eq!(update.highlight, None);
    assert_eq!(marked_lines(&update), Vec::<usize>::new());
}

#[test]
fn enter_on_an_empty_line_prompt_moves_nothing() {
    let set = one_source(50);
    let mut c = controller(&set);
    c.step(key(Key::PageDown), &set);
    c.step(ch('g'), &set);
    let update = c.step(key(Key::Enter), &set);
    assert_eq!(c.mode(), Mode::Normal);
    assert_eq!(c.anchors(), &vec![Some(10)]);
    assert_eq!(update.highlight, None);
}

#[test]
fn a_second_g_goes_to_the_first_line() {
    let set = one_source(50);
    let mut c = controller(&set);
    c.step(key(Key::PageDown), &set);
    c.step(ch('g'), &set);
    let update = c.step(ch('g'), &set);
    assert_eq!(c.mode(), Mode::Normal);
    assert_eq!(c.anchors(), &vec![Some(0)]);
    assert_eq!(update.highlight, Some(0));
    assert_eq!(marked_lines(&update), vec![0]);
}

#[test]
fn the_search_prompts_open() {
    let set = fruit();
    let mut c = controller(&set);
    let update = c.step(ch('/'), &set);
    assert_eq!(c.mode(), Mode::SearchPrompt);
    assert!(!c.is_regex());
    assert_eq!(update.status, Some("Search: ".to_string()));
    assert!(update.frame.is_none());
    for letter in ['r', 'R'] {
        let mut c = controller(&set);
        let update = c.step(ch(letter), &set);
        assert_eq!(c.mode(), Mode::SearchPrompt);
        assert!(c.is_regex());
        assert_eq!(update.status, Some("Regex: ".to_string()));
    }
}

#[test]
fn the_search_prompt_takes_every_character() {
    let set = fruit();
    let mut c = controller(&set);
    c.step(ch('/'), &set);
    let update = type_text(&mut c, &set, "q g/r 9");
    assert_eq!(c.query(), "q g/r 9");
    assert_eq!(update.status, Some("Search: q g/r 9".to_string()));
    assert_eq!(c.mode(), Mode::SearchPrompt);
    let update = c.step(key(Key::Backspace), &set);
    assert_eq!(update.status, Some("Search: q g/r ".to_string()));
    assert!(is_silent(&c.step(key(Key::Up), &set)));
    assert_eq!(c.anchors(), &vec![None]);
}

#[test]
fn a_plain_search_walks_through_its_matches() {
    let set = fruit();
    let mut c = controller(&set);
    c.step(ch('/'), &set);
    type_text(&mut c, &set, "apple");
    let update = c.step(key(Key::Enter), &set);
    assert_eq!(c.mode(), Mode::SearchNavigate);
    assert_eq!(c.matches(), &vec![0, 2]);
    assert_eq!(c.match_cursor(), 0);
    assert_eq!(update.highlight, Some(0));
    assert_eq!(update.status, Some("Match 1/2 on line 1".to_string()));
    assert_eq!(marked_lines(&update), vec![0]);
    assert_eq!(c.anchors(), &vec![Some(0)]);
    let update = c.step(ch('n'), &set);
    assert_eq!(c.match_cursor(), 1);
    assert_eq!(update.highlight, Some(2));
    assert_eq!(update.status, Some("Match 2/2 on line 3".to_string()));
    assert_eq!(marked_lines(&update), vec![2]);
    let update = c.step(ch('n'), &set);
    assert_eq!(c.match_cursor(), 0);
    assert_eq!(update.status, Some("Match 1/2 on line 1".to_string()));
    let update = c.step(ch('p'), &set);
    assert_eq!(c.match_cursor(), 1);
    assert_eq!(update.status, Some("Match 2/2 on line 3".to_string()));
    let update = c.step(ch('p'), &set);
    assert_eq!(c.match_cursor(), 0);
    assert_eq!(update.highlight, Some(0));
}

#[test]
fn arrows_and_enter_walk_through_the_matches() {
    let set = fruit();
    for forward in [Key::Down, Key::Right, Key::Enter] {
        let mut c = controller(&set);
        c.step(ch('/'), &set);
        type_text(&mut c, &set, "apple");
        c.step(key(Key::Enter), &set);
        assert_eq!(c.step(key(forward), &set).highlight, Some(2));
    }
    for backward in [Key::Up, Key::Left] {
        let mut c = controller(&set);
        c.step(ch('/'), &set);
        type_text(&mut c, &set, "an");
        c.step(key(Key::Enter), &set);
        assert_eq!(c.matches(), &vec![1]);
        let update = c.step(key(backward), &set);
        assert_eq!(update.highlight, Some(1));
        assert_eq!(update.status, Some("Match 1/1 on line 2".to_string()));
    }
}

#[test]
fn a_regex_search_walks_through_its_matches() {
    let set = fruit();
    let mut c = controller(&set);
    c.step(ch('r'), &set);
    let update = type_text(&mut c, &set, "^B.*");
    assert_eq!(update.status, Some("Regex: ^B.*".to_string()));
    let update = c.step(key(Key::Enter), &set);
    assert_eq!(c.mode(), Mode::SearchNavigate);
    assert_eq!(c.matches(), &vec![1]);
    assert_eq!(update.highlight, Some(1));
    assert_eq!(update.status, Some("Match 1/1 on line 2".to_string()));
}

#[test]
fn a_search_without_matches_says_so() {
    let set = fruit();
    for (opener, query) in [('/', "cherry"), ('r', "(apple"), ('r', "^b")] {
        let mut c = controller(&set);
        c.step(ch(opener), &set);
        type_text(&mut c, &set, query);
        let update = c.step(key(Key::Enter), &set);
        assert_eq!(c.mode(), Mode::Normal);
        assert_eq!(update.status, Some("No matches".to_string()));
        assert_eq!(update.highlight, None);
        assert_eq!(c.anchors(), &vec![None]);
        assert_eq!(c.matches().len(), 0);
        assert_eq!(c.query(), "");
    }
}

#[test]
fn the_query_is_searched_without_the_space_around_it() {
    let set = fruit();
    let mut c = controller(&set);
    c.step(ch('/'), &set);
    type_text(&mut c, &set, "  pie ");
    c.step(key(Key::Enter), &set);
    assert_eq!(c.matches(), &vec![2]);
}

#[test]
fn a_match_keeps_a_page_above_it() {
    let mut set = one_source(40);
    set.append(0, "needle\r\n".to_string()).unwrap();
    for _ in 0..40 {
        set.append(0, "hay\r\n".to_string()).unwrap();
    }
    let mut c = controller(&set);
    c.step(ch('/'), &set);
    type_text(&mut c, &set, "NEEDLE");
    let update = c.step(key(Key::Enter), &set);
    assert_eq!(c.matches(), &vec![40]);
    assert_eq!(c.anchors(), &vec![Some(30)]);
    assert_eq!(update.status, Some("Match 1/1 on line 41".to_string()));
    assert_eq!(shown_lines(&update), (30..53).collect::<Vec<usize>>());
    assert_eq!(marked_lines(&update), vec![40]);
}

#[test]
fn leaving_a_search_keeps_the_anchor_of_the_last_match() {
    let mut set = one_source(40);
    set.append(0, "needle\r\n".to_string()).unwrap();
    for _ in 0..40 {
        set.append(0, "hay\r\n".to_string()).unwrap();
    }
    for leave in [key(Key::Esc), ch('q')] {
        let mut c = controller(&set);
        c.step(ch('/'), &set);
        type_text(&mut c, &set, "needle");
        c.step(key(Key::Enter), &set);
        let update = c.step(leave, &set);
        assert!(!update.quit);
        assert_eq!(c.mode(), Mode::Normal);
        assert_eq!(c.anchors(), &vec![Some(30)]);
        assert_eq!(update.highlight, None);
        assert_eq!(marked_lines(&update), Vec::<usize>::new());
        assert_eq!(c.matches().len(), 0);
    }
}

#[test]
fn giving_a_search_prompt_up_moves_nothing() {
    let set = one_source(50);
    let mut c = controller(&set);
    c.step(key(Key::PageDown), &set);
    c.step(ch('/'), &set);
    type_text(&mut c, &set, "line 4");
    let update = c.step(key(Key::Esc), &set);
    assert_eq!(c.mode(), Mode::Normal);
    assert_eq!(c.anchors(), &vec![Some(10)]);
    assert_eq!(shown_lines(&update), (10..33).collect::<Vec<usize>>());
    c.step(ch('r'), &set);
    type_text(&mut c, &set, "x");
    c.step(key(Key::Backspace), &set);
    assert_eq!(c.mode(), Mode::SearchPrompt);
    let update = c.step(key(Key::Backspace), &set);
    assert_eq!(c.mode(), Mode::Normal);
    assert_eq!(c.anchors(), &vec![Some(10)]);
    assert_eq!(update.highlight, None);
}

#[test]
fn matches_are_not_refreshed_while_walking_through_them() {
    let mut set = fruit();
    let mut c = controller(&set);
    c.step(ch('/'), &set);
    type_text(&mut c, &set, "apple");
    c.step(key(Key::Enter), &set);
    set.append(0, "apple sauce\r\n".to_string()).unwrap();
    assert!(is_silent(&c.step(TerminalThreadMessage::Read(0), &set)));
    let update = c.step(ch('n'), &set);
    assert_eq!(c.matches(), &vec![0, 2]);
    assert_eq!(update.status, Some("Match 2/2 on line 3".to_string()));
}

#[test]
fn s_switches_between_sources() {
    let mut set = two_files();
    for i in 0..30 {
        set.append(1, format!("a {}\r\n", i)).unwrap();
    }
    set.append(2, "b 0\r\n".to_string()).unwrap();
    let mut c = controller(&set);
    assert_eq!(c.anchors(), &vec![Some(0), Some(0), Some(0)]);
    c.step(key(Key::PageDown), &set);
    let update = c.step(ch('s'), &set);
    assert_eq!(c.active(), 1);
    assert_eq!(update.status, Some("Switched to source: a.log".to_string()));
    assert_eq!(shown_lines(&update), (0..23).collect::<Vec<usize>>());
    c.step(key(Key::Down), &set);
    let update = c.step(ch('S'), &set);
    assert_eq!(c.active(), 2);
    assert_eq!(update.status, Some("Switched to source: b.log".to_string()));
    assert_eq!(update.frame.as_ref().unwrap().len(), 1);
    let update = c.step(ch('s'), &set);
    assert_eq!(c.active(), 0);
    assert_eq!(update.status, Some("Switched to source: aggregate".to_string()));
    assert_eq!(c.anchors(), &vec![Some(10), Some(1), Some(0)]);
    assert_eq!(shown_lines(&update), (8..31).collect::<Vec<usize>>());
}

#[test]
fn a_single_source_has_nothing_to_switch_to() {
    let set = one_source(50);
    let mut c = controller(&set);
    assert!(is_silent(&c.step(ch('s'), &set)));
    assert!(is_silent(&c.step(ch('S'), &set)));
    assert_eq!(c.active(), 0);
}

#[test]
fn a_new_line_is_drawn_while_the_tail_is_followed() {
    let mut set = one_source(30);
    let mut c = controller(&set);
    c.step(key(Key::Enter), &set);
    set.append(0, "the newcomer\r\n".to_string()).unwrap();
    let update = c.step(TerminalThreadMessage::Read(0), &set);
    let rows = update.frame.as_ref().unwrap();
    assert_eq!(rows.len(), 23);
    assert_eq!(rows[22].text, "the newcomer\r\n");
    assert_eq!(rows[22].line, 30);
    assert_eq!(c.anchors(), &vec![None]);
    assert!(update.status.is_none());
}

#[test]
fn a_new_line_is_not_drawn_while_the_viewport_is_pinned() {
    let mut set = one_source(30);
    let mut c = controller(&set);
    assert_eq!(c.anchors(), &vec![Some(0)]);
    set.append(0, "the newcomer\r\n".to_string()).unwrap();
    assert!(is_silent(&c.step(TerminalThreadMessage::Read(0), &set)));
    assert_eq!(c.anchors(), &vec![Some(0)]);
}

#[test]
fn a_new_line_of_another_source_is_not_drawn() {
    let mut set = two_files();
    let mut c = controller(&set);
    c.step(ch('s'), &set);
    assert_eq!(c.anchors(), &vec![None, Some(0), Some(0)]);
    c.step(key(Key::Enter), &set);
    assert_eq!(c.active(), 1);
    set.append(2, "b 0\r\n".to_string()).unwrap();
    assert!(is_silent(&c.step(TerminalThreadMessage::Read(2), &set)));
    assert!(is_silent(&c.step(TerminalThreadMessage::Read(0), &set)));
    assert!(is_silent(&c.step(TerminalThreadMessage::Read(9), &set)));
    set.append(1, "a 0\r\n".to_string()).unwrap();
    let update = c.step(TerminalThreadMessage::Read(1), &set);
    assert_eq!(update.frame.as_ref().unwrap().len(), 1);
}

#[test]
fn a_line_that_reaches_the_aggregate_is_drawn_there() {
    let mut set = two_files();
    let mut c = controller(&set);
    assert_eq!(c.active(), 0);
    set.append(2, "b 0\r\n".to_string()).unwrap();
    let update = c.step(TerminalThreadMessage::Read(2), &set);
    let rows = update.frame.as_ref().unwrap();
    assert_eq!(rows.len(), 1);
    assert_eq!(rows[0].text, "b 0\r\n");
}

#[test]
fn a_new_size_is_drawn_at_once() {
    let set = one_source(100);
    let mut c = controller(&set);
    c.step(key(Key::PageDown), &set);
    let update = c.step(TerminalThreadMessage::Resize(40, 11), &set);
    assert_eq!(c.size(), (40, 11));
    assert_eq!(shown_lines(&update), (10..20).collect::<Vec<usize>>());
    assert_eq!(c.anchors(), &vec![Some(10)]);
    let update = c.step(TerminalThreadMessage::Resize(3, 5), &set);
    let rows = update.frame.as_ref().unwrap();
    assert_eq!(rows.len(), 4);
    assert_eq!(rows[0].text, "lin\r\n");
    assert_eq!(rows[1].text, "e 1\r\n");
    assert_eq!(rows[2].text, "1\r\n");
    assert_eq!(rows[3].text, "lin\r\n");
}

#[test]
fn a_new_size_is_remembered_during_a_prompt() {
    let set = one_source(100);
    let mut c = controller(&set);
    c.step(ch('g'), &set);
    assert!(is_silent(&c.step(TerminalThreadMessage::Resize(40, 11), &set)));
    assert_eq!(c.size(), (40, 11));
    assert_eq!(c.mode(), Mode::GotoLinePrompt);
    type_text(&mut c, &set, "50");
    let update = c.step(key(Key::Enter), &set);
    assert_eq!(shown_lines(&update), (39..49).collect::<Vec<usize>>());
    assert_eq!(marked_lines(&update), Vec::<usize>::new());
    assert_eq!(update.highlight, Some(49));
}

#[test]
fn the_handlers_of_the_prompts_can_be_called_directly() {
    let set = fruit();
    let mut c = controller(&set);
    c.step(ch('g'), &set);
    c.handle_go_to_line(Key::Char('2'), &set);
    let update = c.handle_go_to_line(Key::Enter, &set);
    assert_eq!(update.highlight, Some(1));
    c.step(ch('/'), &set);
    c.handle_search_mode(Key::Char('p'), &set);
    c.handle_search_mode(Key::Char('i'), &set);
    let update = c.handle_search_mode(Key::Enter, &set);
    assert_eq!(update.status, Some("Match 1/1 on line 3".to_string()));
    let update = c.handle_search_mode(Key::Esc, &set);
    assert_eq!(update.highlight, None);
    assert_eq!(c.mode(), Mode::Normal);
}

#[test]
fn jumping_to_a_match_pins_the_viewport_above_it() {
    let lines: Vec<String> = (0..100).map(|i| format!("line {}\r\n", i)).collect();
    let matches = vec![3, 50, 97];
    let mut pos = Some(70);
    let update = jump_to_match(&lines, &matches, &mut pos, 10, 1, 80, 20).ok().unwrap();
    assert_eq!(pos, Some(40));
    assert_eq!(update.highlight, Some(50));
    assert_eq!(update.status, Some("Match 2/3 on line 51".to_string()));
    assert_eq!(shown_lines(&update), (40..60).collect::<Vec<usize>>());
    assert_eq!(marked_lines(&update), vec![50]);
    assert!(!update.quit);
    let update = jump_to_match(&lines, &matches, &mut pos, 10, 0, 80, 20).ok().unwrap();
    assert_eq!(pos, Some(0));
    assert_eq!(update.status, Some("Match 1/3 on line 4".to_string()));
    let update = jump_to_match(&lines, &matches, &mut pos, 10, 2, 80, 20).ok().unwrap();
    assert_eq!(pos, Some(87));
    assert_eq!(shown_lines(&update), (80..100).collect::<Vec<usize>>());
    assert_eq!(marked_lines(&update), vec![97]);
}

#[test]
fn jumping_to_a_match_that_is_not_there_fails() {
    let lines: Vec<String> = (0..100).map(|i| format!("line {}\r\n", i)).collect();
    let mut pos = Some(70);
    assert!(jump_to_match(&lines, &vec![3, 50], &mut pos, 10, 2, 80, 20).is_err());
    assert_eq!(pos, Some(70));
    let mut pos = None;
    assert!(jump_to_match(&lines, &Vec::new(), &mut pos, 10, 0, 80, 20).is_err());
    assert_eq!(pos, None);
}

#[test]
fn paging_moves_the_anchor_and_lays_the_viewport_out() {
    let lines: Vec<String> = (0..100).map(|i| format!("line {}\r\n", i)).collect();
    let mut pos = Some(5);
    let rows = page_by(&lines, &mut pos, 3, 80, 10);
    assert_eq!(pos, Some(8));
    let lines_of_rows: Vec<usize> = rows.iter().map(|r| r.line).collect();
    assert_eq!(lines_of_rows, (8..18).collect::<Vec<usize>>());
    let rows = page_by(&lines, &mut pos, 95, 80, 10);
    assert_eq!(pos, None);
    assert_eq!(rows[0].line, 90);
    page_by(&lines, &mut pos, -1, 80, 10);
    assert_eq!(pos, Some(89));
}

#[test]
fn the_line_that_a_prompt_asks_for() {
    assert_eq!(wanted_line("25", 50), Some(24));
    assert_eq!(wanted_line("50", 50), Some(49));
    assert_eq!(wanted_line("51", 50), None);
    assert_eq!(wanted_line("1", 50), Some(0));
    assert_eq!(wanted_line("0", 50), Some(0));
    assert_eq!(wanted_line("000", 0), Some(0));
    assert_eq!(wanted_line("1", 0), None);
    assert_eq!(wanted_line("", 50), None);
    assert_eq!(wanted_line("340282366920938463463374607431768211456", 50), None);
}
