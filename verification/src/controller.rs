//! The controller: the one place that owns what the user is looking at.
//!
//! The controller consumes key presses, changes of the terminal's size and
//! notices of new lines, strictly in the order in which they arrive. For each
//! it moves to its next state and says what to put on screen. It never
//! touches the terminal itself.

use vstd::prelude::*;
use crate::layout::{
    frame,
    lemma_followed_tail_shows_appended_line,
    lemma_look_behind_shows_line,
    rows_between,
    render,
    rows_of,
    rows_of_line,
    rows_view,
    Row,
    RowView,
};
use crate::messaging::{Key, KeyPress, TerminalThreadMessage};
use crate::position::{
    floor_at_zero,
    get_pos,
    pos_with_in_view,
    scrolled,
    with_look_behind,
    PAGE_SIZE,
};
use crate::reader::LineReader;
use crate::search::{get_matches, matches_of};
use crate::source::{after_append, receives, SourceError, SourceSet, SourceView};
use crate::text::{
    all_digits,
    decimal,
    decimal_digits,
    decimal_value,
    is_decimal_digit,
    is_digit,
    parse_decimal,
    push_char,
    trim,
    trimmed,
};

verus! {

/// What the keys mean at the moment.
#[derive(Clone, Copy, Debug, PartialEq, Eq, Structural)]
pub enum Mode {
    /// Keys scroll and open prompts.
    Normal,
    /// Digits of a line number are being typed.
    GotoLinePrompt,
    /// A query is being typed.
    SearchPrompt,
    /// Keys walk through the lines that the query hit.
    SearchNavigate,
}

/// A search in progress.
pub struct SearchState {
    query: String,
    matches: Vec<usize>,
    match_cursor: usize,
    regex: bool,
}

/// The state of the controller.
pub struct Controller {
    anchors: Vec<Option<usize>>,
    active: usize,
    mode: Mode,
    digits: String,
    search: SearchState,
    cols: usize,
    rows: usize,
}

/// The controller as the contracts see it.
pub ghost struct ControllerView {
    /// The anchor of each source's viewport.
    pub anchors: Seq<Option<usize>>,
    /// The source on screen.
    pub active: usize,
    pub mode: Mode,
    /// The digits typed into the line prompt.
    pub digits: Seq<char>,
    /// The query typed into the search prompt.
    pub query: Seq<char>,
    /// Whether the query is a regular expression.
    pub regex: bool,
    /// The lines that the query hit when it was committed.
    pub matches: Seq<usize>,
    /// Which of them is shown.
    pub match_cursor: usize,
    /// Columns of the terminal.
    pub cols: usize,
    /// Rows of the terminal.
    pub rows: usize,
}

/// What to do with the terminal after a step.
pub struct Update {
    /// Leave the pager.
    pub quit: bool,
    /// Clear the screen and print these rows, if any.
    pub frame: Option<Vec<Row>>,
    /// The line that the frame marks.
    pub highlight: Option<usize>,
    /// Show this in the status row, if any.
    pub status: Option<String>,
}

/// An `Update` as the contracts see it.
pub ghost struct UpdateView {
    pub quit: bool,
    pub frame: Option<Seq<RowView>>,
    pub highlight: Option<usize>,
    pub status: Option<Seq<char>>,
}

impl View for Update {
    type V = UpdateView;

    open spec fn view(&self) -> UpdateView {
        UpdateView {
            quit: self.quit,
            frame: match self.frame {
                Some(rows) => Some(rows_view(rows@)),
                None => None,
            },
            highlight: self.highlight,
            status: match self.status {
                Some(text) => Some(text@),
                None => None,
            },
        }
    }
}

impl View for Controller {
    type V = ControllerView;

    closed spec fn view(&self) -> ControllerView {
        ControllerView {
            anchors: self.anchors@,
            active: self.active,
            mode: self.mode,
            digits: self.digits@,
            query: self.search.query@,
            regex: self.search.regex,
            matches: self.search.matches@,
            match_cursor: self.search.match_cursor,
            cols: self.cols,
            rows: self.rows,
        }
    }
}

/// Rows of the viewport: all rows of the terminal but the status row.
pub open spec fn capacity_of(rows: usize) -> nat {
    if rows == 0 {
        0
    } else {
        (rows - 1) as nat
    }
}

/// What holds of the controller between any two steps.
pub open spec fn inv(c: ControllerView) -> bool {
    &&& 0 < c.anchors.len() <= usize::MAX
    &&& c.active < c.anchors.len()
    &&& c.mode == Mode::GotoLinePrompt ==> all_digits(c.digits)
    &&& c.mode == Mode::SearchNavigate ==> {
        &&& c.matches.len() > 0
        &&& c.match_cursor < c.matches.len()
        &&& forall|k: int| 0 <= k < c.matches.len() ==> #[trigger] c.matches[k] < usize::MAX
    }
}

/// The status row while a line number is typed.
pub open spec fn goto_status(digits: Seq<char>) -> Seq<char> {
    "Go to line: "@ + digits
}

/// The status row while a query is typed.
pub open spec fn prompt_status(regex: bool, query: Seq<char>) -> Seq<char> {
    if regex {
        "Regex: "@ + query
    } else {
        "Search: "@ + query
    }
}

/// The status row for the match in place `cursor` of `total`, on line `line`.
/// Matches and lines are counted from one.
pub open spec fn match_status(cursor: nat, total: nat, line: nat) -> Seq<char> {
    "Match "@ + decimal_digits(cursor + 1) + "/"@ + decimal_digits(total) + " on line "@
        + decimal_digits(line + 1)
}

/// The status row after a search that hit nothing.
pub open spec fn no_match_status() -> Seq<char> {
    "No matches"@
}

/// The status row after another source has come on screen.
pub open spec fn switch_status(name: Seq<char>) -> Seq<char> {
    "Switched to source: "@ + name
}

/// Nothing to do.
pub open spec fn quiet() -> UpdateView {
    UpdateView { quit: false, frame: None, highlight: None, status: None }
}

/// Leave the pager.
pub open spec fn farewell() -> UpdateView {
    UpdateView { quit: true, frame: None, highlight: None, status: None }
}

/// Only the status row changes.
pub open spec fn told(status: Seq<char>) -> UpdateView {
    UpdateView { quit: false, frame: None, highlight: None, status: Some(status) }
}

/// A match is shown: its line is marked in the frame, and the status row says
/// which match it is.
pub open spec fn jumped(shown: Seq<RowView>, cursor: nat, total: nat, line: usize) -> UpdateView {
    UpdateView {
        quit: false,
        frame: Some(shown),
        highlight: Some(line),
        status: Some(match_status(cursor, total, line as nat)),
    }
}

/// The viewport of the active source is drawn again.
pub open spec fn redrawn(
    c: ControllerView,
    sources: Seq<SourceView>,
    highlight: Option<usize>,
    status: Option<Seq<char>>,
) -> UpdateView {
    UpdateView {
        quit: false,
        frame: Some(
            frame(
                sources[c.active as int].lines,
                c.cols as nat,
                capacity_of(c.rows),
                c.anchors[c.active as int],
                highlight,
            ),
        ),
        highlight,
        status,
    }
}

/// The controller with the anchor of the active source replaced.
pub open spec fn with_anchor(c: ControllerView, anchor: Option<usize>) -> ControllerView {
    ControllerView { anchors: c.anchors.update(c.active as int, anchor), ..c }
}

/// The controller back in normal mode, with nothing left of a prompt or a
/// search.
pub open spec fn at_rest(c: ControllerView) -> ControllerView {
    ControllerView {
        mode: Mode::Normal,
        digits: Seq::empty(),
        query: Seq::empty(),
        matches: Seq::empty(),
        match_cursor: 0,
        ..c
    }
}

/// Scrolling the active source by `offset` rows.
pub open spec fn scroll_by(c: ControllerView, sources: Seq<SourceView>, offset: int) -> (
    ControllerView,
    UpdateView,
) {
    let next = with_anchor(
        c,
        scrolled(
            c.anchors[c.active as int],
            sources[c.active as int].lines.len() as int,
            capacity_of(c.rows) as int,
            offset,
        ),
    );
    (next, redrawn(next, sources, None, None))
}

/// Letting go of the anchor, so that the viewport follows the tail.
pub open spec fn follow(c: ControllerView, sources: Seq<SourceView>) -> (
    ControllerView,
    UpdateView,
) {
    let next = with_anchor(c, None);
    (next, redrawn(next, sources, None, None))
}

/// Opening the prompt for a line number.
pub open spec fn open_goto(c: ControllerView) -> (ControllerView, UpdateView) {
    let next = ControllerView { mode: Mode::GotoLinePrompt, ..at_rest(c) };
    (next, told(goto_status(Seq::empty())))
}

/// Opening the prompt for a query.
pub open spec fn open_search(c: ControllerView, regex: bool) -> (ControllerView, UpdateView) {
    let next = ControllerView { mode: Mode::SearchPrompt, regex, ..at_rest(c) };
    (next, told(prompt_status(regex, Seq::empty())))
}

/// Putting the next source on screen. Each source keeps its own anchor. With
/// a single source there is nothing to switch to.
pub open spec fn switch_source(c: ControllerView, sources: Seq<SourceView>) -> (
    ControllerView,
    UpdateView,
) {
    if c.anchors.len() > 1 {
        let next = ControllerView {
            active: ((c.active + 1) % (c.anchors.len() as int)) as usize,
            ..c
        };
        (next, redrawn(next, sources, None, Some(switch_status(sources[next.active as int].name))))
    } else {
        (c, quiet())
    }
}

/// A key in normal mode.
pub open spec fn on_normal_key(c: ControllerView, sources: Seq<SourceView>, press: KeyPress) -> (
    ControllerView,
    UpdateView,
) {
    match press.key {
        Key::Esc => (c, farewell()),
        Key::Up => scroll_by(c, sources, -1),
        Key::PageUp => scroll_by(c, sources, -(PAGE_SIZE as int)),
        Key::Down => scroll_by(c, sources, 1),
        Key::PageDown => scroll_by(c, sources, PAGE_SIZE as int),
        Key::Enter => follow(c, sources),
        Key::Char(ch) => if ch == 'q' || ch == 'Q' {
            (c, farewell())
        } else if ch == 'u' || ch == 'U' {
            scroll_by(c, sources, -(PAGE_SIZE as int))
        } else if ch == 'd' || ch == 'D' || ch == ' ' {
            scroll_by(c, sources, PAGE_SIZE as int)
        } else if ch == 'g' || ch == 'G' {
            if press.shift {
                follow(c, sources)
            } else {
                open_goto(c)
            }
        } else if ch == '/' {
            open_search(c, false)
        } else if ch == 'r' || ch == 'R' {
            open_search(c, true)
        } else if ch == 's' || ch == 'S' {
            switch_source(c, sources)
        } else {
            (c, quiet())
        },
        _ => (c, quiet()),
    }
}

/// The line that the digits of the prompt ask for: none for no digits and for
/// a number beyond the last line; otherwise the line with that number,
/// counted from one, where zero also means the first line.
pub open spec fn goto_target(digits: Seq<char>, n_lines: nat) -> Option<usize> {
    if digits.len() == 0 || decimal_value(digits) > n_lines {
        None
    } else if decimal_value(digits) == 0 {
        Some(0)
    } else {
        Some((decimal_value(digits) - 1) as usize)
    }
}

/// Leaving the line prompt. With a target the viewport is pinned a page above
/// it and the target is marked; without one nothing moves and nothing is
/// marked.
pub open spec fn leave_goto(c: ControllerView, sources: Seq<SourceView>, target: Option<usize>) -> (
    ControllerView,
    UpdateView,
) {
    match target {
        Some(line) => {
            let next = with_anchor(at_rest(c), with_look_behind(Some(line), PAGE_SIZE as int));
            (next, redrawn(next, sources, Some(line), None))
        },
        None => (at_rest(c), redrawn(at_rest(c), sources, None, None)),
    }
}

/// A key in the line prompt.
pub open spec fn on_goto_key(c: ControllerView, sources: Seq<SourceView>, key: Key) -> (
    ControllerView,
    UpdateView,
) {
    match key {
        Key::Char(ch) => if is_digit(ch) {
            let next = ControllerView { digits: c.digits.push(ch), ..c };
            (next, told(goto_status(next.digits)))
        } else if ch == 'g' || ch == 'G' {
            leave_goto(c, sources, Some(0))
        } else {
            (c, quiet())
        },
        Key::Backspace => if c.digits.len() > 0 {
            let next = ControllerView { digits: c.digits.drop_last(), ..c };
            (next, told(goto_status(next.digits)))
        } else {
            leave_goto(c, sources, None)
        },
        Key::Esc => leave_goto(c, sources, None),
        Key::Enter => leave_goto(
            c,
            sources,
            goto_target(c.digits, sources[c.active as int].lines.len()),
        ),
        _ => (c, quiet()),
    }
}

/// Leaving a search. The anchor stays where the search left it.
pub open spec fn leave_search(c: ControllerView, sources: Seq<SourceView>) -> (
    ControllerView,
    UpdateView,
) {
    (at_rest(c), redrawn(at_rest(c), sources, None, None))
}

/// Showing the match in place `cursor`: the viewport is pinned a page above
/// the line, the line is marked, and the status row says which match it is.
pub open spec fn show_match(c: ControllerView, sources: Seq<SourceView>, cursor: usize) -> (
    ControllerView,
    UpdateView,
) {
    let line = c.matches[cursor as int];
    let next = with_anchor(
        ControllerView { match_cursor: cursor, ..c },
        with_look_behind(Some(line), PAGE_SIZE as int),
    );
    (
        next,
        redrawn(
            next,
            sources,
            Some(line),
            Some(match_status(cursor as nat, c.matches.len(), line as nat)),
        ),
    )
}

/// Committing the query: the lines of the active source are searched once,
/// as they stand. With hits the controller shows the first; without, it says
/// so and is back in normal mode.
pub open spec fn commit_search(c: ControllerView, sources: Seq<SourceView>) -> (
    ControllerView,
    UpdateView,
) {
    let found = matches_of(sources[c.active as int].lines, trimmed(c.query), c.regex);
    if found.len() == 0 {
        (at_rest(c), redrawn(at_rest(c), sources, None, Some(no_match_status())))
    } else {
        show_match(
            ControllerView { mode: Mode::SearchNavigate, matches: found, match_cursor: 0, ..c },
            sources,
            0,
        )
    }
}

/// A key in the search prompt.
pub open spec fn on_prompt_key(c: ControllerView, sources: Seq<SourceView>, key: Key) -> (
    ControllerView,
    UpdateView,
) {
    match key {
        Key::Char(ch) => {
            let next = ControllerView { query: c.query.push(ch), ..c };
            (next, told(prompt_status(c.regex, next.query)))
        },
        Key::Backspace => if c.query.len() > 0 {
            let next = ControllerView { query: c.query.drop_last(), ..c };
            (next, told(prompt_status(c.regex, next.query)))
        } else {
            leave_search(c, sources)
        },
        Key::Esc => leave_search(c, sources),
        Key::Enter => commit_search(c, sources),
        _ => (c, quiet()),
    }
}

/// The place after `cursor` among `total` matches, going round.
pub open spec fn next_match(cursor: usize, total: nat) -> usize {
    ((cursor + 1) % (total as int)) as usize
}

/// The place before `cursor` among `total` matches, going round.
pub open spec fn previous_match(cursor: usize, total: nat) -> usize {
    ((cursor + total - 1) % (total as int)) as usize
}

/// A key while walking through the matches.
pub open spec fn on_navigate_key(c: ControllerView, sources: Seq<SourceView>, key: Key) -> (
    ControllerView,
    UpdateView,
) {
    match key {
        Key::Char(ch) => if ch == 'n' {
            show_match(c, sources, next_match(c.match_cursor, c.matches.len()))
        } else if ch == 'p' {
            show_match(c, sources, previous_match(c.match_cursor, c.matches.len()))
        } else if ch == 'q' {
            leave_search(c, sources)
        } else {
            (c, quiet())
        },
        Key::Down => show_match(c, sources, next_match(c.match_cursor, c.matches.len())),
        Key::Right => show_match(c, sources, next_match(c.match_cursor, c.matches.len())),
        Key::Enter => show_match(c, sources, next_match(c.match_cursor, c.matches.len())),
        Key::Up => show_match(c, sources, previous_match(c.match_cursor, c.matches.len())),
        Key::Left => show_match(c, sources, previous_match(c.match_cursor, c.matches.len())),
        Key::Esc => leave_search(c, sources),
        _ => (c, quiet()),
    }
}

/// A key of a search, in its prompt or among its matches.
pub open spec fn on_search_key(c: ControllerView, sources: Seq<SourceView>, key: Key) -> (
    ControllerView,
    UpdateView,
) {
    if c.mode == Mode::SearchPrompt {
        on_prompt_key(c, sources, key)
    } else {
        on_navigate_key(c, sources, key)
    }
}

/// A key in whatever mode the controller is in. Only keys that go down count.
pub open spec fn on_key(c: ControllerView, sources: Seq<SourceView>, press: KeyPress) -> (
    ControllerView,
    UpdateView,
) {
    if !press.pressed {
        (c, quiet())
    } else {
        match c.mode {
            Mode::Normal => on_normal_key(c, sources, press),
            Mode::GotoLinePrompt => on_goto_key(c, sources, press.key),
            Mode::SearchPrompt => on_prompt_key(c, sources, press.key),
            Mode::SearchNavigate => on_navigate_key(c, sources, press.key),
        }
    }
}

/// The terminal has a new size. The size is taken note of in every mode; the
/// viewport is drawn again in normal mode.
pub open spec fn on_resize(c: ControllerView, sources: Seq<SourceView>, cols: u16, rows: u16) -> (
    ControllerView,
    UpdateView,
) {
    let next = ControllerView { cols: cols as usize, rows: rows as usize, ..c };
    if c.mode == Mode::Normal {
        (next, redrawn(next, sources, None, None))
    } else {
        (next, quiet())
    }
}

/// A line has arrived at `source`. The viewport is drawn again if the line
/// landed in the active source while its viewport follows the tail, and the
/// controller is in normal mode.
pub open spec fn on_read(c: ControllerView, sources: Seq<SourceView>, source: usize) -> (
    ControllerView,
    UpdateView,
) {
    if c.mode == Mode::Normal && source < sources.len() && receives(
        sources,
        source as int,
        c.active as int,
    ) && c.anchors[c.active as int] is None {
        (c, redrawn(c, sources, None, None))
    } else {
        (c, quiet())
    }
}

/// The controller's answer to a message: its next state, and what to do with
/// the terminal.
pub open spec fn transition(
    c: ControllerView,
    sources: Seq<SourceView>,
    message: TerminalThreadMessage,
) -> (ControllerView, UpdateView) {
    match message {
        TerminalThreadMessage::KeyEvent(press) => on_key(c, sources, press),
        TerminalThreadMessage::Resize(cols, rows) => on_resize(c, sources, cols, rows),
        TerminalThreadMessage::Read(source) => on_read(c, sources, source),
    }
}

/// Whether the controller keeps an anchor for each of the sources.
pub open spec fn fits(c: ControllerView, sources: Seq<SourceView>) -> bool {
    c.anchors.len() == sources.len()
}

/// The text of a status, if there is one.
pub open spec fn text_of(status: Option<String>) -> Option<Seq<char>> {
    match status {
        Some(text) => Some(text@),
        None => None,
    }
}

/// Counts the rows of the viewport of a terminal with `rows` rows.
pub fn capacity(rows: usize) -> (r: usize)
    ensures
        r == capacity_of(rows),
{
    if rows == 0 {
        0
    } else {
        rows - 1
    }
}

/// Puts a label in front of a text.
fn labelled(label: &str, text: &str) -> (r: String)
    ensures
        r@ == label@ + text@,
{
    let mut out: String = String::from_str(label);
    out.append(text);
    out
}

/// Writes the status row for a match.
fn match_status_text(cursor: usize, total: usize, line: usize) -> (r: String)
    requires
        cursor < total,
        line < usize::MAX,
    ensures
        r@ == match_status(cursor as nat, total as nat, line as nat),
{
    let mut out: String = String::from_str("Match ");
    out.append(decimal(cursor + 1).as_str());
    out.append("/");
    out.append(decimal(total).as_str());
    out.append(" on line ");
    out.append(decimal(line + 1).as_str());
    out
}

/// A text without its last character.
fn without_last(text: &str) -> (r: String)
    requires
        text@.len() > 0,
    ensures
        r@ == text@.drop_last(),
{
    let len: usize = text.unicode_len();
    assert(text@.subrange(0, len - 1) =~= text@.drop_last());
    String::from_str(text.substring_char(0, len - 1))
}

/// Scrolls a viewport by `offset` rows and lays it out again.
pub fn page_by(
    lines: &Vec<String>,
    pos: &mut Option<usize>,
    offset: i32,
    cols: usize,
    capacity: usize,
) -> (rows: Vec<Row>)
    ensures
        *final(pos) == scrolled(*old(pos), lines.len() as int, capacity as int, offset as int),
        rows_view(rows@) == frame(
            lines.deep_view(),
            cols as nat,
            capacity as nat,
            *final(pos),
            None,
        ),
{
    *pos = get_pos(*pos, lines.len(), capacity, offset);
    render(lines, cols, capacity, *pos, None)
}

/// Brings the match in place `match_no` into view: the viewport is pinned
/// `page_up_size` lines above the matching line, the line is marked and the
/// status row says which match it is. Fails, and leaves the anchor alone,
/// when there is no match in that place.
pub fn jump_to_match(
    lines: &Vec<String>,
    matches: &Vec<usize>,
    pos: &mut Option<usize>,
    page_up_size: usize,
    match_no: usize,
    cols: usize,
    capacity: usize,
) -> (r: Result<Update, ()>)
    requires
        match_no < matches.len() ==> matches[match_no as int] < usize::MAX,
    ensures
        r is Ok <==> match_no < matches.len(),
        r is Err ==> *final(pos) == *old(pos),
        r matches Ok(update) ==> ({
            let line = matches[match_no as int];
            &&& *final(pos) == with_look_behind(Some(line), page_up_size as int)
            &&& update@ == jumped(
                frame(lines.deep_view(), cols as nat, capacity as nat, *final(pos), Some(line)),
                match_no as nat,
                matches.len() as nat,
                line,
            )
        }),
{
    if match_no < matches.len() {
        let line: usize = matches[match_no];
        *pos = pos_with_in_view(Some(line), page_up_size);
        let rows: Vec<Row> = render(lines, cols, capacity, *pos, Some(line));
        let status: String = match_status_text(match_no, matches.len(), line);
        Ok(Update { quit: false, frame: Some(rows), highlight: Some(line), status: Some(status) })
    } else {
        Err(())
    }
}

impl Update {
    /// Nothing to do.
    pub fn nothing() -> (r: Update)
        ensures
            r@ == quiet(),
    {
        Update { quit: false, frame: None, highlight: None, status: None }
    }

    /// Leave the pager.
    pub fn leave() -> (r: Update)
        ensures
            r@ == farewell(),
    {
        Update { quit: true, frame: None, highlight: None, status: None }
    }

    /// Only the status row changes.
    pub fn tell(status: String) -> (r: Update)
        ensures
            r@ == told(status@),
    {
        Update { quit: false, frame: None, highlight: None, status: Some(status) }
    }
}

impl Controller {
    /// A controller for the given sources and a terminal of the given size.
    /// The first source is on screen. Its viewport follows the tail while the
    /// source holds fewer lines than the terminal has rows, and is pinned to
    /// its first line otherwise, as the viewports of the other sources are.
    pub fn new<R: LineReader>(sources: &SourceSet<R>, cols: u16, rows: u16) -> (r: Result<
        Controller,
        SourceError,
    >)
        ensures
            sources@.len() == 0 ==> r == Err::<Controller, SourceError>(SourceError::NoSources),
            sources@.len() > 0 ==> r is Ok,
            r matches Ok(c) ==> inv(c@) && fits(c@, sources@) && c@ == initial(
                sources@,
                cols,
                rows,
            ),
    {
        let n: usize = sources.len();
        if n == 0 {
            return Err(SourceError::NoSources);
        }
        let mut anchors: Vec<Option<usize>> = Vec::new();
        let first: Option<usize> = if sources.lines(0).len() < rows as usize {
            None
        } else {
            Some(0)
        };
        anchors.push(first);
        while anchors.len() < n
            invariant
                0 < anchors.len() <= n,
                anchors[0] == first,
                forall|i: int| 1 <= i < anchors.len() ==> anchors[i] == Some(0usize),
            decreases n - anchors.len(),
        {
            anchors.push(Some(0));
        }
        let c = Controller {
            anchors,
            active: 0,
            mode: Mode::Normal,
            digits: String::new(),
            search: SearchState {
                query: String::new(),
                matches: Vec::new(),
                match_cursor: 0,
                regex: false,
            },
            cols: cols as usize,
            rows: rows as usize,
        };
        assert(c@.anchors =~= initial(sources@, cols, rows).anchors);
        assert(c@.matches =~= Seq::<usize>::empty());
        Ok(c)
    }

    /// The anchor of each source's viewport.
    pub fn anchors(&self) -> (r: &Vec<Option<usize>>)
        ensures
            r@ == self@.anchors,
    {
        &self.anchors
    }

    /// The place of the source on screen.
    pub fn active(&self) -> (r: usize)
        ensures
            r == self@.active,
    {
        self.active
    }

    /// What the keys mean at the moment.
    pub fn mode(&self) -> (r: Mode)
        ensures
            r == self@.mode,
    {
        self.mode
    }

    /// The digits typed into the line prompt.
    pub fn digits(&self) -> (r: &str)
        ensures
            r@ == self@.digits,
    {
        self.digits.as_str()
    }

    /// The query typed into the search prompt.
    pub fn query(&self) -> (r: &str)
        ensures
            r@ == self@.query,
    {
        self.search.query.as_str()
    }

    /// Whether the query is a regular expression.
    pub fn is_regex(&self) -> (r: bool)
        ensures
            r == self@.regex,
    {
        self.search.regex
    }

    /// The lines that the committed query hit.
    pub fn matches(&self) -> (r: &Vec<usize>)
        ensures
            r@ == self@.matches,
    {
        &self.search.matches
    }

    /// The place of the match that is shown.
    pub fn match_cursor(&self) -> (r: usize)
        ensures
            r == self@.match_cursor,
    {
        self.search.match_cursor
    }

    /// Columns and rows of the terminal, as last heard of.
    pub fn size(&self) -> (r: (usize, usize))
        ensures
            r == (self@.cols, self@.rows),
    {
        (self.cols, self.rows)
    }

    /// Draws the viewport of the active source.
    fn draw<R: LineReader>(
        &self,
        sources: &SourceSet<R>,
        highlight: Option<usize>,
        status: Option<String>,
    ) -> (update: Update)
        requires
            inv(self@),
            fits(self@, sources@),
        ensures
            update@ == redrawn(self@, sources@, highlight, text_of(status)),
    {
        let rows: Vec<Row> = render(
            sources.lines(self.active),
            self.cols,
            capacity(self.rows),
            self.anchors[self.active],
            highlight,
        );
        Update { quit: false, frame: Some(rows), highlight, status }
    }

    /// Forgets what a prompt or a search left behind.
    fn rest(&mut self)
        ensures
            final(self)@ == at_rest(old(self)@),
    {
        self.mode = Mode::Normal;
        self.digits = String::new();
        self.search.query = String::new();
        self.search.matches = Vec::new();
        self.search.match_cursor = 0;
    }

    /// Scrolls the active source.
    fn scroll<R: LineReader>(&mut self, sources: &SourceSet<R>, offset: i32) -> (update: Update)
        requires
            inv(old(self)@),
            fits(old(self)@, sources@),
            old(self)@.mode == Mode::Normal,
        ensures
            (final(self)@, update@) == scroll_by(old(self)@, sources@, offset as int),
            inv(final(self)@),
    {
        let moved: Option<usize> = get_pos(
            self.anchors[self.active],
            sources.lines(self.active).len(),
            capacity(self.rows),
            offset,
        );
        self.anchors.set(self.active, moved);
        self.draw(sources, None, None)
    }

    /// Lets the viewport of the active source follow the tail.
    fn follow_tail<R: LineReader>(&mut self, sources: &SourceSet<R>) -> (update: Update)
        requires
            inv(old(self)@),
            fits(old(self)@, sources@),
            old(self)@.mode == Mode::Normal,
        ensures
            (final(self)@, update@) == follow(old(self)@, sources@),
            inv(final(self)@),
    {
        self.anchors.set(self.active, None);
        self.draw(sources, None, None)
    }

    /// Answers a key in normal mode.
    fn handle_normal_key<R: LineReader>(
        &mut self,
        press: KeyPress,
        sources: &SourceSet<R>,
    ) -> (update: Update)
        requires
            inv(old(self)@),
            fits(old(self)@, sources@),
            old(self)@.mode == Mode::Normal,
        ensures
            (final(self)@, update@) == on_normal_key(old(self)@, sources@, press),
            inv(final(self)@),
            fits(final(self)@, sources@),
    {
        let page: i32 = PAGE_SIZE as i32;
        match press.key {
            Key::Esc => Update::leave(),
            Key::Up => self.scroll(sources, -1),
            Key::PageUp => self.scroll(sources, -page),
            Key::Down => self.scroll(sources, 1),
            Key::PageDown => self.scroll(sources, page),
            Key::Enter => self.follow_tail(sources),
            Key::Char(ch) => {
                if ch == 'q' || ch == 'Q' {
                    Update::leave()
                } else if ch == 'u' || ch == 'U' {
                    self.scroll(sources, -page)
                } else if ch == 'd' || ch == 'D' || ch == ' ' {
                    self.scroll(sources, page)
                } else if ch == 'g' || ch == 'G' {
                    if press.shift {
                        self.follow_tail(sources)
                    } else {
                        self.rest();
                        self.mode = Mode::GotoLinePrompt;
                        assert(goto_status(Seq::empty()) =~= "Go to line: "@);
                        Update::tell(String::from_str("Go to line: "))
                    }
                } else if ch == '/' || ch == 'r' || ch == 'R' {
                    let regex: bool = ch != '/';
                    self.rest();
                    self.mode = Mode::SearchPrompt;
                    self.search.regex = regex;
                    assert(prompt_status(true, Seq::empty()) =~= "Regex: "@);
                    assert(prompt_status(false, Seq::empty()) =~= "Search: "@);
                    if regex {
                        Update::tell(String::from_str("Regex: "))
                    } else {
                        Update::tell(String::from_str("Search: "))
                    }
                } else if ch == 's' || ch == 'S' {
                    if self.anchors.len() > 1 {
                        proof {
                            lemma_going_round(self.active as int, self.anchors.len() as int);
                        }
                        self.active = if self.active + 1 == self.anchors.len() {
                            0
                        } else {
                            self.active + 1
                        };
                        let status: String = labelled(
                            "Switched to source: ",
                            sources.name(self.active),
                        );
                        self.draw(sources, None, Some(status))
                    } else {
                        Update::nothing()
                    }
                } else {
                    Update::nothing()
                }
            },
            _ => Update::nothing(),
        }
    }

    /// Leaves the line prompt, for `target` if there is one.
    fn leave_line_prompt<R: LineReader>(
        &mut self,
        sources: &SourceSet<R>,
        target: Option<usize>,
    ) -> (update: Update)
        requires
            inv(old(self)@),
            fits(old(self)@, sources@),
        ensures
            (final(self)@, update@) == leave_goto(old(self)@, sources@, target),
            inv(final(self)@),
            fits(final(self)@, sources@),
    {
        self.rest();
        match target {
            Some(line) => {
                let pinned: Option<usize> = pos_with_in_view(Some(line), PAGE_SIZE);
                self.anchors.set(self.active, pinned);
                self.draw(sources, Some(line), None)
            },
            None => self.draw(sources, None, None),
        }
    }

    /// Answers a key in the line prompt. Digits add to the number and
    /// backspace takes the last one away; on an empty prompt backspace gives
    /// up, as escape always does. Enter jumps to the line of that number, and
    /// a second `g` to the first line.
    pub fn handle_go_to_line<R: LineReader>(
        &mut self,
        key: Key,
        sources: &SourceSet<R>,
    ) -> (update: Update)
        requires
            inv(old(self)@),
            fits(old(self)@, sources@),
            old(self)@.mode == Mode::GotoLinePrompt,
        ensures
            (final(self)@, update@) == on_goto_key(old(self)@, sources@, key),
            inv(final(self)@),
            fits(final(self)@, sources@),
    {
        match key {
            Key::Char(ch) => {
                if is_decimal_digit(ch) {
                    push_char(&mut self.digits, ch);
                    proof {
                        assert forall|i: int| 0 <= i < self.digits@.len() implies is_digit(
                            #[trigger] self.digits@[i],
                        ) by {
                            if i < old(self).digits@.len() {
                                assert(self.digits@[i] == old(self).digits@[i]);
                            }
                        }
                    }
                    Update::tell(labelled("Go to line: ", self.digits.as_str()))
                } else if ch == 'g' || ch == 'G' {
                    self.leave_line_prompt(sources, Some(0))
                } else {
                    Update::nothing()
                }
            },
            Key::Backspace => {
                if self.digits.as_str().unicode_len() > 0 {
                    self.digits = without_last(self.digits.as_str());
                    proof {
                        assert forall|i: int| 0 <= i < self.digits@.len() implies is_digit(
                            #[trigger] self.digits@[i],
                        ) by {
                            assert(self.digits@[i] == old(self).digits@[i]);
                        }
                    }
                    Update::tell(labelled("Go to line: ", self.digits.as_str()))
                } else {
                    self.leave_line_prompt(sources, None)
                }
            },
            Key::Esc => self.leave_line_prompt(sources, None),
            Key::Enter => {
                let target: Option<usize> = wanted_line(
                    self.digits.as_str(),
                    sources.lines(self.active).len(),
                );
                self.leave_line_prompt(sources, target)
            },
            _ => Update::nothing(),
        }
    }

    /// Leaves a search.
    fn leave_search_mode<R: LineReader>(&mut self, sources: &SourceSet<R>) -> (update: Update)
        requires
            inv(old(self)@),
            fits(old(self)@, sources@),
        ensures
            (final(self)@, update@) == leave_search(old(self)@, sources@),
            inv(final(self)@),
            fits(final(self)@, sources@),
    {
        self.rest();
        self.draw(sources, None, None)
    }

    /// Shows the match in place `cursor`.
    fn show<R: LineReader>(&mut self, sources: &SourceSet<R>, cursor: usize) -> (update: Update)
        requires
            inv(old(self)@),
            fits(old(self)@, sources@),
            old(self)@.mode == Mode::SearchNavigate,
            cursor < old(self)@.matches.len(),
        ensures
            (final(self)@, update@) == show_match(old(self)@, sources@, cursor),
            inv(final(self)@),
            fits(final(self)@, sources@),
    {
        self.search.match_cursor = cursor;
        let mut pos: Option<usize> = self.anchors[self.active];
        let jumped = jump_to_match(
            sources.lines(self.active),
            &self.search.matches,
            &mut pos,
            PAGE_SIZE,
            cursor,
            self.cols,
            capacity(self.rows),
        );
        self.anchors.set(self.active, pos);
        match jumped {
            Ok(update) => update,
            Err(_) => Update::nothing(),
        }
    }

    /// Searches the active source for the query of the prompt.
    fn commit<R: LineReader>(&mut self, sources: &SourceSet<R>) -> (update: Update)
        requires
            inv(old(self)@),
            fits(old(self)@, sources@),
            old(self)@.mode == Mode::SearchPrompt,
        ensures
            (final(self)@, update@) == commit_search(old(self)@, sources@),
            inv(final(self)@),
            fits(final(self)@, sources@),
    {
        let found: Vec<usize> = get_matches(
            sources.lines(self.active),
            trim(self.search.query.as_str()),
            self.search.regex,
        );
        if found.len() == 0 {
            self.rest();
            self.draw(sources, None, Some(String::from_str("No matches")))
        } else {
            self.mode = Mode::SearchNavigate;
            self.search.matches = found;
            self.search.match_cursor = 0;
            self.show(sources, 0)
        }
    }

    /// Answers a key of a search. In the prompt, characters add to the query
    /// and backspace takes the last one away; on an empty prompt backspace
    /// gives up, as escape always does, and enter commits the query. Among
    /// the matches, keys step forward and backward, going round, until
    /// escape or `q` ends the search.
    pub fn handle_search_mode<R: LineReader>(
        &mut self,
        key: Key,
        sources: &SourceSet<R>,
    ) -> (update: Update)
        requires
            inv(old(self)@),
            fits(old(self)@, sources@),
            old(self)@.mode == Mode::SearchPrompt || old(self)@.mode == Mode::SearchNavigate,
        ensures
            (final(self)@, update@) == on_search_key(old(self)@, sources@, key),
            inv(final(self)@),
            fits(final(self)@, sources@),
    {
        match self.mode {
            Mode::SearchPrompt => match key {
                Key::Char(ch) => {
                    push_char(&mut self.search.query, ch);
                    Update::tell(self.prompt_text())
                },
                Key::Backspace => {
                    if self.search.query.as_str().unicode_len() > 0 {
                        self.search.query = without_last(self.search.query.as_str());
                        Update::tell(self.prompt_text())
                    } else {
                        self.leave_search_mode(sources)
                    }
                },
                Key::Esc => self.leave_search_mode(sources),
                Key::Enter => self.commit(sources),
                _ => Update::nothing(),
            },
            _ => {
                let total: usize = self.search.matches.len();
                let here: usize = self.search.match_cursor;
                proof {
                    lemma_going_round(here as int, total as int);
                }
                let after: usize = if here + 1 == total {
                    0
                } else {
                    here + 1
                };
                let before: usize = if here == 0 {
                    total - 1
                } else {
                    here - 1
                };
                match key {
                    Key::Char(ch) => {
                        if ch == 'n' {
                            self.show(sources, after)
                        } else if ch == 'p' {
                            self.show(sources, before)
                        } else if ch == 'q' {
                            self.leave_search_mode(sources)
                        } else {
                            Update::nothing()
                        }
                    },
                    Key::Down => self.show(sources, after),
                    Key::Right => self.show(sources, after),
                    Key::Enter => self.show(sources, after),
                    Key::Up => self.show(sources, before),
                    Key::Left => self.show(sources, before),
                    Key::Esc => self.leave_search_mode(sources),
                    _ => Update::nothing(),
                }
            },
        }
    }

    /// Writes the status row of the search prompt.
    fn prompt_text(&self) -> (r: String)
        ensures
            r@ == prompt_status(self@.regex, self@.query),
    {
        if self.search.regex {
            labelled("Regex: ", self.search.query.as_str())
        } else {
            labelled("Search: ", self.search.query.as_str())
        }
    }

    /// Tells whether the controller keeps an anchor for each of `sources`.
    pub fn serves<R: LineReader>(&self, sources: &SourceSet<R>) -> (r: bool)
        ensures
            r == fits(self@, sources@),
    {
        self.anchors.len() == sources.len()
    }

    /// Takes one message and answers it: the controller moves to its next
    /// state and says what to do with the terminal.
    pub fn step<R: LineReader>(
        &mut self,
        message: TerminalThreadMessage,
        sources: &SourceSet<R>,
    ) -> (update: Update)
        requires
            inv(old(self)@),
            fits(old(self)@, sources@),
        ensures
            (final(self)@, update@) == transition(old(self)@, sources@, message),
            inv(final(self)@),
            fits(final(self)@, sources@),
    {
        match message {
            TerminalThreadMessage::KeyEvent(press) => {
                if !press.pressed {
                    Update::nothing()
                } else {
                    match self.mode {
                        Mode::Normal => self.handle_normal_key(press, sources),
                        Mode::GotoLinePrompt => self.handle_go_to_line(press.key, sources),
                        Mode::SearchPrompt => self.handle_search_mode(press.key, sources),
                        Mode::SearchNavigate => self.handle_search_mode(press.key, sources),
                    }
                }
            },
            TerminalThreadMessage::Resize(cols, rows) => {
                self.cols = cols as usize;
                self.rows = rows as usize;
                match self.mode {
                    Mode::Normal => self.draw(sources, None, None),
                    _ => Update::nothing(),
                }
            },
            TerminalThreadMessage::Read(source) => {
                let follows: bool = match self.anchors[self.active] {
                    None => true,
                    Some(_) => false,
                };
                let normal: bool = match self.mode {
                    Mode::Normal => true,
                    _ => false,
                };
                if normal && follows && source < sources.len() && sources.feeds(
                    source,
                    self.active,
                ) {
                    self.draw(sources, None, None)
                } else {
                    Update::nothing()
                }
            },
        }
    }
}

/// Finds the line that the digits of the prompt ask for.
pub fn wanted_line(digits: &str, n_lines: usize) -> (r: Option<usize>)
    requires
        all_digits(digits@),
    ensures
        r == goto_target(digits@, n_lines as nat),
{
    match parse_decimal(digits) {
        None => None,
        Some(number) => {
            if number > n_lines {
                None
            } else if number == 0 {
                Some(0)
            } else {
                Some(number - 1)
            }
        },
    }
}

/// Counting on by one among `total` places, going round.
proof fn lemma_going_round(place: int, total: int)
    requires
        0 <= place < total,
    ensures
        place + 1 == total ==> (place + 1) % total == 0,
        place + 1 < total ==> (place + 1) % total == place + 1,
        place == 0 ==> (place + total - 1) % total == total - 1,
        place > 0 ==> (place + total - 1) % total == place - 1,
{
    if place + 1 == total {
        assert((place + 1) % total == 0) by (nonlinear_arith)
            requires
                place + 1 == total,
                total > 0,
        ;
    } else {
        vstd::arithmetic::div_mod::lemma_small_mod((place + 1) as nat, total as nat);
    }
    if place == 0 {
        vstd::arithmetic::div_mod::lemma_small_mod((total - 1) as nat, total as nat);
    } else {
        vstd::arithmetic::div_mod::lemma_mod_add_multiples_vanish(place - 1, total);
        vstd::arithmetic::div_mod::lemma_small_mod((place - 1) as nat, total as nat);
    }
}

/// The controller before its first step.
pub open spec fn initial(sources: Seq<SourceView>, cols: u16, rows: u16) -> ControllerView {
    ControllerView {
        anchors: Seq::new(
            sources.len(),
            |i: int|
                if i == 0 && sources[0].lines.len() < rows {
                    None
                } else {
                    Some(0usize)
                },
        ),
        active: 0,
        mode: Mode::Normal,
        digits: Seq::empty(),
        query: Seq::empty(),
        regex: false,
        matches: Seq::empty(),
        match_cursor: 0,
        cols: cols as usize,
        rows: rows as usize,
    }
}

/// Every step leaves the controller in order, with one anchor per source.
pub proof fn lemma_transition_keeps_order(
    c: ControllerView,
    sources: Seq<SourceView>,
    message: TerminalThreadMessage,
)
    requires
        inv(c),
        fits(c, sources),
        forall|i: int|
            0 <= i < sources.len() ==> (#[trigger] sources[i]).lines.len() <= usize::MAX,
    ensures
        inv(transition(c, sources, message).0),
        fits(transition(c, sources, message).0, sources),
{
    let next = transition(c, sources, message).0;
    match message {
        TerminalThreadMessage::KeyEvent(press) => {
            if press.pressed {
                match c.mode {
                    Mode::Normal => {
                        lemma_going_round(c.active as int, c.anchors.len() as int);
                    },
                    Mode::GotoLinePrompt => {
                        assert(all_digits(next.digits)) by {
                            assert forall|i: int| 0 <= i < next.digits.len() implies is_digit(
                                #[trigger] next.digits[i],
                            ) by {
                                if i < c.digits.len() {
                                    assert(is_digit(c.digits[i]));
                                }
                            }
                        }
                    },
                    Mode::SearchPrompt => {
                        let lines = sources[c.active as int].lines;
                        crate::search::lemma_positions_of(
                            crate::search::hits(lines, trimmed(c.query), c.regex),
                        );
                    },
                    Mode::SearchNavigate => {
                        lemma_going_round(c.match_cursor as int, c.matches.len() as int);
                    },
                }
            }
        },
        _ => {},
    }
}

/// Switching sources moves no anchor: each source keeps its own.
pub proof fn lemma_switch_keeps_anchors(c: ControllerView, sources: Seq<SourceView>)
    requires
        inv(c),
        fits(c, sources),
    ensures
        switch_source(c, sources).0.anchors == c.anchors,
        c.anchors.len() > 1 ==> switch_source(c, sources).0.active != c.active,
{
    lemma_going_round(c.active as int, c.anchors.len() as int);
}

/// Typing into a prompt moves no anchor, and giving a prompt up with escape
/// brings back normal mode with the anchors as they were before the prompt.
pub proof fn lemma_prompt_keeps_anchors(c: ControllerView, sources: Seq<SourceView>, key: Key)
    requires
        inv(c),
        fits(c, sources),
        c.mode == Mode::GotoLinePrompt || c.mode == Mode::SearchPrompt,
    ensures
        ({
            let press = KeyPress { key, shift: false, pressed: true };
            let next = on_key(c, sources, press).0;
            &&& next.mode == c.mode ==> next.anchors == c.anchors
            &&& key == Key::Esc ==> next.mode == Mode::Normal && next.anchors == c.anchors
            &&& key == Key::Esc ==> on_key(c, sources, press).1.highlight is None
        }),
{
}

/// Committing a line number between one and the number of lines marks the
/// line of that number and pins the viewport a page above it, or at the first
/// line where the page reaches past it. A number beyond the last line moves
/// nothing and marks nothing.
pub proof fn lemma_goto_commit(c: ControllerView, sources: Seq<SourceView>)
    requires
        inv(c),
        fits(c, sources),
        c.mode == Mode::GotoLinePrompt,
        c.digits.len() > 0,
        sources[c.active as int].lines.len() <= usize::MAX,
    ensures
        ({
            let number = decimal_value(c.digits);
            let n_lines = sources[c.active as int].lines.len();
            let (next, update) = on_goto_key(c, sources, Key::Enter);
            &&& next.mode == Mode::Normal
            &&& 1 <= number <= n_lines ==> {
                &&& update.highlight == Some((number - 1) as usize)
                &&& next.anchors[c.active as int] == Some(
                    if number - 1 >= PAGE_SIZE {
                        (number - 1 - PAGE_SIZE) as usize
                    } else {
                        0usize
                    },
                )
            }
            &&& number > n_lines ==> update.highlight is None && next.anchors == c.anchors
        }),
{
}

/// A line that arrives in the active source while its viewport follows the
/// tail is put on screen at once: the frame drawn for the notice ends with
/// the rows of that line, provided the viewport is tall enough to hold them.
pub proof fn lemma_arriving_line_is_shown(
    c: ControllerView,
    sources: Seq<SourceView>,
    source: usize,
    line: Seq<char>,
)
    requires
        inv(c),
        fits(c, sources),
        c.mode == Mode::Normal,
        c.anchors[c.active as int] is None,
        source < sources.len(),
        receives(sources, source as int, c.active as int),
        sources[c.active as int].lines.len() < usize::MAX,
        c.cols > 0,
        rows_of(line.len(), c.cols as nat) <= capacity_of(c.rows),
    ensures
        ({
            let now = after_append(sources, source as int, line);
            let (next, update) = transition(c, now, TerminalThreadMessage::Read(source));
            let index = sources[c.active as int].lines.len() as usize;
            let added = rows_of_line(line, c.cols as nat, index, false);
            &&& next == c
            &&& update.frame matches Some(shown)
            &&& added.len() <= shown.len()
            &&& shown.skip(shown.len() - added.len()) == added
        }),
{
    let now = after_append(sources, source as int, line);
    assert(now[c.active as int].lines == sources[c.active as int].lines.push(line));
    assert(receives(now, source as int, c.active as int));
    lemma_followed_tail_shows_appended_line(
        sources[c.active as int].lines,
        line,
        c.cols as nat,
        capacity_of(c.rows),
        None,
    );
}

/// A match that the controller steps to is on screen, and marked, whenever
/// the page of lines above it takes fewer rows than the viewport holds.
pub proof fn lemma_shown_match_is_on_screen(
    c: ControllerView,
    sources: Seq<SourceView>,
    cursor: usize,
)
    requires
        inv(c),
        fits(c, sources),
        c.mode == Mode::SearchNavigate,
        cursor < c.matches.len(),
        c.cols > 0,
        c.matches[cursor as int] < sources[c.active as int].lines.len() <= usize::MAX,
        rows_between(
            sources[c.active as int].lines,
            c.cols as nat,
            floor_at_zero(c.matches[cursor as int] - PAGE_SIZE),
            c.matches[cursor as int] as int,
        ) < capacity_of(c.rows),
    ensures
        ({
            let line = c.matches[cursor as int];
            let update = show_match(c, sources, cursor).1;
            &&& update.highlight == Some(line)
            &&& update.frame matches Some(shown)
            &&& exists|k: int|
                0 <= k < shown.len() && (#[trigger] shown[k]).line == line && shown[k].highlight
        }),
{
    let line = c.matches[cursor as int];
    lemma_look_behind_shows_line(
        sources[c.active as int].lines,
        c.cols as nat,
        capacity_of(c.rows),
        line,
        PAGE_SIZE as nat,
    );
    let shown = frame(
        sources[c.active as int].lines,
        c.cols as nat,
        capacity_of(c.rows),
        with_look_behind(Some(line), PAGE_SIZE as int),
        Some(line),
    );
    let k = choose|k: int|
        0 <= k < shown.len() && (#[trigger] shown[k]).line == line && shown[k].highlight;
    let got = show_match(c, sources, cursor).1.frame->0;
    assert(got == shown);
    assert(got[k].line == line && got[k].highlight);
}

/// A line that the line prompt jumps to is on screen, and marked, whenever
/// the page of lines above it takes fewer rows than the viewport holds.
pub proof fn lemma_goto_line_is_on_screen(c: ControllerView, sources: Seq<SourceView>, line: usize)
    requires
        inv(c),
        fits(c, sources),
        c.cols > 0,
        line < sources[c.active as int].lines.len() <= usize::MAX,
        rows_between(
            sources[c.active as int].lines,
            c.cols as nat,
            floor_at_zero(line - PAGE_SIZE),
            line as int,
        ) < capacity_of(c.rows),
    ensures
        ({
            let update = leave_goto(c, sources, Some(line)).1;
            &&& update.highlight == Some(line)
            &&& update.frame matches Some(shown)
            &&& exists|k: int|
                0 <= k < shown.len() && (#[trigger] shown[k]).line == line && shown[k].highlight
        }),
{
    lemma_look_behind_shows_line(
        sources[c.active as int].lines,
        c.cols as nat,
        capacity_of(c.rows),
        line,
        PAGE_SIZE as nat,
    );
    let shown = frame(
        sources[c.active as int].lines,
        c.cols as nat,
        capacity_of(c.rows),
        with_look_behind(Some(line), PAGE_SIZE as int),
        Some(line),
    );
    let k = choose|k: int|
        0 <= k < shown.len() && (#[trigger] shown[k]).line == line && shown[k].highlight;
    let got = leave_goto(c, sources, Some(line)).1.frame->0;
    assert(got == shown);
    assert(got[k].line == line && got[k].highlight);
}

} // verus!
