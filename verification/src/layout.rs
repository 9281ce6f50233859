//! Which rows of which lines are on screen.
//!
//! The terminal does not wrap lines for the pager, so each line is cut into
//! rows of at most `cols` characters. A viewport of `capacity` rows starts at
//! the anchor, or far enough above the tail that the last line is the last
//! thing shown, and is filled from there downwards.

use vstd::prelude::*;
use crate::position::{floor_at_zero, with_look_behind};
use crate::text::{line_terminator, terminator, trim_trailing_newlines, without_trailing_breaks};

verus! {

/// Rows of leading context that the walk towards a highlighted line may use.
pub const PRELUDE_ROWS: usize = 5;

/// Rows of leading context beyond which the last line walked over is given up.
pub const PRELUDE_LIMIT: usize = 10;

/// One physical row of the screen.
pub struct Row {
    /// Index of the line this row is cut from.
    pub line: usize,
    /// What to print: the piece of the line, without line breaks of its own,
    /// followed by the terminator.
    pub text: String,
    /// Whether the row belongs to the highlighted line.
    pub highlight: bool,
}

/// A `Row` as the contracts see it.
pub ghost struct RowView {
    pub line: usize,
    pub text: Seq<char>,
    pub highlight: bool,
}

impl View for Row {
    type V = RowView;

    open spec fn view(&self) -> RowView {
        RowView { line: self.line, text: self.text@, highlight: self.highlight }
    }
}

/// The rows of a frame as the contracts see them.
pub open spec fn rows_view(rows: Seq<Row>) -> Seq<RowView> {
    rows.map_values(|r: Row| r@)
}

/// Number of rows that a line of `len` characters takes at a width of `cols`:
/// `len / cols` rounded up, and one row for an empty line.
pub open spec fn rows_of(len: nat, cols: nat) -> nat {
    if len == 0 || cols == 0 {
        1
    } else {
        ((len - 1) / (cols as int) + 1) as nat
    }
}

/// Number of rows that the lines `from..to` take together.
pub open spec fn rows_between(lines: Seq<Seq<char>>, cols: nat, from: int, to: int) -> nat
    decreases to - from,
{
    if from >= to {
        0
    } else {
        rows_of(lines[to - 1].len(), cols) + rows_between(lines, cols, from, to - 1)
    }
}

/// Walks up from line `end` while whole lines still fit into `budget` rows,
/// and returns the line at which the walk stops.
pub open spec fn packed_start(lines: Seq<Seq<char>>, cols: nat, end: int, budget: nat) -> int
    decreases end,
{
    if end <= 0 {
        0
    } else if rows_of(lines[end - 1].len(), cols) > budget {
        end
    } else {
        packed_start(
            lines,
            cols,
            end - 1,
            (budget - rows_of(lines[end - 1].len(), cols)) as nat,
        )
    }
}

/// First line of the viewport that follows the tail: the topmost line from
/// which everything down to the last line fits. A last line that is taller
/// than the viewport is shown from its first row.
pub open spec fn tail_start(lines: Seq<Seq<char>>, cols: nat, capacity: nat) -> int {
    let s = packed_start(lines, cols, lines.len() as int, capacity);
    if s == lines.len() && s > 0 {
        s - 1
    } else {
        s
    }
}

/// First line of the viewport before a highlight is taken into account. An
/// anchor so close to the end that the viewport would not be full gives way
/// to the start that follows the tail.
pub open spec fn anchored_start(
    lines: Seq<Seq<char>>,
    cols: nat,
    capacity: nat,
    anchor: Option<usize>,
) -> int {
    let tail = tail_start(lines, cols, capacity);
    match anchor {
        Some(a) => if a < tail {
            a as int
        } else {
            tail
        },
        None => tail,
    }
}

/// Walks up from `start` towards `target`, one line at a time, while fewer than
/// `PRELUDE_ROWS` rows have been gathered. Returns where the walk stops and the
/// rows gathered by then.
pub open spec fn lead_in(lines: Seq<Seq<char>>, cols: nat, start: int, target: int, used: nat) -> (
    int,
    nat,
)
    decreases start,
{
    if start > target && start > 0 && used < PRELUDE_ROWS {
        lead_in(lines, cols, start - 1, target, used + rows_of(lines[start - 1].len(), cols))
    } else {
        (start, used)
    }
}

/// First line of the viewport once a highlighted line above `start` has pulled
/// it up. The walk gives its last line back when it gathered more than
/// `PRELUDE_LIMIT` rows.
pub open spec fn highlighted_start(
    lines: Seq<Seq<char>>,
    cols: nat,
    start: int,
    highlight: Option<usize>,
) -> int {
    match highlight {
        Some(h) => if h < start {
            let (s, used) = lead_in(lines, cols, start, h as int, 0);
            if used > PRELUDE_LIMIT {
                s + 1
            } else {
                s
            }
        } else {
            start
        },
        None => start,
    }
}

/// First line of the viewport.
pub open spec fn viewport_start(
    lines: Seq<Seq<char>>,
    cols: nat,
    capacity: nat,
    anchor: Option<usize>,
    highlight: Option<usize>,
) -> int {
    highlighted_start(lines, cols, anchored_start(lines, cols, capacity, anchor), highlight)
}

/// A line cut into pieces of `cols` characters; the last piece holds the rest.
pub open spec fn wrapped(line: Seq<char>, cols: nat) -> Seq<Seq<char>>
    decreases line.len(),
{
    if cols == 0 || line.len() <= cols {
        seq![line]
    } else {
        seq![line.take(cols as int)] + wrapped(line.skip(cols as int), cols)
    }
}

/// What is printed for one piece of a line.
pub open spec fn shown(piece: Seq<char>) -> Seq<char> {
    without_trailing_breaks(piece) + line_terminator()
}

/// The rows of one line.
pub open spec fn rows_of_line(line: Seq<char>, cols: nat, index: usize, highlight: bool) -> Seq<
    RowView,
> {
    wrapped(line, cols).map_values(
        |piece: Seq<char>| RowView { line: index, text: shown(piece), highlight },
    )
}

/// The rows of the lines from `from` to the end of the buffer.
pub open spec fn rows_from(
    lines: Seq<Seq<char>>,
    cols: nat,
    from: int,
    highlight: Option<usize>,
) -> Seq<RowView>
    decreases lines.len() - from,
{
    if from < 0 || from >= lines.len() {
        Seq::empty()
    } else {
        rows_of_line(lines[from], cols, from as usize, highlight == Some(from as usize))
            + rows_from(lines, cols, from + 1, highlight)
    }
}

/// What is on screen: the rows from the first line of the viewport downwards,
/// as many as the viewport holds. A viewport without width shows nothing.
pub open spec fn frame(
    lines: Seq<Seq<char>>,
    cols: nat,
    capacity: nat,
    anchor: Option<usize>,
    highlight: Option<usize>,
) -> Seq<RowView> {
    if cols == 0 {
        Seq::empty()
    } else {
        let all = rows_from(
            lines,
            cols,
            viewport_start(lines, cols, capacity, anchor, highlight),
            highlight,
        );
        if all.len() <= capacity {
            all
        } else {
            all.take(capacity as int)
        }
    }
}

/// A line is cut into as many pieces as it takes rows.
pub proof fn lemma_wrapped_len(line: Seq<char>, cols: nat)
    ensures
        wrapped(line, cols).len() == rows_of(line.len(), cols),
    decreases line.len(),
{
    if cols == 0 || line.len() <= cols {
        if cols > 0 && line.len() > 0 {
            assert((line.len() - 1) / (cols as int) == 0) by (nonlinear_arith)
                requires
                    0 < line.len() <= cols,
            ;
        }
    } else {
        let rest = line.skip(cols as int);
        lemma_wrapped_len(rest, cols);
        assert((line.len() - 1) / (cols as int) == (line.len() - cols - 1) / (cols as int) + 1)
            by (nonlinear_arith)
            requires
                0 < cols < line.len(),
        ;
    }
}

/// The pieces of a line, put together again, are the line.
pub proof fn lemma_wrapped_covers(line: Seq<char>, cols: nat)
    ensures
        wrapped(line, cols).flatten() == line,
        cols > 0 ==> forall|k: int|
            0 <= k < wrapped(line, cols).len() ==> (#[trigger] wrapped(line, cols)[k]).len()
                <= cols,
    decreases line.len(),
{
    broadcast use vstd::seq_lib::group_seq_properties;

    if cols == 0 || line.len() <= cols {
        assert(seq![line].flatten() =~= line) by {
            assert(seq![line].drop_first() =~= Seq::<Seq<char>>::empty());
            assert(seq![line].first() == line);
            reveal_with_fuel(Seq::flatten, 2);
        }
    } else {
        let head = line.take(cols as int);
        let rest = line.skip(cols as int);
        lemma_wrapped_covers(rest, cols);
        let w = wrapped(line, cols);
        assert(w.first() == head);
        assert(w.drop_first() =~= wrapped(rest, cols));
        assert(w.flatten() =~= head + wrapped(rest, cols).flatten());
        assert(head + rest =~= line);
        assert forall|k: int| 0 <= k < w.len() implies (#[trigger] w[k]).len() <= cols by {
            if k > 0 {
                assert(w[k] == wrapped(rest, cols)[k - 1]);
            }
        }
    }
}

/// Rows add up over adjacent ranges of lines.
pub proof fn lemma_rows_between_split(
    lines: Seq<Seq<char>>,
    cols: nat,
    from: int,
    mid: int,
    to: int,
)
    requires
        from <= mid <= to,
    ensures
        rows_between(lines, cols, from, to) == rows_between(lines, cols, from, mid) + rows_between(
            lines,
            cols,
            mid,
            to,
        ),
    decreases to - mid,
{
    if mid < to {
        lemma_rows_between_split(lines, cols, from, mid, to - 1);
    }
}

/// The lines from `from` to the end are laid out in as many rows as they take.
pub proof fn lemma_rows_from_len(
    lines: Seq<Seq<char>>,
    cols: nat,
    from: int,
    highlight: Option<usize>,
)
    requires
        0 <= from <= lines.len(),
    ensures
        rows_from(lines, cols, from, highlight).len() == rows_between(
            lines,
            cols,
            from,
            lines.len() as int,
        ),
    decreases lines.len() - from,
{
    if from < lines.len() {
        lemma_rows_from_len(lines, cols, from + 1, highlight);
        lemma_wrapped_len(lines[from], cols);
        lemma_rows_between_split(lines, cols, from, from + 1, lines.len() as int);
        assert(rows_between(lines, cols, from, from + 1) == rows_of(lines[from].len(), cols)) by {
            assert(rows_between(lines, cols, from, from) == 0);
        }
    }
}

/// The walk up from `end` stops at the topmost line from which everything down
/// to `end` fits into the budget.
pub proof fn lemma_packed_start_is_least(lines: Seq<Seq<char>>, cols: nat, end: int, budget: nat)
    requires
        0 <= end <= lines.len(),
    ensures
        0 <= packed_start(lines, cols, end, budget) <= end,
        rows_between(lines, cols, packed_start(lines, cols, end, budget), end) <= budget,
        packed_start(lines, cols, end, budget) > 0 ==> rows_between(
            lines,
            cols,
            packed_start(lines, cols, end, budget) - 1,
            end,
        ) > budget,
    decreases end,
{
    if end > 0 {
        let r = rows_of(lines[end - 1].len(), cols);
        if r > budget {
            assert(rows_between(lines, cols, end, end) == 0);
            assert(rows_between(lines, cols, end - 1, end) == r + rows_between(
                lines,
                cols,
                end - 1,
                end - 1,
            ));
        } else {
            let s = packed_start(lines, cols, end - 1, (budget - r) as nat);
            lemma_packed_start_is_least(lines, cols, end - 1, (budget - r) as nat);
            lemma_rows_between_split(lines, cols, s, end - 1, end);
            assert(rows_between(lines, cols, end - 1, end) == r + rows_between(
                lines,
                cols,
                end - 1,
                end - 1,
            ));
            if s > 0 {
                lemma_rows_between_split(lines, cols, s - 1, end - 1, end);
            }
        }
    }
}

/// The rows of everything from `from` downwards end with the rows of the last
/// line.
pub proof fn lemma_rows_from_ends_with_last(
    lines: Seq<Seq<char>>,
    cols: nat,
    from: int,
    highlight: Option<usize>,
)
    requires
        0 <= from < lines.len(),
    ensures
        ({
            let all = rows_from(lines, cols, from, highlight);
            let last = (lines.len() - 1) as usize;
            let tail = rows_of_line(lines.last(), cols, last, highlight == Some(last));
            &&& tail.len() <= all.len()
            &&& all.skip(all.len() - tail.len()) == tail
        }),
    decreases lines.len() - from,
{
    let all = rows_from(lines, cols, from, highlight);
    let last = (lines.len() - 1) as usize;
    let tail = rows_of_line(lines.last(), cols, last, highlight == Some(last));
    if from == lines.len() - 1 {
        assert(rows_from(lines, cols, from + 1, highlight) =~= Seq::empty());
        assert(all =~= tail);
        assert(all.skip(0) =~= all);
    } else {
        lemma_rows_from_ends_with_last(lines, cols, from + 1, highlight);
        let below = rows_from(lines, cols, from + 1, highlight);
        assert(all.skip(all.len() - tail.len()) =~= below.skip(below.len() - tail.len()));
    }
}

/// While the viewport follows the tail, a line that has just been appended is
/// on screen in full whenever the viewport is tall enough to hold it: the
/// frame ends with the rows of that line. A highlight does not disturb this
/// unless it sits above the viewport and pulls it up.
pub proof fn lemma_followed_tail_shows_appended_line(
    before: Seq<Seq<char>>,
    line: Seq<char>,
    cols: nat,
    capacity: nat,
    highlight: Option<usize>,
)
    requires
        cols > 0,
        before.len() < usize::MAX,
        rows_of(line.len(), cols) <= capacity,
        highlight matches Some(h) ==> h >= tail_start(before.push(line), cols, capacity),
    ensures
        ({
            let shown = frame(before.push(line), cols, capacity, None, highlight);
            let index = before.len() as usize;
            let added = rows_of_line(line, cols, index, highlight == Some(index));
            &&& added.len() == rows_of(line.len(), cols)
            &&& added.len() <= shown.len()
            &&& shown.skip(shown.len() - added.len()) == added
        }),
{
    let lines = before.push(line);
    let n = lines.len() as int;
    let start = tail_start(lines, cols, capacity);
    lemma_packed_start_is_least(lines, cols, n, capacity);
    assert(lines.last() == line);
    lemma_packed_start_is_least(
        lines,
        cols,
        n - 1,
        (capacity - rows_of(line.len(), cols)) as nat,
    );
    assert(packed_start(lines, cols, n, capacity) < n);
    assert(start == packed_start(lines, cols, n, capacity));
    assert(viewport_start(lines, cols, capacity, None, highlight) == start);
    lemma_rows_from_len(lines, cols, start, highlight);
    lemma_rows_from_ends_with_last(lines, cols, start, highlight);
    lemma_wrapped_len(line, cols);
}

/// The first row of a line stands as many rows below the top as the lines
/// above it take.
pub proof fn lemma_first_row_of_line(
    lines: Seq<Seq<char>>,
    cols: nat,
    from: int,
    line: int,
    highlight: Option<usize>,
)
    requires
        0 <= from <= line < lines.len(),
        lines.len() <= usize::MAX,
    ensures
        ({
            let all = rows_from(lines, cols, from, highlight);
            let at = rows_between(lines, cols, from, line) as int;
            &&& at < all.len()
            &&& all[at].line == line
            &&& all[at].highlight == (highlight == Some(line as usize))
        }),
    decreases line - from,
{
    let all = rows_from(lines, cols, from, highlight);
    let own = rows_of_line(lines[from], cols, from as usize, highlight == Some(from as usize));
    lemma_wrapped_len(lines[from], cols);
    if from == line {
        assert(rows_between(lines, cols, from, line) == 0);
        assert(all[0] == own[0]);
    } else {
        lemma_first_row_of_line(lines, cols, from + 1, line, highlight);
        lemma_rows_between_split(lines, cols, from, from + 1, line);
        assert(rows_between(lines, cols, from, from + 1) == rows_of(lines[from].len(), cols)) by {
            assert(rows_between(lines, cols, from, from) == 0);
        }
        let below = rows_from(lines, cols, from + 1, highlight);
        let at = rows_between(lines, cols, from + 1, line) as int;
        assert(all[own.len() + at] == below[at]);
    }
}

/// A highlighted line is on screen, and marked, whenever the lines between
/// the top of the viewport and it take fewer rows than the viewport holds.
pub proof fn lemma_highlight_is_on_screen(
    lines: Seq<Seq<char>>,
    cols: nat,
    capacity: nat,
    anchor: Option<usize>,
    line: usize,
)
    requires
        cols > 0,
        line < lines.len() <= usize::MAX,
        viewport_start(lines, cols, capacity, anchor, Some(line)) <= line,
        rows_between(
            lines,
            cols,
            viewport_start(lines, cols, capacity, anchor, Some(line)),
            line as int,
        ) < capacity,
    ensures
        ({
            let shown = frame(lines, cols, capacity, anchor, Some(line));
            exists|k: int|
                0 <= k < shown.len() && (#[trigger] shown[k]).line == line && shown[k].highlight
        }),
{
    let start = viewport_start(lines, cols, capacity, anchor, Some(line));
    lemma_viewport_start_bounds(lines, cols, capacity, anchor, Some(line));
    lemma_first_row_of_line(lines, cols, start, line as int, Some(line));
    let shown = frame(lines, cols, capacity, anchor, Some(line));
    let at = rows_between(lines, cols, start, line as int) as int;
    assert(shown[at].line == line && shown[at].highlight);
}

/// The viewport starts at a line of the buffer, or at zero while the buffer
/// is empty.
pub proof fn lemma_viewport_start_bounds(
    lines: Seq<Seq<char>>,
    cols: nat,
    capacity: nat,
    anchor: Option<usize>,
    highlight: Option<usize>,
)
    ensures
        0 <= viewport_start(lines, cols, capacity, anchor, highlight),
        viewport_start(lines, cols, capacity, anchor, highlight) <= lines.len(),
        lines.len() > 0 ==> viewport_start(lines, cols, capacity, anchor, highlight) < lines.len(),
{
    lemma_packed_start_is_least(lines, cols, lines.len() as int, capacity);
    let base = anchored_start(lines, cols, capacity, anchor);
    match highlight {
        Some(h) => {
            if h < base {
                lemma_lead_in_bounds(lines, cols, base, h as int, 0);
            }
        },
        None => {},
    }
}

/// The walk towards a highlighted line stops between that line and where it
/// set out, and has moved once it has gathered a row.
pub proof fn lemma_lead_in_bounds(
    lines: Seq<Seq<char>>,
    cols: nat,
    start: int,
    target: int,
    used: nat,
)
    requires
        0 <= target <= start,
    ensures
        target <= lead_in(lines, cols, start, target, used).0 <= start,
        lead_in(lines, cols, start, target, used).1 >= used,
        lead_in(lines, cols, start, target, used).1 > used ==> lead_in(
            lines,
            cols,
            start,
            target,
            used,
        ).0 < start,
    decreases start,
{
    if start > target && start > 0 && used < PRELUDE_ROWS {
        lemma_lead_in_bounds(
            lines,
            cols,
            start - 1,
            target,
            used + rows_of(lines[start - 1].len(), cols),
        );
    }
}

/// A viewport pinned `look_behind` lines above a line shows that line, marked,
/// whenever the lines of the look-behind take fewer rows than the viewport
/// holds. This also holds where the anchor has given way to a full viewport
/// at the end of the buffer.
pub proof fn lemma_look_behind_shows_line(
    lines: Seq<Seq<char>>,
    cols: nat,
    capacity: nat,
    line: usize,
    look_behind: nat,
)
    requires
        cols > 0,
        line < lines.len() <= usize::MAX,
        rows_between(lines, cols, floor_at_zero(line - look_behind), line as int) < capacity,
    ensures
        ({
            let anchor = with_look_behind(Some(line), look_behind as int);
            let shown = frame(lines, cols, capacity, anchor, Some(line));
            exists|k: int|
                0 <= k < shown.len() && (#[trigger] shown[k]).line == line && shown[k].highlight
        }),
{
    let n = lines.len() as int;
    let pinned = floor_at_zero(line - look_behind);
    let anchor = with_look_behind(Some(line), look_behind as int);
    assert(anchor == Some(pinned as usize));
    let tail = tail_start(lines, cols, capacity);
    let packed = packed_start(lines, cols, n, capacity);
    lemma_packed_start_is_least(lines, cols, n, capacity);
    let start = anchored_start(lines, cols, capacity, anchor);
    assert(start <= line);
    assert(viewport_start(lines, cols, capacity, anchor, Some(line)) == start);
    if start != pinned {
        assert(start == tail);
        if tail == packed {
            lemma_rows_between_split(lines, cols, tail, line as int, n);
            assert(rows_between(lines, cols, line as int, n) >= 1) by {
                lemma_rows_between_split(lines, cols, line as int, line + 1, n);
                assert(rows_between(lines, cols, line as int, line + 1) == rows_of(
                    lines[line as int].len(),
                    cols,
                )) by {
                    assert(rows_between(lines, cols, line as int, line as int) == 0);
                }
            }
        } else {
            assert(tail == n - 1);
            assert(line == tail);
            assert(rows_between(lines, cols, tail, line as int) == 0);
        }
    }
    lemma_highlight_is_on_screen(lines, cols, capacity, anchor, line);
}

/// Counts the rows of a line of `len` characters.
pub fn line_rows(len: usize, cols: usize) -> (r: usize)
    ensures
        r == rows_of(len as nat, cols as nat),
        1 <= r,
        r <= len || r == 1,
{
    if len == 0 || cols == 0 {
        1
    } else {
        assert((len - 1) / (cols as int) <= len - 1) by (nonlinear_arith)
            requires
                len >= 1,
                cols >= 1,
        ;
        (len - 1) / cols + 1
    }
}

/// Finds the first line of the viewport that follows the tail.
pub fn find_tail_start(lines: &Vec<String>, cols: usize, capacity: usize) -> (s: usize)
    ensures
        s == tail_start(lines.deep_view(), cols as nat, capacity as nat),
        s <= lines.len(),
{
    let n: usize = lines.len();
    let ghost text = lines.deep_view();
    let mut s: usize = n;
    let mut budget: usize = capacity;
    let mut full: bool = false;
    while s > 0 && !full
        invariant
            n == lines.len(),
            text == lines.deep_view(),
            s <= n,
            packed_start(text, cols as nat, n as int, capacity as nat) == packed_start(
                text,
                cols as nat,
                s as int,
                budget as nat,
            ),
            full ==> s > 0 && rows_of(text[s - 1].len(), cols as nat) > budget,
        decreases s + (if full { 0int } else { 1int }),
    {
        let r: usize = line_rows(lines[s - 1].as_str().unicode_len(), cols);
        if r > budget {
            full = true;
        } else {
            budget = budget - r;
            s = s - 1;
        }
    }
    if s == n && n > 0 {
        n - 1
    } else {
        s
    }
}

/// Pulls the first line of the viewport up towards a highlighted line above it.
pub fn pull_up_to_highlight(
    lines: &Vec<String>,
    cols: usize,
    start: usize,
    highlight: Option<usize>,
) -> (s: usize)
    requires
        start <= lines.len(),
    ensures
        s == highlighted_start(lines.deep_view(), cols as nat, start as int, highlight),
        s <= start,
{
    let target: usize = match highlight {
        Some(h) => h,
        None => {
            return start;
        },
    };
    if target >= start {
        return start;
    }
    let ghost text = lines.deep_view();
    let mut s: usize = start;
    let mut used: u128 = 0;
    while s > target && used < PRELUDE_ROWS as u128
        invariant
            text == lines.deep_view(),
            target < start <= lines.len(),
            target <= s <= start,
            used > 0 ==> s < start,
            used <= usize::MAX + PRELUDE_ROWS,
            lead_in(text, cols as nat, start as int, target as int, 0) == lead_in(
                text,
                cols as nat,
                s as int,
                target as int,
                used as nat,
            ),
        decreases s,
    {
        let r: usize = line_rows(lines[s - 1].as_str().unicode_len(), cols);
        used = used + r as u128;
        s = s - 1;
    }
    if used > PRELUDE_LIMIT as u128 {
        s + 1
    } else {
        s
    }
}

/// Lays out the viewport: the rows to print, top to bottom.
///
/// `pos` is the anchor of the viewport and `highlight` the line to mark, if
/// any; `capacity` is the number of rows that the viewport holds.
pub fn render(
    lines: &Vec<String>,
    cols: usize,
    capacity: usize,
    pos: Option<usize>,
    highlight: Option<usize>,
) -> (rows: Vec<Row>)
    ensures
        rows_view(rows@) == frame(
            lines.deep_view(),
            cols as nat,
            capacity as nat,
            pos,
            highlight,
        ),
{
    let mut out: Vec<Row> = Vec::new();
    if cols == 0 {
        assert(rows_view(out@) =~= Seq::empty());
        return out;
    }
    let n: usize = lines.len();
    let ghost text = lines.deep_view();
    let tail: usize = find_tail_start(lines, cols, capacity);
    let base: usize = match pos {
        Some(a) => if a < tail {
            a
        } else {
            tail
        },
        None => tail,
    };
    let start: usize = pull_up_to_highlight(lines, cols, base, highlight);
    let ghost all = rows_from(text, cols as nat, start as int, highlight);
    let ghost mut rest = all;
    let mut i: usize = start;
    assert(rows_view(out@) + rest =~= all);
    while i < n && out.len() < capacity
        invariant
            n == lines.len(),
            text == lines.deep_view(),
            cols > 0,
            start <= i <= n,
            out.len() <= capacity,
            rest == rows_from(text, cols as nat, i as int, highlight),
            rows_view(out@) + rest == all,
            all == rows_from(
                text,
                cols as nat,
                viewport_start(text, cols as nat, capacity as nat, pos, highlight),
                highlight,
            ),
        decreases n - i,
    {
        let line: &str = lines[i].as_str();
        let len: usize = line.unicode_len();
        let marked: bool = match highlight {
            Some(h) => h == i,
            None => false,
        };
        let ghost below = rows_from(text, cols as nat, i + 1, highlight);
        let mut from: usize = 0;
        let mut cut: bool = false;
        assert(line@.skip(0) =~= line@);
        while !cut && out.len() < capacity
            invariant
                cols > 0,
                n == lines.len(),
                i < n,
                text.len() == n,
                line@ == text[i as int],
                len == line@.len(),
                from <= len,
                marked == (highlight == Some(i)),
                out.len() <= capacity,
                !cut ==> rest == rows_of_line(line@.skip(from as int), cols as nat, i, marked)
                    + below,
                cut ==> rest == below,
                rows_view(out@) + rest == all,
            decreases (if cut { 0int } else { 1int }), len - from,
        {
            let to: usize = if len - from <= cols {
                len
            } else {
                from + cols
            };
            let piece: &str = line.substring_char(from, to);
            let mut shown_text: String = String::from_str(trim_trailing_newlines(piece));
            shown_text.append(terminator());
            let row = Row { line: i, text: shown_text, highlight: marked };
            proof {
                let tail_of_line = line@.skip(from as int);
                let f = |p: Seq<char>| RowView { line: i, text: shown(p), highlight: marked };
                assert(row@ == f(piece@));
                let old_out = rows_view(out@);
                if to == len {
                    assert(piece@ =~= tail_of_line);
                    assert(wrapped(tail_of_line, cols as nat) =~= seq![tail_of_line]);
                    assert(rows_of_line(tail_of_line, cols as nat, i, marked) =~= seq![row@]);
                    assert(rows_view(out@.push(row)) + below =~= old_out + rest);
                } else {
                    let after = line@.skip(to as int);
                    assert(piece@ =~= tail_of_line.take(cols as int));
                    assert(after =~= tail_of_line.skip(cols as int));
                    assert(rows_of_line(tail_of_line, cols as nat, i, marked) =~= seq![row@]
                        + rows_of_line(after, cols as nat, i, marked));
                    assert(rows_view(out@.push(row)) + (rows_of_line(
                        after,
                        cols as nat,
                        i,
                        marked,
                    ) + below) =~= old_out + rest);
                    rest = rows_of_line(after, cols as nat, i, marked) + below;
                }
            }
            out.push(row);
            if to == len {
                cut = true;
                proof {
                    rest = below;
                }
            } else {
                from = to;
            }
        }
        if !cut {
            // The viewport is full in the middle of this line.
            proof {
                assert(out.len() == capacity);
                assert(all.len() == capacity + rest.len());
                assert(all.take(capacity as int) =~= rows_view(out@));
                if rest.len() == 0 {
                    assert(all =~= rows_view(out@));
                }
            }
            return out;
        }
        i = i + 1;
    }
    proof {
        assert(all.len() == out.len() + rest.len());
        if i == n {
            assert(rest =~= Seq::empty());
            assert(rows_view(out@) =~= all);
        } else {
            assert(all.take(capacity as int) =~= rows_view(out@));
            if rest.len() == 0 {
                assert(all =~= rows_view(out@));
            }
        }
    }
    out
}

} // verus!
