//! Text of a single line: terminators, white space, letter case and decimal
//! numbers.

use vstd::prelude::*;

verus! {

/// A character that ends a line.
pub open spec fn is_line_break(c: char) -> bool {
    c == '\n' || c == '\r'
}

/// The two characters that end every stored line.
pub open spec fn line_terminator() -> Seq<char> {
    seq!['\r', '\n']
}

/// How many characters of `s` are left once its trailing line breaks are gone.
pub open spec fn kept_len(s: Seq<char>) -> nat
    decreases s.len(),
{
    if s.len() > 0 && is_line_break(s.last()) {
        kept_len(s.drop_last())
    } else {
        s.len()
    }
}

/// `s` without the line breaks at its end.
pub open spec fn without_trailing_breaks(s: Seq<char>) -> Seq<char> {
    s.take(kept_len(s) as int)
}

/// Whether `s` ends with the canonical terminator.
pub open spec fn is_terminated(s: Seq<char>) -> bool {
    s.len() >= 2 && s[s.len() - 2] == '\r' && s[s.len() - 1] == '\n'
}

/// `s` with its end rewritten to the canonical terminator: a lone line feed is
/// replaced, a lone carriage return is completed, and text without any
/// terminator gets one.
pub open spec fn terminated(s: Seq<char>) -> Seq<char> {
    if is_terminated(s) {
        s
    } else if s.len() > 0 && s.last() == '\n' {
        s.drop_last() + line_terminator()
    } else if s.len() > 0 && s.last() == '\r' {
        s.push('\n')
    } else {
        s + line_terminator()
    }
}

/// What is kept is the longest start of the text that does not end in a
/// line break: nothing but line breaks follows it.
pub proof fn lemma_kept_len_bounds(s: Seq<char>)
    ensures
        kept_len(s) <= s.len(),
        kept_len(s) > 0 ==> !is_line_break(s[kept_len(s) - 1]),
        forall|i: int| kept_len(s) <= i < s.len() ==> is_line_break(#[trigger] s[i]),
    decreases s.len(),
{
    if s.len() > 0 && is_line_break(s.last()) {
        let t = s.drop_last();
        lemma_kept_len_bounds(t);
        assert forall|i: int| kept_len(s) <= i < s.len() implies is_line_break(
            #[trigger] s[i],
        ) by {
            if i < t.len() {
                assert(s[i] == t[i]);
            }
        }
        if kept_len(s) > 0 {
            assert(s[kept_len(s) - 1] == t[kept_len(t) - 1]);
        }
    }
}

/// Strips the line breaks from the end of `s`.
pub fn trim_trailing_newlines(s: &str) -> (r: &str)
    ensures
        r@ == without_trailing_breaks(s@),
{
    let mut end: usize = s.unicode_len();
    assert(s@.take(end as int) =~= s@);
    while end > 0 && is_break(s.get_char(end - 1))
        invariant
            end <= s@.len(),
            kept_len(s@) == kept_len(s@.take(end as int)),
        decreases end,
    {
        proof {
            let t = s@.take(end as int);
            assert(t.last() == s@[end - 1]);
            assert(t.drop_last() =~= s@.take(end - 1));
        }
        end = end - 1;
    }
    proof {
        let t = s@.take(end as int);
        if end > 0 {
            assert(t.last() == s@[end - 1]);
        }
        assert(kept_len(t) == t.len());
    }
    s.substring_char(0, end)
}

/// The terminator as text.
pub fn terminator() -> (r: &'static str)
    ensures
        r@ == line_terminator(),
{
    proof {
        reveal_strlit("\r\n");
    }
    let r = "\r\n";
    assert(r@ =~= line_terminator());
    r
}

/// Tells whether `c` ends a line.
pub fn is_break(c: char) -> (r: bool)
    ensures
        r == is_line_break(c),
{
    c == '\n' || c == '\r'
}

/// Rewrites the end of a line to the canonical terminator.
pub fn normalize_terminator(line: &str) -> (r: String)
    ensures
        r@ == terminated(line@),
        is_terminated(r@),
{
    let len: usize = line.unicode_len();
    let last: Option<char> = if len > 0 {
        Some(line.get_char(len - 1))
    } else {
        None
    };
    let before_last: Option<char> = if len > 1 {
        Some(line.get_char(len - 2))
    } else {
        None
    };
    if last == Some('\n') && before_last == Some('\r') {
        String::from_str(line)
    } else if last == Some('\n') {
        let mut out: String = String::from_str(line.substring_char(0, len - 1));
        out.append(terminator());
        assert(line@.subrange(0, len - 1) =~= line@.drop_last());
        out
    } else if last == Some('\r') {
        let mut out: String = String::from_str(line);
        push_char(&mut out, '\n');
        out
    } else {
        let mut out: String = String::from_str(line);
        out.append(terminator());
        out
    }
}

/// Appends one character with `String::push`: afterwards the text is what it
/// was, followed by `c`.
#[verifier::external_body]
pub(crate) fn push_char(text: &mut String, c: char)
    ensures
        final(text)@ == old(text)@.push(c),
{
    text.push(c)
}

/// What `str::to_lowercase` makes of a text.
pub uninterp spec fn lowercased(text: Seq<char>) -> Seq<char>;

/// Lower-cases a text with `str::to_lowercase`. Which characters change, and
/// into what, is left to the standard library; the contract only gives the
/// outcome a name, as it depends on nothing but the text.
#[verifier::external_body]
pub(crate) fn lowercase(text: &str) -> (r: String)
    ensures
        r@ == lowercased(text@),
{
    text.to_lowercase()
}

/// Whether `needle` stands in `hay` at position `at`.
pub open spec fn occurs_at(needle: Seq<char>, hay: Seq<char>, at: int) -> bool {
    &&& 0 <= at
    &&& at + needle.len() <= hay.len()
    &&& hay.subrange(at, at + needle.len()) == needle
}

/// Whether `needle` stands somewhere in `hay`, character after character.
pub open spec fn occurs_in(needle: Seq<char>, hay: Seq<char>) -> bool {
    exists|at: int| occurs_at(needle, hay, at)
}

/// Tests with `str::contains` whether `needle` is a substring of `hay`.
#[verifier::external_body]
pub(crate) fn contains(hay: &str, needle: &str) -> (r: bool)
    ensures
        r == occurs_in(needle@, hay@),
{
    hay.contains(needle)
}

/// Whether `char::is_whitespace` holds of a character.
pub uninterp spec fn is_white_space(c: char) -> bool;

/// Asks `char::is_whitespace` whether a character is white space. The answer
/// depends on the character alone.
#[verifier::external_body]
pub(crate) fn is_whitespace(c: char) -> (r: bool)
    ensures
        r == is_white_space(c),
{
    c.is_whitespace()
}

/// Number of white-space characters at the start of `s`.
pub open spec fn leading_space(s: Seq<char>) -> nat
    decreases s.len(),
{
    if s.len() > 0 && is_white_space(s.first()) {
        1 + leading_space(s.drop_first())
    } else {
        0
    }
}

/// Number of white-space characters at the end of `s`.
pub open spec fn trailing_space(s: Seq<char>) -> nat
    decreases s.len(),
{
    if s.len() > 0 && is_white_space(s.last()) {
        1 + trailing_space(s.drop_last())
    } else {
        0
    }
}

/// `s` without the white space at its start and at its end.
pub open spec fn trimmed(s: Seq<char>) -> Seq<char> {
    let rest = s.skip(leading_space(s) as int);
    rest.take(rest.len() - trailing_space(rest))
}

/// White space takes up no more of a text than there is text.
pub proof fn lemma_space_bounds(s: Seq<char>)
    ensures
        leading_space(s) <= s.len(),
        trailing_space(s) <= s.len(),
        leading_space(s) < s.len() ==> !is_white_space(s[leading_space(s) as int]),
        trailing_space(s) < s.len() ==> !is_white_space(s[s.len() - 1 - trailing_space(s)]),
    decreases s.len(),
{
    if s.len() > 0 {
        lemma_space_bounds(s.drop_first());
        lemma_space_bounds(s.drop_last());
        if is_white_space(s.first()) && leading_space(s) < s.len() {
            assert(s.drop_first()[leading_space(s.drop_first()) as int] == s[leading_space(
                s,
            ) as int]);
        }
        if is_white_space(s.last()) && trailing_space(s) < s.len() {
            let front = s.drop_last();
            assert(front[front.len() - 1 - trailing_space(front)] == s[s.len() - 1
                - trailing_space(s)]);
        }
    }
}

/// A trimmed text is a piece of the text it was trimmed from, and neither
/// starts nor ends with white space.
pub proof fn lemma_trimmed(s: Seq<char>)
    ensures
        ({
            let from = leading_space(s) as int;
            let kept = trimmed(s);
            &&& from + kept.len() <= s.len()
            &&& kept == s.subrange(from, from + kept.len())
            &&& kept.len() > 0 ==> !is_white_space(kept.first()) && !is_white_space(kept.last())
        }),
{
    lemma_space_bounds(s);
    let rest = s.skip(leading_space(s) as int);
    lemma_space_bounds(rest);
    let kept = trimmed(s);
    assert(kept =~= s.subrange(leading_space(s) as int, leading_space(s) as int + kept.len()));
    if kept.len() > 0 {
        assert(rest[0] == s[leading_space(s) as int]);
        assert(kept.first() == rest[0]);
        assert(kept.last() == rest[rest.len() - 1 - trailing_space(rest)]);
        if trailing_space(rest) == 0 {
        } else {
            assert(trailing_space(rest) < rest.len());
        }
    }
}

/// Strips the white space around a text.
pub fn trim(s: &str) -> (r: &str)
    ensures
        r@ == trimmed(s@),
{
    let len: usize = s.unicode_len();
    let mut from: usize = 0;
    assert(s@.skip(0) =~= s@);
    while from < len && is_whitespace(s.get_char(from))
        invariant
            len == s@.len(),
            from <= len,
            leading_space(s@) == from + leading_space(s@.skip(from as int)),
        decreases len - from,
    {
        proof {
            let rest = s@.skip(from as int);
            assert(rest.first() == s@[from as int]);
            assert(rest.drop_first() =~= s@.skip(from + 1));
        }
        from = from + 1;
    }
    let ghost rest = s@.skip(from as int);
    assert(leading_space(rest) == 0) by {
        if from < len {
            assert(rest.first() == s@[from as int]);
        }
    }
    let mut to: usize = len;
    assert(rest.take(rest.len() as int) =~= rest);
    while to > from && is_whitespace(s.get_char(to - 1))
        invariant
            len == s@.len(),
            from <= to <= len,
            rest == s@.skip(from as int),
            trailing_space(rest) == (len - to) + trailing_space(rest.take(to - from)),
        decreases to,
    {
        proof {
            let head = rest.take(to - from);
            assert(head.last() == s@[to - 1]);
            assert(head.drop_last() =~= rest.take(to - 1 - from));
        }
        to = to - 1;
    }
    proof {
        let head = rest.take(to - from);
        if to > from {
            assert(head.last() == s@[to - 1]);
        }
        assert(trailing_space(head) == 0);
        assert(s@.subrange(from as int, to as int) =~= rest.take(
            rest.len() - trailing_space(rest),
        ));
    }
    s.substring_char(from, to)
}

/// Whether `c` is one of the ten decimal digits.
pub open spec fn is_digit(c: char) -> bool {
    '0' <= c <= '9'
}

/// The value of a decimal digit.
pub open spec fn digit_value(c: char) -> nat {
    (c as u32 - '0' as u32) as nat
}

/// The number that a run of decimal digits writes; zero for no digits at all.
pub open spec fn decimal_value(digits: Seq<char>) -> nat
    decreases digits.len(),
{
    if digits.len() == 0 {
        0
    } else {
        decimal_value(digits.drop_last()) * 10 + digit_value(digits.last())
    }
}

/// Whether every character of `s` is a decimal digit.
pub open spec fn all_digits(s: Seq<char>) -> bool {
    forall|i: int| 0 <= i < s.len() ==> is_digit(#[trigger] s[i])
}

/// The character that writes the digit `d`.
pub open spec fn digit_char(d: nat) -> char {
    if d == 0 {
        '0'
    } else if d == 1 {
        '1'
    } else if d == 2 {
        '2'
    } else if d == 3 {
        '3'
    } else if d == 4 {
        '4'
    } else if d == 5 {
        '5'
    } else if d == 6 {
        '6'
    } else if d == 7 {
        '7'
    } else if d == 8 {
        '8'
    } else {
        '9'
    }
}

/// A number written in decimal, without leading zeros.
pub open spec fn decimal_digits(n: nat) -> Seq<char>
    decreases n,
{
    if n < 10 {
        seq![digit_char(n)]
    } else {
        decimal_digits(n / 10).push(digit_char(n % 10))
    }
}

/// Tells whether `c` is a decimal digit.
pub fn is_decimal_digit(c: char) -> (r: bool)
    ensures
        r == is_digit(c),
{
    '0' <= c && c <= '9'
}

/// Reads a decimal number. The result is `None` for text that is empty, holds
/// anything but digits, or writes a number too large for `usize`.
pub fn parse_decimal(s: &str) -> (r: Option<usize>)
    ensures
        r is Some <==> s@.len() > 0 && all_digits(s@) && decimal_value(s@) <= usize::MAX,
        r matches Some(v) ==> v == decimal_value(s@),
{
    let len: usize = s.unicode_len();
    if len == 0 {
        return None;
    }
    let mut value: usize = 0;
    let mut i: usize = 0;
    assert(s@.take(0) =~= Seq::<char>::empty());
    while i < len
        invariant
            len == s@.len(),
            i <= len,
            all_digits(s@.take(i as int)),
            value == decimal_value(s@.take(i as int)),
        decreases len - i,
    {
        let c: char = s.get_char(i);
        proof {
            let next = s@.take(i + 1);
            assert(next.drop_last() =~= s@.take(i as int));
            assert(next.last() == c);
            lemma_decimal_value_grows(s@, i + 1);
        }
        if !is_decimal_digit(c) {
            proof {
                assert(!is_digit(s@[i as int]));
            }
            return None;
        }
        let d: usize = (c as u32 - '0' as u32) as usize;
        if value > (usize::MAX - d) / 10 {
            return None;
        }
        value = value * 10 + d;
        proof {
            let next = s@.take(i + 1);
            assert forall|j: int| 0 <= j < next.len() implies is_digit(#[trigger] next[j]) by {
                if j < i {
                    assert(next[j] == s@.take(i as int)[j]);
                }
            }
        }
        i = i + 1;
    }
    assert(s@.take(len as int) =~= s@);
    Some(value)
}

/// The value written by a prefix never exceeds the value written by the whole.
pub proof fn lemma_decimal_value_grows(s: Seq<char>, k: int)
    requires
        0 <= k <= s.len(),
    ensures
        decimal_value(s.take(k)) <= decimal_value(s),
    decreases s.len() - k,
{
    if k < s.len() {
        lemma_decimal_value_grows(s, k + 1);
        let next = s.take(k + 1);
        assert(next.drop_last() =~= s.take(k));
        assert(decimal_value(next) >= decimal_value(s.take(k))) by (nonlinear_arith)
            requires
                decimal_value(next) == decimal_value(s.take(k)) * 10 + digit_value(next.last()),
        ;
    } else {
        assert(s.take(k) =~= s);
    }
}

/// Writes a number in decimal.
pub fn decimal(n: usize) -> (r: String)
    ensures
        r@ == decimal_digits(n as nat),
    decreases n,
{
    let mut out: String = if n >= 10 {
        decimal(n / 10)
    } else {
        String::new()
    };
    let d: usize = n % 10;
    let c: char = if d == 0 {
        '0'
    } else if d == 1 {
        '1'
    } else if d == 2 {
        '2'
    } else if d == 3 {
        '3'
    } else if d == 4 {
        '4'
    } else if d == 5 {
        '5'
    } else if d == 6 {
        '6'
    } else if d == 7 {
        '7'
    } else if d == 8 {
        '8'
    } else {
        '9'
    };
    push_char(&mut out, c);
    proof {
        if n < 10 {
            assert(out@ =~= seq![digit_char(n as nat)]);
        }
    }
    out
}

/// Rewriting the terminator leaves a line that ends with the canonical
/// terminator, and rewriting it again changes nothing.
pub proof fn lemma_terminated_is_stable(s: Seq<char>)
    ensures
        is_terminated(terminated(s)),
        terminated(terminated(s)) == terminated(s),
{
}

/// Rewriting the terminator touches nothing but line breaks at the end of the
/// line: the text before them is what it was.
pub proof fn lemma_terminated_keeps_text(s: Seq<char>)
    ensures
        without_trailing_breaks(terminated(s)) == without_trailing_breaks(s),
{
    let t = terminated(s);
    if is_terminated(s) {
    } else if s.len() > 0 && s.last() == '\n' {
        let body = s.drop_last();
        assert(t.drop_last() =~= body.push('\r'));
        assert(t.drop_last().drop_last() =~= body);
        assert(t.last() == '\n' && t.drop_last().last() == '\r');
        assert(kept_len(t) == kept_len(t.drop_last()));
        assert(kept_len(t.drop_last()) == kept_len(body));
        assert(kept_len(s) == kept_len(body));
        lemma_kept_len_bounds(body);
        assert(t.take(kept_len(body) as int) =~= s.take(kept_len(body) as int));
    } else if s.len() > 0 && s.last() == '\r' {
        assert(t.drop_last() =~= s);
        lemma_kept_len_bounds(s);
        assert(t.take(kept_len(s) as int) =~= s.take(kept_len(s) as int));
    } else {
        assert(t.drop_last() =~= s.push('\r'));
        assert(t.drop_last().drop_last() =~= s);
        assert(t.last() == '\n' && t.drop_last().last() == '\r');
        assert(kept_len(t) == kept_len(t.drop_last()));
        assert(kept_len(t.drop_last()) == kept_len(s));
        lemma_kept_len_bounds(s);
        assert(t.take(kept_len(s) as int) =~= s.take(kept_len(s) as int));
    }
}

/// A number written in decimal consists of digits and reads back as itself.
pub proof fn lemma_decimal_round_trip(n: nat)
    ensures
        decimal_digits(n).len() > 0,
        all_digits(decimal_digits(n)),
        decimal_value(decimal_digits(n)) == n,
    decreases n,
{
    let digits = decimal_digits(n);
    if n < 10 {
        assert(digits.drop_last() =~= Seq::<char>::empty());
        assert(decimal_value(digits.drop_last()) == 0);
    } else {
        lemma_decimal_round_trip(n / 10);
        let front = decimal_digits(n / 10);
        assert(digits.drop_last() =~= front);
        assert forall|i: int| 0 <= i < digits.len() implies is_digit(#[trigger] digits[i]) by {
            if i < front.len() {
                assert(digits[i] == front[i]);
            }
        }
    }
}

} // verus!
