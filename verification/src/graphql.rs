//! GraphQL documents and the parser that reads them.
use vstd::prelude::*;

use vstd::utf8::{encode_scalar, encode_utf8};

verus! {

/// A parsed GraphQL query, carried through unread.
#[verifier::external_type_specification]
#[verifier::external_body]
pub struct ExQueryDocument(graphql_parser::query::Document);

/// A parsed GraphQL schema, carried through unread.
#[verifier::external_type_specification]
#[verifier::external_body]
pub struct ExSchemaDocument(graphql_parser::schema::Document);

/// Why a text is no GraphQL query, carried through unread.
#[verifier::external_type_specification]
#[verifier::external_body]
pub struct ExParseError(graphql_parser::query::ParseError);

/// The `Clone` of a schema document copies all of its parts.
pub assume_specification[ <graphql_parser::schema::Document as Clone>::clone ](
    document: &graphql_parser::schema::Document,
) -> (copy: graphql_parser::schema::Document)
    ensures
        copy == *document,
;

/// What `graphql_parser::parse_query` makes of a text.
pub uninterp spec fn parsed_query(text: Seq<char>) -> Result<
    graphql_parser::query::Document,
    graphql_parser::query::ParseError,
>;

/// White space outside of ASCII.
pub open spec fn is_wide_space(c: char) -> bool {
    ||| c == '\u{85}'
    ||| c == '\u{a0}'
    ||| c == '\u{1680}'
    ||| '\u{2000}' <= c <= '\u{200a}'
    ||| c == '\u{2028}'
    ||| c == '\u{2029}'
    ||| c == '\u{202f}'
    ||| c == '\u{205f}'
    ||| c == '\u{3000}'
}

/// White space.
pub open spec fn is_space(c: char) -> bool {
    ||| '\u{9}' <= c <= '\u{d}'
    ||| c == ' '
    ||| is_wide_space(c)
}

/// How many bytes white space takes in UTF-8.
pub open spec fn space_width(c: char) -> int {
    if c <= '\u{7f}' {
        1
    } else if c <= '\u{7ff}' {
        2
    } else {
        3
    }
}

/// How many bytes white space from `start` to `stop` takes in UTF-8.
pub open spec fn indent_width(text: Seq<char>, start: int, stop: int) -> int
    decreases stop - start,
{
    if stop <= start {
        0
    } else {
        indent_width(text, start, stop - 1) + space_width(text[stop - 1])
    }
}

/// After `begin`, a line starts at `start`, and up to `stop` it holds white space only.
pub open spec fn is_indent(text: Seq<char>, begin: int, start: int, stop: int) -> bool {
    &&& begin < start <= stop
    &&& text[start - 1] == '\n'
    &&& forall|k: int| start <= k < stop ==> is_space(#[trigger] text[k]) && text[k] != '\n'
}

/// Between `begin` and `end`, a line that starts at `start` is indented up to `stop`, where it has
/// something else than white space.
pub open spec fn is_indented_line(
    text: Seq<char>,
    begin: int,
    end: int,
    start: int,
    stop: int,
) -> bool {
    &&& is_indent(text, begin, start, stop)
    &&& stop < end
    &&& !is_space(text[stop])
}

/// Of the lines of a block string between `begin` and `end` that are not blank, other than the
/// first one, the least indented one is indented by so many bytes.
pub open spec fn is_least_indent(text: Seq<char>, begin: int, end: int, width: int) -> bool {
    &&& exists|start: int, stop: int| #[trigger]
        is_indented_line(text, begin, end, start, stop) && indent_width(text, start, stop) == width
    &&& forall|start: int, stop: int| #[trigger]
        is_indented_line(text, begin, end, start, stop) ==> width <= indent_width(text, start, stop)
}

/// Taking so many bytes off each line between `begin` and `end` cuts a wide space apart.
pub open spec fn cuts_wide_space(text: Seq<char>, begin: int, end: int, width: int) -> bool {
    exists|start: int, at: int| #[trigger]
        is_indent(text, begin, start, at) && at < end && is_wide_space(text[at]) && indent_width(
            text,
            start,
            at,
        ) < width < indent_width(text, start, at) + space_width(text[at])
}

/// Taking the common indentation off the lines of the block string between `begin` and `end` cuts
/// a wide space apart.
pub open spec fn is_cut_block(text: Seq<char>, begin: int, end: int) -> bool {
    exists|width: int| #[trigger]
        is_least_indent(text, begin, end, width) && cuts_wide_space(text, begin, end, width)
}

/// Three quotes in a row, the mark of a block string, stand at a position.
pub open spec fn is_block_quote(text: Seq<char>, at: int) -> bool {
    &&& 0 <= at
    &&& at + 3 <= text.len()
    &&& text[at] == '"'
    &&& text[at + 1] == '"'
    &&& text[at + 2] == '"'
}

/// Where the block string that begins at `begin` ends, if it does so at or after `from`: at the
/// next three quotes without a backslash before them.
pub open spec fn block_end(text: Seq<char>, begin: int, from: int) -> Option<int>
    decreases text.len() - from,
{
    if from + 3 > text.len() {
        None
    } else if !is_block_quote(text, from) {
        block_end(text, begin, from + 1)
    } else if begin < from && text[from - 1] == '\\' {
        block_end(text, begin, from + 3)
    } else {
        Some(from)
    }
}

/// Where the text goes on after a string, if it is closed on its line.
pub open spec fn string_end(text: Seq<char>, from: int, escaped: bool) -> Option<int>
    decreases text.len() - from,
{
    if from >= text.len() || text[from] == '\n' {
        None
    } else if text[from] == '"' && !escaped {
        Some(from + 1)
    } else {
        string_end(text, from + 1, !escaped && text[from] == '\\')
    }
}

/// Where the line of a comment ends.
pub open spec fn comment_end(text: Seq<char>, from: int) -> int
    decreases text.len() - from,
{
    if from >= text.len() || text[from] == '\r' || text[from] == '\n' {
        from
    } else {
        comment_end(text, from + 1)
    }
}

/// A character that is a token of its own.
pub open spec fn is_punctuator(c: char) -> bool {
    ||| c == '!'
    ||| c == '$'
    ||| c == '&'
    ||| c == '('
    ||| c == ')'
    ||| c == ':'
    ||| c == '='
    ||| c == '@'
    ||| c == '['
    ||| c == ']'
    ||| c == '{'
    ||| c == '|'
    ||| c == '}'
}

/// A character that only keeps tokens apart.
pub open spec fn is_ignored(c: char) -> bool {
    c == ' ' || c == '\t' || c == '\n' || c == '\r' || c == ',' || c == '\u{feff}'
}

/// A character that a name can start with.
pub open spec fn is_name_start(c: char) -> bool {
    c == '_' || 'a' <= c <= 'z' || 'A' <= c <= 'Z'
}

/// A decimal digit.
pub open spec fn is_digit(c: char) -> bool {
    '0' <= c <= '9'
}

/// Where a name ends.
pub open spec fn name_end(text: Seq<char>, from: int) -> int
    decreases text.len() - from,
{
    if from < text.len() && (is_name_start(text[from]) || is_digit(text[from])) {
        name_end(text, from + 1)
    } else {
        from
    }
}

/// Where what starts as a number ends.
pub open spec fn number_end(text: Seq<char>, from: int) -> int
    decreases text.len() - from,
{
    if from >= text.len() || is_punctuator(text[from]) || text[from] == '#' || (is_ignored(
        text[from],
    ) && text[from] != '\u{feff}') {
        from
    } else {
        number_end(text, from + 1)
    }
}

/// Where digits end, at `end` at the latest.
pub open spec fn digits_end(text: Seq<char>, from: int, end: int) -> int
    decreases end - from,
{
    if from < end && is_digit(text[from]) {
        digits_end(text, from + 1, end)
    } else {
        from
    }
}

/// An exponent or nothing stands from `from` to `end`. The parser takes a sign alone for the number
/// in it, and none that starts with 0 or 9.
pub open spec fn is_exponent(text: Seq<char>, from: int, end: int) -> bool {
    from == end || {
        &&& text[from] == 'e' || text[from] == 'E'
        &&& from + 1 < end
        &&& text[from + 1] == '+' || text[from + 1] == '-' || '1' <= text[from + 1] <= '8'
        &&& digits_end(text, from + 2, end) == end
    }
}

/// A number stands from `from` to `end`: an integer without leading zeros, and then a fraction and
/// an exponent, or one of them, or none.
pub open spec fn is_number(text: Seq<char>, from: int, end: int) -> bool {
    let first = if text[from] == '-' {
        from + 1
    } else {
        from
    };
    let point = digits_end(text, first, end);
    &&& first < point
    &&& text[first] != '0' || point == first + 1
    &&& if point < end && text[point] == '.' {
        point + 1 < digits_end(text, point + 1, end) && is_exponent(
            text,
            digits_end(text, point + 1, end),
            end,
        )
    } else {
        is_exponent(text, point, end)
    }
}

/// Where the text goes on after the token, the comment or the space between tokens at `at`, if it
/// is one.
pub open spec fn token_end(text: Seq<char>, at: int) -> Option<int> {
    let c = text[at];
    if is_block_quote(text, at) {
        match block_end(text, at + 3, at + 3) {
            Some(end) => Some(end + 3),
            None => None,
        }
    } else if c == '"' {
        string_end(text, at + 1, false)
    } else if c == '#' {
        Some(comment_end(text, at + 1))
    } else if is_ignored(c) || is_punctuator(c) {
        Some(at + 1)
    } else if is_name_start(c) {
        Some(name_end(text, at + 1))
    } else if c == '-' || is_digit(c) {
        if is_number(text, at, number_end(text, at + 1)) {
            Some(number_end(text, at + 1))
        } else {
            None
        }
    } else if c == '.' && at + 3 <= text.len() && text[at + 1] == '.' && text[at + 2] == '.' {
        Some(at + 3)
    } else {
        None
    }
}

/// Among the tokens from `at` on is a block string whose common indentation ends within a wide
/// space. After something that is no token come no more tokens.
pub open spec fn has_cut_block(text: Seq<char>, at: int) -> bool
    decreases text.len() - at,
{
    at < text.len() && match token_end(text, at) {
        Some(next) => {
            ||| is_block_quote(text, at) && is_cut_block(text, at + 3, next - 3)
            ||| at < next <= text.len() && has_cut_block(text, next)
        },
        None => false,
    }
}

/// The texts that the parser gets through without a panic. It takes the common indentation off the
/// lines of a block string byte by byte, and panics where that cuts a wide space apart.
pub open spec fn parseable(text: Seq<char>) -> bool {
    !has_cut_block(text, 0)
}

/// `graphql_parser::parse_query` goes by the text alone; `parsed_query` names what it returns. How
/// deep a query may nest depends on the stack, and is not said here. Nor is anything said of a
/// text with a block string that it cannot strip, also where it would stop before that string
/// because the tokens do not make up a query. On its way it writes each number with a fraction or
/// an exponent to the standard output.
pub assume_specification[ graphql_parser::query::parse_query ](text: &str) -> (result: Result<
    graphql_parser::query::Document,
    graphql_parser::query::ParseError,
>)
    requires
        parseable(text@),
    ensures
        result == parsed_query(text@),
;

fn wide_space(c: char) -> (wide: bool)
    ensures
        wide == is_wide_space(c),
{
    c == '\u{85}' || c == '\u{a0}' || c == '\u{1680}' || ('\u{2000}' <= c && c <= '\u{200a}') || c
        == '\u{2028}' || c == '\u{2029}' || c == '\u{202f}' || c == '\u{205f}' || c == '\u{3000}'
}

fn space(c: char) -> (white: bool)
    ensures
        white == is_space(c),
{
    ('\u{9}' <= c && c <= '\u{d}') || c == ' ' || wide_space(c)
}

fn width_of(c: char) -> (width: u128)
    ensures
        width == space_width(c),
{
    if c <= '\u{7f}' {
        1
    } else if c <= '\u{7ff}' {
        2
    } else {
        3
    }
}

/// A scan of the indentation at the start of a line, up to a position in a block string.
struct IndentScan {
    /// Whether the line has held white space only.
    blank: bool,
    /// How many bytes that white space takes.
    width: u128,
    /// Where the line starts.
    start: Ghost<int>,
}

impl IndentScan {
    /// The scan has come to `at`.
    spec fn is_at(self, text: Seq<char>, begin: int, at: int) -> bool {
        &&& self.blank ==> is_indent(text, begin, self.start@, at)
        &&& self.blank ==> self.width == indent_width(text, self.start@, at)
        &&& self.blank ==> self.width <= 3 * (at - begin)
        &&& forall|start: int| #[trigger]
            is_indent(text, begin, start, at) ==> self.blank && start == self.start@
    }

    fn new(text: &Vec<char>, begin: usize) -> (scan: Self)
        ensures
            scan.is_at(text@, begin as int, begin as int),
    {
        IndentScan { blank: false, width: 0, start: Ghost(0) }
    }

    fn step(&mut self, text: &Vec<char>, Ghost(begin): Ghost<int>, at: usize)
        requires
            0 <= begin <= at < text@.len(),
            old(self).is_at(text@, begin, at as int),
        ensures
            final(self).is_at(text@, begin, at + 1),
    {
        let c = text[at];
        let ghost next = at + 1;
        proof {
            assert forall|start: int| #[trigger]
                is_indent(text@, begin, start, next) && start != next implies is_indent(
                text@,
                begin,
                start,
                at as int,
            ) && is_space(c) && c != '\n' by {
                assert(is_space(text@[at as int]));
            }
        }
        if c == '\n' {
            self.blank = true;
            self.width = 0;
            self.start = Ghost(next);
            assert(is_indent(text@, begin, next, next));
        } else if self.blank && space(c) {
            self.width = self.width + width_of(c);
            assert(is_indent(text@, begin, self.start@, next));
        } else {
            self.blank = false;
        }
    }
}

/// What has been found out about the indentation of the lines between `begin` and `end`.
spec fn is_least_so_far(text: Seq<char>, begin: int, end: int, least: Option<u128>) -> bool {
    match least {
        Some(width) => is_least_indent(text, begin, end, width as int),
        None => forall|start: int, stop: int| !#[trigger]
            is_indented_line(text, begin, end, start, stop),
    }
}

/// One more character may complete the indentation of a line.
proof fn lemma_least_so_far(
    text: Seq<char>,
    begin: int,
    at: int,
    before: Option<u128>,
    scan: IndentScan,
    after: Option<u128>,
)
    requires
        begin <= at < text.len(),
        is_least_so_far(text, begin, at, before),
        scan.is_at(text, begin, at),
        after == (if !(scan.blank && !is_space(text[at])) || (before matches Some(width) && width
            <= scan.width) {
            before
        } else {
            Some(scan.width)
        }),
    ensures
        is_least_so_far(text, begin, at + 1, after),
{
    let next = at + 1;
    let found = scan.blank && !is_space(text[at]);
    assert forall|start: int, stop: int| #[trigger]
        is_indented_line(text, begin, next, start, stop) implies is_indented_line(
        text,
        begin,
        at,
        start,
        stop,
    ) || (found && start == scan.start@ && stop == at) by {}
    if let Some(width) = before {
        let (start, stop) = choose|start: int, stop: int| #[trigger]
            is_indented_line(text, begin, at, start, stop) && indent_width(text, start, stop)
                == width;
        assert(is_indented_line(text, begin, next, start, stop));
    }
    if found {
        assert(is_indented_line(text, begin, next, scan.start@, at));
    }
}

/// The indentation that the lines of a block string have in common.
fn least_indent(text: &Vec<char>, begin: usize, end: usize) -> (least: Option<u128>)
    requires
        begin <= end <= text@.len(),
    ensures
        is_least_so_far(text@, begin as int, end as int, least),
{
    let mut scan = IndentScan::new(text, begin);
    let mut least: Option<u128> = None;
    for at in begin..end
        invariant
            begin <= end <= text@.len(),
            scan.is_at(text@, begin as int, at as int),
            is_least_so_far(text@, begin as int, at as int, least),
    {
        let ghost before = least;
        if scan.blank && !space(text[at]) {
            least = match least {
                Some(width) => if width <= scan.width {
                    Some(width)
                } else {
                    Some(scan.width)
                },
                None => Some(scan.width),
            };
        }
        proof {
            lemma_least_so_far(text@, begin as int, at as int, before, scan, least);
        }
        scan.step(text, Ghost(begin as int), at);
    }
    least
}

/// Whether taking so many bytes off each line of a block string cuts a wide space apart.
fn wide_space_is_cut(text: &Vec<char>, begin: usize, end: usize, width: u128) -> (cut: bool)
    requires
        begin <= end <= text@.len(),
    ensures
        cut == cuts_wide_space(text@, begin as int, end as int, width as int),
{
    let mut scan = IndentScan::new(text, begin);
    for at in begin..end
        invariant
            begin <= end <= text@.len(),
            scan.is_at(text@, begin as int, at as int),
            !cuts_wide_space(text@, begin as int, at as int, width as int),
    {
        let c = text[at];
        if scan.blank && wide_space(c) && scan.width < width && width < scan.width + width_of(c) {
            assert(is_indent(text@, begin as int, scan.start@, at as int));
            return true;
        }
        scan.step(text, Ghost(begin as int), at);
    }
    false
}

/// Whether taking the common indentation off a block string cuts a wide space apart.
fn block_is_cut(text: &Vec<char>, begin: usize, end: usize) -> (cut: bool)
    requires
        begin <= end <= text@.len(),
    ensures
        cut == is_cut_block(text@, begin as int, end as int),
{
    match least_indent(text, begin, end) {
        Some(width) => {
            proof {
                assert forall|other: int| #[trigger]
                    is_least_indent(text@, begin as int, end as int, other) implies other
                    == width by {
                    let (start, stop) = choose|start: int, stop: int| #[trigger]
                        is_indented_line(text@, begin as int, end as int, start, stop)
                            && indent_width(text@, start, stop) == other;
                    assert(width <= indent_width(text@, start, stop));
                    let (start, stop) = choose|start: int, stop: int| #[trigger]
                        is_indented_line(text@, begin as int, end as int, start, stop)
                            && indent_width(text@, start, stop) == width;
                    assert(other <= indent_width(text@, start, stop));
                }
            }
            wide_space_is_cut(text, begin, end, width)
        },
        None => false,
    }
}

fn block_quote(text: &Vec<char>, at: usize) -> (found: bool)
    ensures
        found == is_block_quote(text@, at as int),
{
    at < text.len() && text.len() - at >= 3 && text[at] == '"' && text[at + 1] == '"' && text[at
        + 2] == '"'
}

fn find_block_end(text: &Vec<char>, begin: usize) -> (end: Option<usize>)
    requires
        begin <= text@.len(),
    ensures
        match end {
            Some(end) => block_end(text@, begin as int, begin as int) == Some(end as int) && begin
                <= end && end + 3 <= text@.len(),
            None => block_end(text@, begin as int, begin as int) is None,
        },
{
    let mut from = begin;
    while from < text.len() && text.len() - from >= 3
        invariant
            begin <= from <= text@.len(),
            block_end(text@, begin as int, begin as int) == block_end(
                text@,
                begin as int,
                from as int,
            ),
        decreases text@.len() - from,
    {
        if !block_quote(text, from) {
            from = from + 1;
        } else if begin < from && text[from - 1] == '\\' {
            from = from + 3;
        } else {
            return Some(from);
        }
    }
    None
}

fn find_string_end(text: &Vec<char>, begin: usize) -> (end: Option<usize>)
    requires
        begin <= text@.len(),
    ensures
        match end {
            Some(end) => string_end(text@, begin as int, false) == Some(end as int) && begin < end
                <= text@.len(),
            None => string_end(text@, begin as int, false) is None,
        },
{
    let mut from = begin;
    let mut escaped = false;
    while from < text.len() && text[from] != '\n'
        invariant
            begin <= from <= text@.len(),
            string_end(text@, begin as int, false) == string_end(text@, from as int, escaped),
        decreases text@.len() - from,
    {
        if text[from] == '"' && !escaped {
            return Some(from + 1);
        }
        escaped = !escaped && text[from] == '\\';
        from = from + 1;
    }
    None
}

fn find_comment_end(text: &Vec<char>, begin: usize) -> (end: usize)
    requires
        begin <= text@.len(),
    ensures
        end == comment_end(text@, begin as int),
        begin <= end <= text@.len(),
{
    let mut from = begin;
    while from < text.len() && text[from] != '\r' && text[from] != '\n'
        invariant
            begin <= from <= text@.len(),
            comment_end(text@, begin as int) == comment_end(text@, from as int),
        decreases text@.len() - from,
    {
        from = from + 1;
    }
    from
}

fn punctuator(c: char) -> (found: bool)
    ensures
        found == is_punctuator(c),
{
    c == '!' || c == '$' || c == '&' || c == '(' || c == ')' || c == ':' || c == '=' || c == '@'
        || c == '[' || c == ']' || c == '{' || c == '|' || c == '}'
}

fn ignored(c: char) -> (found: bool)
    ensures
        found == is_ignored(c),
{
    c == ' ' || c == '\t' || c == '\n' || c == '\r' || c == ',' || c == '\u{feff}'
}

fn name_start(c: char) -> (found: bool)
    ensures
        found == is_name_start(c),
{
    c == '_' || ('a' <= c && c <= 'z') || ('A' <= c && c <= 'Z')
}

fn digit(c: char) -> (found: bool)
    ensures
        found == is_digit(c),
{
    '0' <= c && c <= '9'
}

fn find_name_end(text: &Vec<char>, begin: usize) -> (end: usize)
    requires
        begin <= text@.len(),
    ensures
        end == name_end(text@, begin as int),
        begin <= end <= text@.len(),
{
    let mut from = begin;
    while from < text.len() && (name_start(text[from]) || digit(text[from]))
        invariant
            begin <= from <= text@.len(),
            name_end(text@, begin as int) == name_end(text@, from as int),
        decreases text@.len() - from,
    {
        from = from + 1;
    }
    from
}

fn find_number_end(text: &Vec<char>, begin: usize) -> (end: usize)
    requires
        begin <= text@.len(),
    ensures
        end == number_end(text@, begin as int),
        begin <= end <= text@.len(),
{
    let mut from = begin;
    while from < text.len() && !(punctuator(text[from]) || text[from] == '#' || (ignored(text[from])
        && text[from] != '\u{feff}'))
        invariant
            begin <= from <= text@.len(),
            number_end(text@, begin as int) == number_end(text@, from as int),
        decreases text@.len() - from,
    {
        from = from + 1;
    }
    from
}

fn find_digits_end(text: &Vec<char>, begin: usize, end: usize) -> (stop: usize)
    requires
        begin <= end <= text@.len(),
    ensures
        stop == digits_end(text@, begin as int, end as int),
        begin <= stop <= end,
{
    let mut from = begin;
    while from < end && digit(text[from])
        invariant
            begin <= from <= end <= text@.len(),
            digits_end(text@, begin as int, end as int) == digits_end(
                text@,
                from as int,
                end as int,
            ),
        decreases end - from,
    {
        from = from + 1;
    }
    from
}

fn exponent(text: &Vec<char>, from: usize, end: usize) -> (found: bool)
    requires
        from <= end <= text@.len(),
    ensures
        found == is_exponent(text@, from as int, end as int),
{
    if from == end {
        return true;
    }
    if text[from] != 'e' && text[from] != 'E' || end - from < 2 {
        return false;
    }
    let sign = text[from + 1];
    (sign == '+' || sign == '-' || ('1' <= sign && sign <= '8')) && find_digits_end(
        text,
        from + 2,
        end,
    ) == end
}

fn number(text: &Vec<char>, from: usize, end: usize) -> (found: bool)
    requires
        from < end <= text@.len(),
    ensures
        found == is_number(text@, from as int, end as int),
{
    let first = if text[from] == '-' {
        from + 1
    } else {
        from
    };
    let point = find_digits_end(text, first, end);
    if first == point || (text[first] == '0' && point != first + 1) {
        return false;
    }
    if point < end && text[point] == '.' {
        let fraction_end = find_digits_end(text, point + 1, end);
        point + 1 < fraction_end && exponent(text, fraction_end, end)
    } else {
        exponent(text, point, end)
    }
}

fn find_token_end(text: &Vec<char>, at: usize) -> (next: Option<usize>)
    requires
        at < text@.len(),
    ensures
        match next {
            Some(next) => token_end(text@, at as int) == Some(next as int) && at < next
                <= text@.len() && (is_block_quote(text@, at as int) ==> at + 6 <= next),
            None => token_end(text@, at as int) is None,
        },
{
    let left: usize = text.len() - at;
    let c = text[at];
    if block_quote(text, at) {
        match find_block_end(text, at + 3) {
            Some(end) => Some(end + 3),
            None => None,
        }
    } else if c == '"' {
        find_string_end(text, at + 1)
    } else if c == '#' {
        Some(find_comment_end(text, at + 1))
    } else if ignored(c) || punctuator(c) {
        Some(at + 1)
    } else if name_start(c) {
        Some(find_name_end(text, at + 1))
    } else if c == '-' || digit(c) {
        let end = find_number_end(text, at + 1);
        if number(text, at, end) {
            Some(end)
        } else {
            None
        }
    } else if c == '.' && left >= 3 && text[at + 1] == '.' && text[at + 2] == '.' {
        Some(at + 3)
    } else {
        None
    }
}

/// Whether the parser gets through a text without a panic.
pub fn is_parseable(text: &str) -> (safe: bool)
    ensures
        safe == parseable(text@),
{
    let mut chars: Vec<char> = Vec::new();
    for c in it: text.chars()
        invariant
            it.seq() == text@,
            chars@ == text@.take(it.index() as int),
    {
        chars.push(c);
    }
    assert(chars@ =~= text@);
    let mut at: usize = 0;
    while at < chars.len()
        invariant
            chars@ == text@,
            at <= chars@.len(),
            has_cut_block(chars@, 0) == has_cut_block(chars@, at as int),
        decreases chars@.len() - at,
    {
        match find_token_end(&chars, at) {
            Some(next) => {
                if block_quote(&chars, at) && block_is_cut(&chars, at + 3, next - 3) {
                    return false;
                }
                at = next;
            },
            None => {
                return true;
            },
        }
    }
    true
}

/// Texts without block quotes, and texts without white space other than that of ASCII, are never
/// refused.
pub proof fn law_plain_texts_are_parseable(text: Seq<char>)
    requires
        (forall|i: int| !#[trigger] is_block_quote(text, i)) || forall|i: int|
            0 <= i < text.len() ==> !is_wide_space(#[trigger] text[i]),
    ensures
        parseable(text),
{
    lemma_plain_rest(text, 0);
}

proof fn lemma_plain_rest(text: Seq<char>, at: int)
    requires
        0 <= at,
        (forall|i: int| !#[trigger] is_block_quote(text, i)) || forall|i: int|
            0 <= i < text.len() ==> !is_wide_space(#[trigger] text[i]),
    ensures
        !has_cut_block(text, at),
    decreases text.len() - at,
{
    if at < text.len() {
        if let Some(next) = token_end(text, at) {
            if at < next <= text.len() {
                lemma_plain_rest(text, next);
            }
            if is_block_quote(text, at) {
                assert(!is_cut_block(text, at + 3, next - 3)) by {
                    lemma_block_end(text, at + 3, at + 3);
                }
            }
        }
    }
}

/// A block string ends after it begins, and at three quotes.
proof fn lemma_block_end(text: Seq<char>, begin: int, from: int)
    ensures
        block_end(text, begin, from) matches Some(end) ==> from <= end && is_block_quote(text, end),
    decreases text.len() - from,
{
    if from + 3 <= text.len() {
        if !is_block_quote(text, from) {
            lemma_block_end(text, begin, from + 1);
        } else if begin < from && text[from - 1] == '\\' {
            lemma_block_end(text, begin, from + 3);
        }
    }
}

/// One more character adds the bytes of its own.
proof fn lemma_encode_push(chars: Seq<char>, c: char)
    ensures
        encode_utf8(chars.push(c)).len() == encode_utf8(chars).len() + encode_scalar(
            c as u32,
        ).len(),
    decreases chars.len(),
{
    let more = chars.push(c);
    if chars.len() == 0 {
        assert(more.drop_first() =~= Seq::empty());
        assert(encode_utf8(more.drop_first()).len() == 0);
    } else {
        lemma_encode_push(chars.drop_first(), c);
        assert(more.drop_first() =~= chars.drop_first().push(c));
    }
}

/// The width of an indentation is the number of bytes that it takes in UTF-8.
pub proof fn law_indentation_is_counted_in_bytes(text: Seq<char>, start: int, stop: int)
    requires
        0 <= start <= stop <= text.len(),
        forall|k: int| start <= k < stop ==> is_space(#[trigger] text[k]),
    ensures
        indent_width(text, start, stop) == encode_utf8(text.subrange(start, stop)).len(),
    decreases stop - start,
{
    if start < stop {
        law_indentation_is_counted_in_bytes(text, start, stop - 1);
        lemma_encode_push(text.subrange(start, stop - 1), text[stop - 1]);
        assert(text.subrange(start, stop) =~= text.subrange(start, stop - 1).push(text[stop - 1]));
        assert(is_space(text[stop - 1]));
        assert(encode_scalar(text[stop - 1] as u32).len() == space_width(text[stop - 1]));
    } else {
        assert(text.subrange(start, stop) =~= Seq::empty());
    }
}

/// Where the parser is kept from a text, the text has a block string, between two marks of three
/// quotes, in which the least indented line takes so many bytes of indentation that the same number
/// of bytes of another line ends in the middle of a wide space.
pub proof fn law_only_cut_spaces_are_refused(text: Seq<char>) -> (found: (
    int,
    int,
    int,
    int,
    int,
    int,
))
    requires
        !parseable(text),
    ensures
        ({
            let (begin, end, start, stop, line, at) = found;
            &&& 3 <= begin <= end
            &&& end + 3 <= text.len()
            &&& text[begin - 3] == '"' && text[begin - 2] == '"' && text[begin - 1] == '"'
            &&& text[end] == '"' && text[end + 1] == '"' && text[end + 2] == '"'
            &&& begin < start <= stop < end
            &&& text[start - 1] == '\n'
            &&& forall|k: int| start <= k < stop ==> is_space(#[trigger] text[k])
            &&& !is_space(text[stop])
            &&& begin < line <= at < end
            &&& text[line - 1] == '\n'
            &&& forall|k: int| line <= k < at ==> is_space(#[trigger] text[k])
            &&& is_wide_space(text[at])
            &&& encode_utf8(text.subrange(line, at)).len() < encode_utf8(
                text.subrange(start, stop),
            ).len() < encode_utf8(text.subrange(line, at + 1)).len()
        }),
{
    let (begin, end) = lemma_cut_block(text, 0);
    let width = choose|width: int| #[trigger]
        is_least_indent(text, begin, end, width) && cuts_wide_space(text, begin, end, width);
    let (start, stop) = choose|start: int, stop: int| #[trigger]
        is_indented_line(text, begin, end, start, stop) && indent_width(text, start, stop)
            == width;
    let (line, at) = choose|line: int, at: int| #[trigger]
        is_indent(text, begin, line, at) && at < end && is_wide_space(text[at]) && indent_width(
            text,
            line,
            at,
        ) < width < indent_width(text, line, at) + space_width(text[at]);
    law_indentation_is_counted_in_bytes(text, start, stop);
    law_indentation_is_counted_in_bytes(text, line, at);
    assert forall|k: int| line <= k < at + 1 implies is_space(#[trigger] text[k]) by {}
    law_indentation_is_counted_in_bytes(text, line, at + 1);
    (begin, end, start, stop, line, at)
}

/// A text with a block string that is cut has one between two marks.
proof fn lemma_cut_block(text: Seq<char>, from: int) -> (found: (int, int))
    requires
        0 <= from,
        has_cut_block(text, from),
    ensures
        is_block_quote(text, found.0 - 3),
        is_block_quote(text, found.1),
        found.0 <= found.1,
        is_cut_block(text, found.0, found.1),
    decreases text.len() - from,
{
    let next = token_end(text, from)->0;
    if is_block_quote(text, from) && is_cut_block(text, from + 3, next - 3) {
        lemma_block_end(text, from + 3, from + 3);
        (from + 3, next - 3)
    } else {
        lemma_cut_block(text, next)
    }
}

/// The characters before a block string are words, punctuation and the space between them.
pub open spec fn is_plain_before(text: Seq<char>, at: int) -> bool {
    forall|k: int|
        0 <= k < at ==> {
            let c = #[trigger] text[k];
            ||| 'a' <= c <= 'z'
            ||| 'A' <= c <= 'Z'
            ||| c == '_'
            ||| c == ' '
            ||| c == '\n'
            ||| c == ','
            ||| c == '{'
            ||| c == '}'
            ||| c == '('
            ||| c == ')'
            ||| c == ':'
            ||| c == '$'
            ||| c == '@'
            ||| c == '['
            ||| c == ']'
        }
}

/// The parser is kept from a text with a block string, after words and punctuation, in which the
/// indentation of the least indented line ends in the middle of a wide space of another line.
pub proof fn law_cut_spaces_are_refused(
    text: Seq<char>,
    at: int,
    end: int,
    start: int,
    stop: int,
    line: int,
    wide: int,
)
    requires
        0 <= at,
        at + 3 <= end,
        end + 3 <= text.len(),
        is_plain_before(text, at),
        text[at] == '"' && text[at + 1] == '"' && text[at + 2] == '"',
        forall|k: int| at + 3 <= k < end ==> #[trigger] text[k] != '"' && text[k] != '\\',
        text[end] == '"' && text[end + 1] == '"' && text[end + 2] == '"',
        at + 3 < start <= stop < end,
        text[start - 1] == '\n',
        forall|k: int| start <= k < stop ==> is_space(#[trigger] text[k]) && text[k] != '\n',
        !is_space(text[stop]),
        forall|s: int, t: int| #[trigger]
            is_indented_line(text, at + 3, end, s, t) ==> encode_utf8(
                text.subrange(start, stop),
            ).len() <= encode_utf8(text.subrange(s, t)).len(),
        at + 3 < line <= wide < end,
        text[line - 1] == '\n',
        forall|k: int| line <= k < wide ==> is_space(#[trigger] text[k]) && text[k] != '\n',
        is_wide_space(text[wide]),
        encode_utf8(text.subrange(line, wide)).len() < encode_utf8(
            text.subrange(start, stop),
        ).len() < encode_utf8(text.subrange(line, wide + 1)).len(),
    ensures
        !parseable(text),
{
    let width = indent_width(text, start, stop);
    law_indentation_is_counted_in_bytes(text, start, stop);
    law_indentation_is_counted_in_bytes(text, line, wide);
    assert forall|k: int| line <= k < wide + 1 implies is_space(#[trigger] text[k]) by {}
    law_indentation_is_counted_in_bytes(text, line, wide + 1);
    assert(is_indented_line(text, at + 3, end, start, stop));
    assert forall|s: int, t: int| #[trigger]
        is_indented_line(text, at + 3, end, s, t) implies width <= indent_width(text, s, t) by {
        law_indentation_is_counted_in_bytes(text, s, t);
    }
    assert(is_least_indent(text, at + 3, end, width));
    assert(is_indent(text, at + 3, line, wide));
    assert(cuts_wide_space(text, at + 3, end, width));
    lemma_unbroken_block(text, at + 3, at + 3, end);
    lemma_plain_words(text, 0, at);
}

/// A block string without quotes and backslashes in it ends at the next three quotes.
proof fn lemma_unbroken_block(text: Seq<char>, begin: int, from: int, end: int)
    requires
        0 <= begin <= from <= end,
        is_block_quote(text, end),
        forall|k: int| begin <= k < end ==> #[trigger] text[k] != '"' && text[k] != '\\',
    ensures
        block_end(text, begin, from) == Some(end),
    decreases end - from,
{
    if from < end {
        assert(text[from] != '"');
        lemma_unbroken_block(text, begin, from + 1, end);
    } else if begin < end {
        assert(text[end - 1] != '\\');
    }
}

/// Words and punctuation lead on to the block string after them.
proof fn lemma_plain_words(text: Seq<char>, from: int, at: int)
    requires
        0 <= from <= at < text.len(),
        is_plain_before(text, at),
        is_block_quote(text, at),
        has_cut_block(text, at),
    ensures
        has_cut_block(text, from),
    decreases at - from,
{
    if from < at {
        let c = text[from];
        assert(!is_block_quote(text, from));
        if is_name_start(c) {
            lemma_word_ends(text, from + 1, at);
            lemma_plain_words(text, name_end(text, from + 1), at);
        } else {
            lemma_plain_words(text, from + 1, at);
        }
    }
}

/// A word ends before the quotes that come after it.
proof fn lemma_word_ends(text: Seq<char>, from: int, at: int)
    requires
        0 <= from <= at < text.len(),
        text[at] == '"',
    ensures
        from <= name_end(text, from) <= at,
    decreases at - from,
{
    if from < at && (is_name_start(text[from]) || is_digit(text[from])) {
        lemma_word_ends(text, from + 1, at);
    }
}

/// Wide spaces are the white space that takes more than one byte.
pub proof fn law_wide_spaces_take_several_bytes(c: char)
    ensures
        is_wide_space(c) <==> is_space(c) && encode_scalar(c as u32).len() > 1,
{
}

} // verus!
